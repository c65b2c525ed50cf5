use vstd::prelude::*;

verus! {

/// An integer block coordinate: the addressing unit of placed structures and
/// world queries.
#[derive(Clone, Copy, PartialEq, Eq, Structural, Debug)]
pub struct BlockPos {
    pub x: i32,
    pub y: i32,
    pub z: i32,
}

/// A fine-grained position, in hundredths of a block along each axis.
#[derive(Clone, Copy, PartialEq, Eq, Structural, Debug)]
pub struct FinePos {
    pub x: i64,
    pub y: i64,
    pub z: i64,
}

/// An orientation vector, in hundredths. The tracker stores and restores such
/// values; it never computes with them.
#[derive(Clone, Copy, PartialEq, Eq, Structural, Debug)]
pub struct LookVec {
    pub x: i64,
    pub y: i64,
    pub z: i64,
}

/// The material a placement writes into the world.
#[derive(Clone, Copy, PartialEq, Eq, Structural, Debug)]
pub enum BlockKind {
    /// Empty space, written when a structure is cleared.
    Air,
    /// A decorative material picked by the palette provider; the payload is
    /// the collaborator's raw identifier and is never inspected here.
    Decor(u32),
    /// The frame material of the finishing structure.
    PortalFrame,
    /// The portal plane material of the finishing structure.
    Portal,
}

impl BlockPos {
    pub fn new(x: i32, y: i32, z: i32) -> (r: BlockPos)
        ensures
            r.x == x && r.y == y && r.z == z,
    {
        BlockPos { x, y, z }
    }
}

impl FinePos {
    pub fn new(x: i64, y: i64, z: i64) -> (r: FinePos)
        ensures
            r.x == x && r.y == y && r.z == z,
    {
        FinePos { x, y, z }
    }
}

impl LookVec {
    pub fn new(x: i64, y: i64, z: i64) -> (r: LookVec)
        ensures
            r.x == x && r.y == y && r.z == z,
    {
        LookVec { x, y, z }
    }
}

} // verus!
