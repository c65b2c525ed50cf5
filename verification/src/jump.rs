use vstd::prelude::*;

use crate::coords::{BlockKind, BlockPos};
use crate::port::Port;

verus! {

/// The highest vertical coordinate a placement may occupy: the world's
/// build-height ceiling.
pub const HEIGHT_CEILING: i32 = 255;

/// One placement a realized platform owns: a coordinate and the material
/// written there.
#[derive(Clone, Copy, PartialEq, Eq, Structural, Debug)]
pub struct JumpBlock {
    pub pos: BlockPos,
    pub state: BlockKind,
}

/// The x-offset from the anchor of the k-th placement of a standard 2x2
/// platform (placements are ordered (0,0), (0,1), (1,0), (1,1)).
pub open spec fn std_dx(k: int) -> int {
    k / 2
}

/// The z-offset from the anchor of the k-th placement of a standard 2x2
/// platform.
pub open spec fn std_dz(k: int) -> int {
    k % 2
}

/// The x-offset from the anchor of the k-th placement of the finishing
/// structure: a 4x4 frame ring spanning offsets -1..=2 with its four true
/// corners omitted (12 placements), followed by the solid 2x2 portal plane
/// (4 placements).
pub open spec fn finish_dx(k: int) -> int {
    if k < 2 {
        -1
    } else if k < 6 {
        0
    } else if k < 10 {
        1
    } else if k < 12 {
        2
    } else if k < 14 {
        0
    } else {
        1
    }
}

/// The z-offset from the anchor of the k-th placement of the finishing
/// structure.
pub open spec fn finish_dz(k: int) -> int {
    if k < 2 {
        k
    } else if k < 6 {
        k - 3
    } else if k < 10 {
        k - 7
    } else if k < 12 {
        k - 10
    } else if k < 14 {
        k - 12
    } else {
        k - 14
    }
}

/// The material of the k-th placement of the finishing structure.
pub open spec fn finish_kind(k: int) -> BlockKind {
    if k < 12 {
        BlockKind::PortalFrame
    } else {
        BlockKind::Portal
    }
}

/// A realized platform: a non-empty ordered collection of placements plus the
/// one port describing its logical endpoint.
pub struct Jump {
    pub endpoint: Port,
    pub blocks: Vec<JumpBlock>,
}

impl Jump {
    /// The owned placements, as a mathematical sequence.
    pub open spec fn blocks_seq(self) -> Seq<JumpBlock> {
        self.blocks@
    }

    /// Well-formedness: the placements are exactly the footprint the endpoint
    /// describes. A standard platform owns the four blocks of its 2x2
    /// footprint at the anchor's height; the finishing structure owns the
    /// frame ring and the portal plane.
    pub open spec fn wf(self) -> bool {
        match self.endpoint {
            Port::TwoByTwo(a) => {
                &&& self.blocks_seq().len() == 4
                &&& forall|k: int|
                    0 <= k < 4 ==> {
                        let b = #[trigger] self.blocks_seq()[k];
                        &&& b.pos.x == a.x + std_dx(k)
                        &&& b.pos.y == a.y
                        &&& b.pos.z == a.z + std_dz(k)
                    }
            },
            Port::TwoByTwoPortal(a) => {
                &&& self.blocks_seq().len() == 16
                &&& forall|k: int|
                    0 <= k < 16 ==> {
                        let b = #[trigger] self.blocks_seq()[k];
                        &&& b.pos.x == a.x + finish_dx(k)
                        &&& b.pos.y == a.y
                        &&& b.pos.z == a.z + finish_dz(k)
                        &&& b.state == finish_kind(k)
                    }
            },
        }
    }

    /// The placements to write into the world to materialize this platform.
    /// Writing them is the collaborator layer's task; the list returned here
    /// is exactly the owned placements, in order.
    pub fn build(&self) -> (r: Vec<JumpBlock>)
        ensures
            r@ == self.blocks_seq(),
    {
        let mut r: Vec<JumpBlock> = Vec::new();
        let mut i: usize = 0;
        while i < self.blocks.len()
            invariant
                0 <= i <= self.blocks.len(),
                r@ == self.blocks@.take(i as int),
            decreases self.blocks.len() - i,
        {
            r.push(self.blocks[i]);
            assert(self.blocks@.take(i + 1 as int) == self.blocks@.take(i as int).push(
                self.blocks@[i as int],
            ));
            i = i + 1;
        }
        assert(self.blocks@.take(self.blocks@.len() as int) == self.blocks@);
        r
    }

    /// The writes that erase this platform from the world: one air placement
    /// per owned coordinate, in order.
    pub fn despawn(&self) -> (r: Vec<JumpBlock>)
        ensures
            r@.len() == self.blocks_seq().len(),
            forall|k: int|
                0 <= k < r@.len() ==> (#[trigger] r@[k]).pos == self.blocks_seq()[k].pos
                    && r@[k].state == BlockKind::Air,
    {
        let mut r: Vec<JumpBlock> = Vec::new();
        let mut i: usize = 0;
        while i < self.blocks.len()
            invariant
                0 <= i <= self.blocks.len(),
                r@.len() == i,
                forall|k: int|
                    0 <= k < i ==> (#[trigger] r@[k]).pos == self.blocks@[k].pos && r@[k].state
                        == BlockKind::Air,
            decreases self.blocks.len() - i,
        {
            r.push(JumpBlock { pos: self.blocks[i].pos, state: BlockKind::Air });
            i = i + 1;
        }
        r
    }

    /// True when some placement lies above the world's build-height ceiling.
    pub open spec fn spec_too_high(self) -> bool {
        exists|k: int| 0 <= k < self.blocks_seq().len() && self.blocks_seq()[k].pos.y > 255
    }

    pub fn too_high(&self) -> (r: bool)
        ensures
            r == self.spec_too_high(),
    {
        let mut i: usize = 0;
        while i < self.blocks.len()
            invariant
                0 <= i <= self.blocks.len(),
                forall|k: int| 0 <= k < i ==> !((#[trigger] self.blocks@[k]).pos.y > 255),
            decreases self.blocks.len() - i,
        {
            if self.blocks[i].pos.y > HEIGHT_CEILING {
                return true;
            }
            i = i + 1;
        }
        false
    }

    /// Upgrades a standard platform in place to the finishing structure: the
    /// placement list is fully replaced by the frame ring and portal plane
    /// and the port is swapped to `TwoByTwoPortal` at the same anchor. Valid
    /// only once, on a standard port.
    pub fn set_finish_portal(&mut self)
        requires
            old(self).endpoint is TwoByTwo,
            old(self).endpoint.spec_anchor().x - 1 >= i32::MIN,
            old(self).endpoint.spec_anchor().x + 2 <= i32::MAX,
            old(self).endpoint.spec_anchor().z - 1 >= i32::MIN,
            old(self).endpoint.spec_anchor().z + 2 <= i32::MAX,
        ensures
            final(self).endpoint == Port::TwoByTwoPortal(old(self).endpoint.spec_anchor()),
            final(self).wf(),
    {
        let a = self.endpoint.anchor();
        self.blocks.clear();
        push_block(&mut self.blocks, a.x - 1, a.y, a.z, BlockKind::PortalFrame);
        push_block(&mut self.blocks, a.x - 1, a.y, a.z + 1, BlockKind::PortalFrame);
        push_block(&mut self.blocks, a.x, a.y, a.z - 1, BlockKind::PortalFrame);
        push_block(&mut self.blocks, a.x, a.y, a.z, BlockKind::PortalFrame);
        push_block(&mut self.blocks, a.x, a.y, a.z + 1, BlockKind::PortalFrame);
        push_block(&mut self.blocks, a.x, a.y, a.z + 2, BlockKind::PortalFrame);
        push_block(&mut self.blocks, a.x + 1, a.y, a.z - 1, BlockKind::PortalFrame);
        push_block(&mut self.blocks, a.x + 1, a.y, a.z, BlockKind::PortalFrame);
        push_block(&mut self.blocks, a.x + 1, a.y, a.z + 1, BlockKind::PortalFrame);
        push_block(&mut self.blocks, a.x + 1, a.y, a.z + 2, BlockKind::PortalFrame);
        push_block(&mut self.blocks, a.x + 2, a.y, a.z, BlockKind::PortalFrame);
        push_block(&mut self.blocks, a.x + 2, a.y, a.z + 1, BlockKind::PortalFrame);
        push_block(&mut self.blocks, a.x, a.y, a.z, BlockKind::Portal);
        push_block(&mut self.blocks, a.x, a.y, a.z + 1, BlockKind::Portal);
        push_block(&mut self.blocks, a.x + 1, a.y, a.z, BlockKind::Portal);
        push_block(&mut self.blocks, a.x + 1, a.y, a.z + 1, BlockKind::Portal);
        self.endpoint = Port::TwoByTwoPortal(a);
    }
}

/// `p` lies within the axis-aligned bounding box of `blocks`, inflated by `r`
/// on every side, all bounds inclusive. Each conjunct characterizes one face
/// of the box: `p` is at least `min - r` along an axis exactly when it is at
/// least `b - r` for some block `b`, and at most `max + r` exactly when it is
/// at most `b + r` for some block.
pub open spec fn within_inflated(blocks: Seq<JumpBlock>, p: BlockPos, r: int) -> bool {
    &&& exists|i: int| 0 <= i < blocks.len() && p.x >= (#[trigger] blocks[i]).pos.x - r
    &&& exists|i: int| 0 <= i < blocks.len() && p.x <= (#[trigger] blocks[i]).pos.x + r
    &&& exists|i: int| 0 <= i < blocks.len() && p.y >= (#[trigger] blocks[i]).pos.y - r
    &&& exists|i: int| 0 <= i < blocks.len() && p.y <= (#[trigger] blocks[i]).pos.y + r
    &&& exists|i: int| 0 <= i < blocks.len() && p.z >= (#[trigger] blocks[i]).pos.z - r
    &&& exists|i: int| 0 <= i < blocks.len() && p.z <= (#[trigger] blocks[i]).pos.z + r
}

/// `p` lies within the terrain scan box of `blocks`: the bounding box
/// inflated by 4 on every axis, all bounds inclusive.
pub open spec fn within_scan_box(blocks: Seq<JumpBlock>, p: BlockPos) -> bool {
    within_inflated(blocks, p, 4)
}

/// Some placement of `other` lies within the bounding box of `blocks`
/// inflated by `r`.
pub open spec fn near_jump(blocks: Seq<JumpBlock>, other: Jump, r: int) -> bool {
    exists|k: int|
        0 <= k < other.blocks_seq().len() && within_inflated(
            blocks,
            (#[trigger] other.blocks_seq()[k]).pos,
            r,
        )
}

/// Some element of `jumps` with index in `[lo, hi)` is near `blocks` at
/// inflation radius `r`.
pub open spec fn near_any(blocks: Seq<JumpBlock>, jumps: Seq<Jump>, lo: int, hi: int, r: int) -> bool {
    exists|i: int| lo <= i < hi && near_jump(blocks, #[trigger] jumps[i], r)
}

impl Jump {
    /// The corners of the axis-aligned bounding box of the owned placements.
    fn bounding_box(&self) -> (b: (BlockPos, BlockPos))
        requires
            self.blocks_seq().len() >= 1,
        ensures
            forall|k: int|
                0 <= k < self.blocks_seq().len() ==> {
                    let p = (#[trigger] self.blocks_seq()[k]).pos;
                    b.0.x <= p.x <= b.1.x && b.0.y <= p.y <= b.1.y && b.0.z <= p.z <= b.1.z
                },
            exists|k: int|
                0 <= k < self.blocks_seq().len() && (#[trigger] self.blocks_seq()[k]).pos.x == b.0.x,
            exists|k: int|
                0 <= k < self.blocks_seq().len() && (#[trigger] self.blocks_seq()[k]).pos.x == b.1.x,
            exists|k: int|
                0 <= k < self.blocks_seq().len() && (#[trigger] self.blocks_seq()[k]).pos.y == b.0.y,
            exists|k: int|
                0 <= k < self.blocks_seq().len() && (#[trigger] self.blocks_seq()[k]).pos.y == b.1.y,
            exists|k: int|
                0 <= k < self.blocks_seq().len() && (#[trigger] self.blocks_seq()[k]).pos.z == b.0.z,
            exists|k: int|
                0 <= k < self.blocks_seq().len() && (#[trigger] self.blocks_seq()[k]).pos.z == b.1.z,
    {
        let first = self.blocks[0].pos;
        let mut min = first;
        let mut max = first;
        let mut i: usize = 1;
        while i < self.blocks.len()
            invariant
                1 <= i <= self.blocks.len(),
                self.blocks@.len() >= 1,
                forall|k: int|
                    0 <= k < i ==> {
                        let p = (#[trigger] self.blocks@[k]).pos;
                        min.x <= p.x <= max.x && min.y <= p.y <= max.y && min.z <= p.z <= max.z
                    },
                exists|k: int| 0 <= k < i && (#[trigger] self.blocks@[k]).pos.x == min.x,
                exists|k: int| 0 <= k < i && (#[trigger] self.blocks@[k]).pos.x == max.x,
                exists|k: int| 0 <= k < i && (#[trigger] self.blocks@[k]).pos.y == min.y,
                exists|k: int| 0 <= k < i && (#[trigger] self.blocks@[k]).pos.y == max.y,
                exists|k: int| 0 <= k < i && (#[trigger] self.blocks@[k]).pos.z == min.z,
                exists|k: int| 0 <= k < i && (#[trigger] self.blocks@[k]).pos.z == max.z,
            decreases self.blocks.len() - i,
        {
            let p = self.blocks[i].pos;
            if p.x < min.x {
                min.x = p.x;
            }
            if p.x > max.x {
                max.x = p.x;
            }
            if p.y < min.y {
                min.y = p.y;
            }
            if p.y > max.y {
                max.y = p.y;
            }
            if p.z < min.z {
                min.z = p.z;
            }
            if p.z > max.z {
                max.z = p.z;
            }
            i = i + 1;
        }
        (min, max)
    }

    /// True when the snapshot knows some terrain coordinate inside this
    /// platform's scan box (the bounding box inflated by 4 on every axis) to
    /// be occupied: the platform would stand too close to existing terrain.
    pub open spec fn spec_too_close(self, view: crate::world::TerrainView) -> bool {
        exists|i: int|
            0 <= i < view.occupied@.len() && within_scan_box(
                self.blocks_seq(),
                #[trigger] view.occupied@[i],
            )
    }

    pub fn too_close(&self, view: &crate::world::TerrainView) -> (r: bool)
        requires
            self.blocks_seq().len() >= 1,
        ensures
            r == self.spec_too_close(*view),
    {
        let (min, max) = self.bounding_box();
        let mut i: usize = 0;
        while i < view.occupied.len()
            invariant
                0 <= i <= view.occupied.len(),
                self.blocks@.len() >= 1,
                forall|k: int|
                    0 <= k < self.blocks@.len() ==> {
                        let p = (#[trigger] self.blocks@[k]).pos;
                        min.x <= p.x <= max.x && min.y <= p.y <= max.y && min.z <= p.z <= max.z
                    },
                exists|k: int| 0 <= k < self.blocks@.len() && (#[trigger] self.blocks@[k]).pos.x == min.x,
                exists|k: int| 0 <= k < self.blocks@.len() && (#[trigger] self.blocks@[k]).pos.x == max.x,
                exists|k: int| 0 <= k < self.blocks@.len() && (#[trigger] self.blocks@[k]).pos.y == min.y,
                exists|k: int| 0 <= k < self.blocks@.len() && (#[trigger] self.blocks@[k]).pos.y == max.y,
                exists|k: int| 0 <= k < self.blocks@.len() && (#[trigger] self.blocks@[k]).pos.z == min.z,
                exists|k: int| 0 <= k < self.blocks@.len() && (#[trigger] self.blocks@[k]).pos.z == max.z,
                forall|k: int|
                    0 <= k < i ==> !within_scan_box(self.blocks@, #[trigger] view.occupied@[k]),
            decreases view.occupied.len() - i,
        {
            let p = view.occupied[i];
            let hit = p.x as i64 >= min.x as i64 - 4 && p.x as i64 <= max.x as i64 + 4
                && p.y as i64 >= min.y as i64 - 4 && p.y as i64 <= max.y as i64 + 4
                && p.z as i64 >= min.z as i64 - 4 && p.z as i64 <= max.z as i64 + 4;
            if hit {
                return true;
            }
            i = i + 1;
        }
        false
    }

    /// True when some placement of some element of `jumps[lo..hi]` lies
    /// within this platform's bounding box inflated by `radius`: the platform
    /// would stand too close to those already-placed platforms.
    pub fn too_close_to_jumps(&self, jumps: &Vec<Jump>, lo: usize, hi: usize, radius: i32) -> (r:
        bool)
        requires
            self.blocks_seq().len() >= 1,
            lo <= hi <= jumps@.len(),
            radius >= 0,
        ensures
            r == near_any(self.blocks_seq(), jumps@, lo as int, hi as int, radius as int),
    {
        let (min, max) = self.bounding_box();
        let mut i: usize = lo;
        while i < hi
            invariant
                lo <= i <= hi <= jumps@.len(),
                self.blocks@.len() >= 1,
                forall|k: int|
                    0 <= k < self.blocks@.len() ==> {
                        let p = (#[trigger] self.blocks@[k]).pos;
                        min.x <= p.x <= max.x && min.y <= p.y <= max.y && min.z <= p.z <= max.z
                    },
                exists|k: int| 0 <= k < self.blocks@.len() && (#[trigger] self.blocks@[k]).pos.x == min.x,
                exists|k: int| 0 <= k < self.blocks@.len() && (#[trigger] self.blocks@[k]).pos.x == max.x,
                exists|k: int| 0 <= k < self.blocks@.len() && (#[trigger] self.blocks@[k]).pos.y == min.y,
                exists|k: int| 0 <= k < self.blocks@.len() && (#[trigger] self.blocks@[k]).pos.y == max.y,
                exists|k: int| 0 <= k < self.blocks@.len() && (#[trigger] self.blocks@[k]).pos.z == min.z,
                exists|k: int| 0 <= k < self.blocks@.len() && (#[trigger] self.blocks@[k]).pos.z == max.z,
                forall|m: int| lo <= m < i ==> !near_jump(self.blocks@, #[trigger] jumps@[m], radius as int),
            decreases hi - i,
        {
            let other = &jumps[i];
            let mut k: usize = 0;
            while k < other.blocks.len()
                invariant
                    0 <= k <= other.blocks@.len(),
                    lo <= i < hi <= jumps@.len(),
                    *other == jumps@[i as int],
                    self.blocks@.len() >= 1,
                    forall|m: int|
                        0 <= m < self.blocks@.len() ==> {
                            let p = (#[trigger] self.blocks@[m]).pos;
                            min.x <= p.x <= max.x && min.y <= p.y <= max.y && min.z <= p.z <= max.z
                        },
                    exists|m: int| 0 <= m < self.blocks@.len() && (#[trigger] self.blocks@[m]).pos.x == min.x,
                    exists|m: int| 0 <= m < self.blocks@.len() && (#[trigger] self.blocks@[m]).pos.x == max.x,
                    exists|m: int| 0 <= m < self.blocks@.len() && (#[trigger] self.blocks@[m]).pos.y == min.y,
                    exists|m: int| 0 <= m < self.blocks@.len() && (#[trigger] self.blocks@[m]).pos.y == max.y,
                    exists|m: int| 0 <= m < self.blocks@.len() && (#[trigger] self.blocks@[m]).pos.z == min.z,
                    exists|m: int| 0 <= m < self.blocks@.len() && (#[trigger] self.blocks@[m]).pos.z == max.z,
                    forall|m: int|
                        0 <= m < k ==> !within_inflated(
                            self.blocks@,
                            (#[trigger] other.blocks@[m]).pos,
                            radius as int,
                        ),
                decreases other.blocks@.len() - k,
            {
                let p = other.blocks[k].pos;
                let rad = radius as i64;
                let hit = p.x as i64 >= min.x as i64 - rad && p.x as i64 <= max.x as i64 + rad
                    && p.y as i64 >= min.y as i64 - rad && p.y as i64 <= max.y as i64 + rad
                    && p.z as i64 >= min.z as i64 - rad && p.z as i64 <= max.z as i64 + rad;
                if hit {
                    proof {
                        assert(within_inflated(self.blocks@, p, radius as int));
                        assert(*other == jumps@[i as int]);
                        assert(jumps@[i as int].blocks_seq()[k as int].pos == p);
                        assert(near_jump(self.blocks@, jumps@[i as int], radius as int));
                        assert(near_any(self.blocks@, jumps@, lo as int, hi as int, radius as int));
                    }
                    return true;
                }
                k = k + 1;
            }
            i = i + 1;
        }
        false
    }
}

/// Appends one placement to a placement list.
fn push_block(blocks: &mut Vec<JumpBlock>, x: i32, y: i32, z: i32, state: BlockKind)
    ensures
        final(blocks)@ == old(blocks)@.push(JumpBlock { pos: BlockPos { x, y, z }, state }),
{
    blocks.push(JumpBlock { pos: BlockPos { x, y, z }, state });
}

/// Creates an unmaterialized standard platform: the four placements of the
/// 2x2 footprint at the anchor, all of the given material, and a `TwoByTwo`
/// port at the anchor.
pub fn two_by_two_to_block_pos(pos: BlockPos, kind: BlockKind) -> (j: Jump)
    requires
        pos.x + 1 <= i32::MAX,
        pos.z + 1 <= i32::MAX,
    ensures
        j.wf(),
        j.endpoint == Port::TwoByTwo(pos),
        j.blocks_seq().len() == 4,
        forall|k: int| 0 <= k < 4 ==> (#[trigger] j.blocks_seq()[k]).state == kind,
{
    let mut blocks: Vec<JumpBlock> = Vec::new();
    push_block(&mut blocks, pos.x, pos.y, pos.z, kind);
    push_block(&mut blocks, pos.x, pos.y, pos.z + 1, kind);
    push_block(&mut blocks, pos.x + 1, pos.y, pos.z, kind);
    push_block(&mut blocks, pos.x + 1, pos.y, pos.z + 1, kind);
    Jump { endpoint: Port::TwoByTwo(pos), blocks }
}

} // verus!
