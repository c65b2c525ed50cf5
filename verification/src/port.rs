use vstd::prelude::*;

use crate::coords::{BlockPos, FinePos};
use crate::jump::{two_by_two_to_block_pos, Jump};
use crate::palette::{choose_block, choice_ok, Palette};
use crate::world::TerrainView;

verus! {

/// The x-offset of the k-th candidate successor anchor: four same-height
/// offsets at horizontal distance 5 along each axis, then eight diagonal
/// offsets at horizontal distance 4 with vertical offset plus or minus one.
pub open spec fn succ_dx(k: int) -> int {
    if k == 0 {
        5
    } else if k == 2 {
        -5
    } else if k == 4 || k == 5 {
        4
    } else if k == 6 || k == 7 {
        -4
    } else {
        0
    }
}

/// The y-offset of the k-th candidate successor anchor.
pub open spec fn succ_dy(k: int) -> int {
    if k == 4 || k == 6 || k == 8 || k == 10 {
        1
    } else if k == 5 || k == 7 || k == 9 || k == 11 {
        -1
    } else {
        0
    }
}

/// The z-offset of the k-th candidate successor anchor.
pub open spec fn succ_dz(k: int) -> int {
    if k == 1 {
        5
    } else if k == 3 {
        -5
    } else if k == 8 || k == 9 {
        4
    } else if k == 10 || k == 11 {
        -4
    } else {
        0
    }
}

/// `b` is one of the 12 candidate successor anchors of `a`.
pub open spec fn is_successor_anchor(a: BlockPos, b: BlockPos) -> bool {
    exists|k: int|
        #![trigger succ_dx(k), succ_dz(k)]
        0 <= k < 12 && b.x == a.x + succ_dx(k) && b.y == a.y + succ_dy(k) && b.z == a.z + succ_dz(
            k,
        )
}

/// The coordinate stays at least `m` away from the representable range's
/// ends along every axis, so nearby coordinates can still be formed.
pub open spec fn anchor_has_margin(a: BlockPos, m: int) -> bool {
    &&& i32::MIN + m <= a.x <= i32::MAX - m
    &&& i32::MIN + m <= a.y <= i32::MAX - m
    &&& i32::MIN + m <= a.z <= i32::MAX - m
}

/// The absolute value of a mathematical integer.
pub open spec fn abs_i(v: int) -> int {
    if v < 0 {
        -v
    } else {
        v
    }
}

/// The logical endpoint of a platform: its footprint kind and its anchor
/// coordinate. A port never changes its anchor after creation; a `TwoByTwo`
/// port may be swapped for a `TwoByTwoPortal` at the same anchor exactly once,
/// when the course terminates.
#[derive(Clone, Copy, PartialEq, Eq, Structural, Debug)]
pub enum Port {
    /// A 2x2 platform anchored at the coordinate.
    TwoByTwo(BlockPos),
    /// The terminal finishing structure: a 4x4 frame with a 2x2 portal plane.
    TwoByTwoPortal(BlockPos),
}

impl Port {
    /// The anchor coordinate of either footprint kind.
    pub open spec fn spec_anchor(self) -> BlockPos {
        match self {
            Port::TwoByTwo(p) => p,
            Port::TwoByTwoPortal(p) => p,
        }
    }

    pub fn anchor(&self) -> (r: BlockPos)
        ensures
            r == self.spec_anchor(),
    {
        match self {
            Port::TwoByTwo(p) => *p,
            Port::TwoByTwoPortal(p) => *p,
        }
    }

    /// The landing volume: a thin horizontal slab with a fixed half-block
    /// tolerance around the 2x2 footprint. For a standard platform the slab
    /// sits in the height window [1, 1.05) above the anchor; for the
    /// finishing portal plane an analogous thin slab sits at the anchor's own
    /// height.
    pub open spec fn spec_on_platform(self, pos: FinePos) -> bool {
        let a = self.spec_anchor();
        let x0 = (a.x as int) * 100;
        let y0 = (a.y as int) * 100;
        let z0 = (a.z as int) * 100;
        &&& x0 - 50 <= pos.x <= x0 + 250
        &&& z0 - 50 <= pos.z <= z0 + 250
        &&& match self {
            Port::TwoByTwo(_) => y0 + 100 <= pos.y < y0 + 105,
            Port::TwoByTwoPortal(_) => y0 <= pos.y < y0 + 5,
        }
    }

    pub fn on_platform(&self, pos: FinePos) -> (r: bool)
        ensures
            r == self.spec_on_platform(pos),
    {
        let a = self.anchor();
        let x0: i128 = (a.x as i128) * 100;
        let y0: i128 = (a.y as i128) * 100;
        let z0: i128 = (a.z as i128) * 100;
        let px = pos.x as i128;
        let py = pos.y as i128;
        let pz = pos.z as i128;
        if px < x0 - 50 || px > x0 + 250 {
            return false;
        }
        if pz < z0 - 50 || pz > z0 + 250 {
            return false;
        }
        match self {
            Port::TwoByTwo(_) => py >= y0 + 100 && py < y0 + 105,
            Port::TwoByTwoPortal(_) => py >= y0 && py < y0 + 5,
        }
    }

    /// The heuristic approach cone: a point is judged able to reach the
    /// platform when the taxicab horizontal distance from the platform's
    /// center is at most five times the point's vertical rise above the
    /// anchor. The cone widens with height, so an airborne participant is
    /// never prematurely judged off course.
    pub open spec fn spec_is_reachable_from(self, pos: FinePos) -> bool {
        let a = self.spec_anchor();
        let dx = abs_i(pos.x - (a.x as int) * 100 - 100);
        let dz = abs_i(pos.z - (a.z as int) * 100 - 100);
        dx + dz <= 5 * (pos.y - (a.y as int) * 100)
    }

    pub fn is_reachable_from(&self, pos: FinePos) -> (r: bool)
        ensures
            r == self.spec_is_reachable_from(pos),
    {
        let a = self.anchor();
        let x0: i128 = (a.x as i128) * 100;
        let z0: i128 = (a.z as i128) * 100;
        let dx: i128 = pos.x as i128 - x0 - 100;
        let dz: i128 = pos.z as i128 - z0 - 100;
        let dax: i128 = if dx < 0 {
            -dx
        } else {
            dx
        };
        let daz: i128 = if dz < 0 {
            -dz
        } else {
            dz
        };
        let rise: i128 = pos.y as i128 - (a.y as i128) * 100;
        dax + daz <= 5 * rise
    }

    /// The geometric centroid of the footprint, shared by both kinds: one
    /// block along each axis from the anchor.
    pub fn center(&self) -> (r: FinePos)
        ensures
            r.x == (self.spec_anchor().x as int) * 100 + 100,
            r.y == (self.spec_anchor().y as int) * 100 + 100,
            r.z == (self.spec_anchor().z as int) * 100 + 100,
    {
        let a = self.anchor();
        FinePos {
            x: (a.x as i64) * 100 + 100,
            y: (a.y as i64) * 100 + 100,
            z: (a.z as i64) * 100 + 100,
        }
    }

    /// Enumerates the candidate successor platforms of this port, each
    /// realized in memory only: a standard platform yields exactly the 12
    /// fixed offsets, with a decorative material picked by the palette for
    /// the biome sampled at each candidate anchor; the terminal finishing
    /// port yields none.
    pub fn possible_next_jumps(
        &self,
        view: &TerrainView,
        palette: &Palette,
        rng: &mut rand::rngs::SmallRng,
    ) -> (r: Vec<Jump>)
        requires
            self is TwoByTwo ==> anchor_has_margin(self.spec_anchor(), 6),
        ensures
            self is TwoByTwoPortal ==> r@.len() == 0,
            self is TwoByTwo ==> r@.len() == 12,
            forall|k: int|
                0 <= k < r@.len() ==> candidate_ok(
                    self.spec_anchor(),
                    *view,
                    *palette,
                    #[trigger] r@[k],
                    k,
                ),
    {
        let a = match self {
            Port::TwoByTwoPortal(_) => {
                let r: Vec<Jump> = Vec::new();
                return r;
            },
            Port::TwoByTwo(p) => *p,
        };
        let j0 = candidate_at(view, palette, rng, a.x + 5, a.y, a.z);
        let j1 = candidate_at(view, palette, rng, a.x, a.y, a.z + 5);
        let j2 = candidate_at(view, palette, rng, a.x - 5, a.y, a.z);
        let j3 = candidate_at(view, palette, rng, a.x, a.y, a.z - 5);
        let j4 = candidate_at(view, palette, rng, a.x + 4, a.y + 1, a.z);
        let j5 = candidate_at(view, palette, rng, a.x + 4, a.y - 1, a.z);
        let j6 = candidate_at(view, palette, rng, a.x - 4, a.y + 1, a.z);
        let j7 = candidate_at(view, palette, rng, a.x - 4, a.y - 1, a.z);
        let j8 = candidate_at(view, palette, rng, a.x, a.y + 1, a.z + 4);
        let j9 = candidate_at(view, palette, rng, a.x, a.y - 1, a.z + 4);
        let j10 = candidate_at(view, palette, rng, a.x, a.y + 1, a.z - 4);
        let j11 = candidate_at(view, palette, rng, a.x, a.y - 1, a.z - 4);
        let mut r: Vec<Jump> = Vec::new();
        r.push(j0);
        r.push(j1);
        r.push(j2);
        r.push(j3);
        r.push(j4);
        r.push(j5);
        r.push(j6);
        r.push(j7);
        r.push(j8);
        r.push(j9);
        r.push(j10);
        r.push(j11);
        proof {
            assert(candidate_ok(a, *view, *palette, j0, 0)) by {
                lemma_successor_witness(a, j0.endpoint.spec_anchor(), 0);
            }
            assert(candidate_ok(a, *view, *palette, j1, 1)) by {
                lemma_successor_witness(a, j1.endpoint.spec_anchor(), 1);
            }
            assert(candidate_ok(a, *view, *palette, j2, 2)) by {
                lemma_successor_witness(a, j2.endpoint.spec_anchor(), 2);
            }
            assert(candidate_ok(a, *view, *palette, j3, 3)) by {
                lemma_successor_witness(a, j3.endpoint.spec_anchor(), 3);
            }
            assert(candidate_ok(a, *view, *palette, j4, 4)) by {
                lemma_successor_witness(a, j4.endpoint.spec_anchor(), 4);
            }
            assert(candidate_ok(a, *view, *palette, j5, 5)) by {
                lemma_successor_witness(a, j5.endpoint.spec_anchor(), 5);
            }
            assert(candidate_ok(a, *view, *palette, j6, 6)) by {
                lemma_successor_witness(a, j6.endpoint.spec_anchor(), 6);
            }
            assert(candidate_ok(a, *view, *palette, j7, 7)) by {
                lemma_successor_witness(a, j7.endpoint.spec_anchor(), 7);
            }
            assert(candidate_ok(a, *view, *palette, j8, 8)) by {
                lemma_successor_witness(a, j8.endpoint.spec_anchor(), 8);
            }
            assert(candidate_ok(a, *view, *palette, j9, 9)) by {
                lemma_successor_witness(a, j9.endpoint.spec_anchor(), 9);
            }
            assert(candidate_ok(a, *view, *palette, j10, 10)) by {
                lemma_successor_witness(a, j10.endpoint.spec_anchor(), 10);
            }
            assert(candidate_ok(a, *view, *palette, j11, 11)) by {
                lemma_successor_witness(a, j11.endpoint.spec_anchor(), 11);
            }
            assert forall|k: int| 0 <= k < r@.len() implies candidate_ok(
                a,
                *view,
                *palette,
                #[trigger] r@[k],
                k,
            ) by {
                if k == 0 {
                    assert(r@[0] == j0);
                } else if k == 1 {
                    assert(r@[1] == j1);
                } else if k == 2 {
                    assert(r@[2] == j2);
                } else if k == 3 {
                    assert(r@[3] == j3);
                } else if k == 4 {
                    assert(r@[4] == j4);
                } else if k == 5 {
                    assert(r@[5] == j5);
                } else if k == 6 {
                    assert(r@[6] == j6);
                } else if k == 7 {
                    assert(r@[7] == j7);
                } else if k == 8 {
                    assert(r@[8] == j8);
                } else if k == 9 {
                    assert(r@[9] == j9);
                } else if k == 10 {
                    assert(r@[10] == j10);
                } else {
                    assert(r@[11] == j11);
                }
            }
        }
        r
    }
}

/// What `possible_next_jumps` yields at position `k` of its result when the
/// origin port is a standard platform anchored at `origin`: a well-formed
/// in-memory standard platform at the k-th candidate offset, decorated as the
/// palette allows for the biome sampled at its anchor.
pub open spec fn candidate_ok(
    origin: BlockPos,
    view: TerrainView,
    palette: Palette,
    j: Jump,
    k: int,
) -> bool {
    &&& j.wf()
    &&& j.endpoint is TwoByTwo
    &&& j.endpoint.spec_anchor().x == origin.x + succ_dx(k)
    &&& j.endpoint.spec_anchor().y == origin.y + succ_dy(k)
    &&& j.endpoint.spec_anchor().z == origin.z + succ_dz(k)
    &&& is_successor_anchor(origin, j.endpoint.spec_anchor())
    &&& forall|m: int|
        0 <= m < j.blocks_seq().len() ==> choice_ok(
            palette,
            view.spec_biome_at(j.endpoint.spec_anchor()),
            (#[trigger] j.blocks_seq()[m]).state,
        )
}

/// An anchor at the k-th candidate offset from `a` is a candidate successor
/// anchor of `a`.
pub proof fn lemma_successor_witness(a: BlockPos, b: BlockPos, k: int)
    requires
        0 <= k < 12,
        b.x == a.x + succ_dx(k),
        b.y == a.y + succ_dy(k),
        b.z == a.z + succ_dz(k),
    ensures
        is_successor_anchor(a, b),
{
}

/// Realizes one candidate platform in memory: the biome is sampled at the
/// anchor, the palette picks the material, and the four placements of the
/// 2x2 footprint are laid out.
fn candidate_at(
    view: &TerrainView,
    palette: &Palette,
    rng: &mut rand::rngs::SmallRng,
    x: i32,
    y: i32,
    z: i32,
) -> (j: Jump)
    requires
        x + 1 <= i32::MAX,
        z + 1 <= i32::MAX,
    ensures
        j.wf(),
        j.endpoint == Port::TwoByTwo(BlockPos { x, y, z }),
        forall|m: int|
            0 <= m < j.blocks_seq().len() ==> choice_ok(
                *palette,
                view.spec_biome_at(BlockPos { x, y, z }),
                (#[trigger] j.blocks_seq()[m]).state,
            ),
{
    let p = BlockPos { x, y, z };
    let biome = view.biome_at(p);
    let kind = choose_block(palette, rng, biome);
    two_by_two_to_block_pos(p, kind)
}

} // verus!
