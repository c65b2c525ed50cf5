use vstd::arithmetic::div_mod::{lemma_div_multiples_vanish_fancy, lemma_fundamental_div_mod};
use vstd::prelude::*;

use crate::coords::BlockPos;

verus! {

/// A chunk-column coordinate: block coordinates divided by 16, rounding
/// toward negative infinity.
#[derive(Clone, Copy, PartialEq, Eq, Structural, Debug)]
pub struct ChunkXZ {
    pub x: i32,
    pub z: i32,
}

/// One sampled biome: the identifier the world reports at a coordinate.
#[derive(Clone, Copy, PartialEq, Eq, Structural, Debug)]
pub struct BiomeSample {
    pub pos: BlockPos,
    pub biome: u32,
}

/// A plain-value snapshot of the terrain around the region where generation
/// is working: the coordinates known to be occupied by non-empty terrain, the
/// chunk columns known to be loaded, and the biome samples taken. Anything
/// absent is neutral: a coordinate not listed counts as unobstructed (queries
/// of unloaded terrain must not block generation) and a position without a
/// sample reports no biome.
pub struct TerrainView {
    pub occupied: Vec<BlockPos>,
    pub loaded: Vec<ChunkXZ>,
    pub biomes: Vec<BiomeSample>,
}

/// The first biome sample in `samples` taken at exactly `p`, if any.
pub open spec fn find_biome(samples: Seq<BiomeSample>, p: BlockPos) -> Option<u32>
    decreases samples.len(),
{
    if samples.len() == 0 {
        None
    } else if samples[0].pos == p {
        Some(samples[0].biome)
    } else {
        find_biome(samples.drop_first(), p)
    }
}

impl TerrainView {
    /// Whether the snapshot knows `p` to be occupied by non-empty terrain.
    pub open spec fn spec_occupied(self, p: BlockPos) -> bool {
        self.occupied@.contains(p)
    }

    pub fn is_occupied(&self, p: BlockPos) -> (r: bool)
        ensures
            r == self.spec_occupied(p),
    {
        let mut i: usize = 0;
        while i < self.occupied.len()
            invariant
                0 <= i <= self.occupied.len(),
                forall|k: int| 0 <= k < i ==> self.occupied@[k] != p,
            decreases self.occupied.len() - i,
        {
            if self.occupied[i].x == p.x && self.occupied[i].y == p.y && self.occupied[i].z == p.z {
                return true;
            }
            i = i + 1;
        }
        false
    }

    /// Whether the snapshot knows the chunk column `c` to be loaded.
    pub open spec fn spec_chunk_loaded(self, c: ChunkXZ) -> bool {
        self.loaded@.contains(c)
    }

    pub fn chunk_loaded(&self, c: ChunkXZ) -> (r: bool)
        ensures
            r == self.spec_chunk_loaded(c),
    {
        let mut i: usize = 0;
        while i < self.loaded.len()
            invariant
                0 <= i <= self.loaded.len(),
                forall|k: int| 0 <= k < i ==> self.loaded@[k] != c,
            decreases self.loaded.len() - i,
        {
            if self.loaded[i].x == c.x && self.loaded[i].z == c.z {
                return true;
            }
            i = i + 1;
        }
        false
    }

    /// The biome identifier sampled at `p`, if one was taken.
    pub open spec fn spec_biome_at(self, p: BlockPos) -> Option<u32> {
        find_biome(self.biomes@, p)
    }

    pub fn biome_at(&self, p: BlockPos) -> (r: Option<u32>)
        ensures
            r == self.spec_biome_at(p),
    {
        let mut i: usize = 0;
        proof {
            assert(self.biomes@.skip(0) =~= self.biomes@);
        }
        while i < self.biomes.len()
            invariant
                0 <= i <= self.biomes.len(),
                forall|k: int| 0 <= k < i ==> self.biomes@[k].pos != p,
                find_biome(self.biomes@, p) == find_biome(self.biomes@.skip(i as int), p),
            decreases self.biomes.len() - i,
        {
            let s = self.biomes[i];
            if s.pos.x == p.x && s.pos.y == p.y && s.pos.z == p.z {
                assert(self.biomes@.skip(i as int)[0] == s);
                return Some(s.biome);
            }
            assert(self.biomes@.skip(i as int).drop_first() == self.biomes@.skip(i + 1));
            i = i + 1;
        }
        assert(self.biomes@.skip(self.biomes@.len() as int).len() == 0);
        None
    }
}

/// The chunk-column coordinate along one axis: the block coordinate divided
/// by sixteen, rounding toward negative infinity.
pub open spec fn chunk_coord(v: int) -> int {
    v / 16
}

/// The chunk column containing a block coordinate.
pub fn chunk_of(p: BlockPos) -> (c: ChunkXZ)
    ensures
        c.x == chunk_coord(p.x as int),
        c.z == chunk_coord(p.z as int),
        16 * c.x <= p.x < 16 * c.x + 16,
        16 * c.z <= p.z < 16 * c.z + 16,
{
    ChunkXZ { x: chunk_axis(p.x), z: chunk_axis(p.z) }
}

/// Floor division of one block coordinate by sixteen, computed on values
/// shifted into the non-negative range so that machine division rounds the
/// same way as the mathematical definition.
fn chunk_axis(v: i32) -> (c: i32)
    ensures
        c == chunk_coord(v as int),
        16 * c <= v < 16 * c + 16,
{
    let shifted: i64 = v as i64 + 0x8000_0000;
    let q: i64 = shifted / 16;
    proof {
        lemma_fundamental_div_mod(v as int, 16);
        lemma_div_multiples_vanish_fancy((v as int) / 16 + 0x800_0000, (v as int) % 16, 16);
        assert(16 * ((v as int) / 16 + 0x800_0000) + (v as int) % 16 == v + 0x8000_0000);
    }
    (q - 0x800_0000) as i32
}

} // verus!
