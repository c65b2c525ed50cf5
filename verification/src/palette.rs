use vstd::prelude::*;

use crate::coords::BlockKind;
use crate::rng::rand_below;

verus! {

/// One biome's decorative candidate set.
pub struct PaletteEntry {
    pub biome: u32,
    pub kinds: Vec<BlockKind>,
}

/// The per-biome decoration table the palette provider supplies: a fixed
/// candidate set for each known biome identifier and a fallback material for
/// positions whose biome is absent or unrecognized.
pub struct Palette {
    pub fallback: BlockKind,
    pub entries: Vec<PaletteEntry>,
}

/// The first entry of `entries` for `biome`, if any.
pub open spec fn find_entry(entries: Seq<PaletteEntry>, biome: u32) -> Option<PaletteEntry>
    decreases entries.len(),
{
    if entries.len() == 0 {
        None
    } else if entries[0].biome == biome {
        Some(entries[0])
    } else {
        find_entry(entries.drop_first(), biome)
    }
}

/// What `choose_block` may return: the fallback when the biome is absent,
/// unknown to the table, or has an empty candidate set, and otherwise any
/// member of the biome's candidate set.
pub open spec fn choice_ok(palette: Palette, biome: Option<u32>, r: BlockKind) -> bool {
    match biome {
        Option::None => r == palette.fallback,
        Option::Some(b) => match find_entry(palette.entries@, b) {
            Option::None => r == palette.fallback,
            Option::Some(e) => if e.kinds@.len() == 0 {
                r == palette.fallback
            } else {
                e.kinds@.contains(r)
            },
        },
    }
}

/// Picks a decorative material for a position with the given biome: a random
/// member of the biome's candidate set, or the fallback material when the
/// biome is absent or unrecognized.
pub fn choose_block(palette: &Palette, rng: &mut rand::rngs::SmallRng, biome: Option<u32>) -> (r:
    BlockKind)
    ensures
        choice_ok(*palette, biome, r),
{
    let b = match biome {
        Option::None => {
            return palette.fallback;
        },
        Option::Some(b) => b,
    };
    let mut i: usize = 0;
    proof {
        assert(palette.entries@.skip(0) =~= palette.entries@);
    }
    while i < palette.entries.len()
        invariant
            0 <= i <= palette.entries.len(),
            biome == Some(b),
            find_entry(palette.entries@, b) == find_entry(palette.entries@.skip(i as int), b),
        decreases palette.entries.len() - i,
    {
        if palette.entries[i].biome == b {
            proof {
                assert(palette.entries@.skip(i as int)[0] == palette.entries@[i as int]);
                assert(find_entry(palette.entries@, b) == Some(palette.entries@[i as int]));
            }
            let e = &palette.entries[i];
            if e.kinds.len() == 0 {
                return palette.fallback;
            }
            let k = rand_below(rng, e.kinds.len());
            let r = e.kinds[k];
            proof {
                assert(e.kinds@.contains(e.kinds@[k as int]));
            }
            return r;
        }
        proof {
            assert(palette.entries@.skip(i as int).drop_first() =~= palette.entries@.skip(i + 1));
        }
        i = i + 1;
    }
    proof {
        assert(palette.entries@.skip(palette.entries@.len() as int).len() == 0);
        assert(find_entry(palette.entries@, b) is None);
    }
    palette.fallback
}

} // verus!
