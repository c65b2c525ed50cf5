use parkour::coords::BlockKind;
use parkour::palette::{choose_block, Palette, PaletteEntry};
use rand::rngs::SmallRng;
use rand::SeedableRng;

fn table() -> Palette {
    Palette {
        fallback: BlockKind::Decor(999),
        entries: vec![
            PaletteEntry {
                biome: 1,
                kinds: vec![BlockKind::Decor(10), BlockKind::Decor(11), BlockKind::Decor(12)],
            },
            PaletteEntry { biome: 2, kinds: vec![BlockKind::Decor(20)] },
            PaletteEntry { biome: 3, kinds: Vec::new() },
        ],
    }
}

#[test]
fn absent_biome_falls_back() {
    let palette = table();
    let mut rng = SmallRng::seed_from_u64(1);
    assert_eq!(choose_block(&palette, &mut rng, None), BlockKind::Decor(999));
}

#[test]
fn unknown_biome_falls_back() {
    let palette = table();
    let mut rng = SmallRng::seed_from_u64(1);
    assert_eq!(choose_block(&palette, &mut rng, Some(42)), BlockKind::Decor(999));
}

#[test]
fn empty_candidate_set_falls_back() {
    let palette = table();
    let mut rng = SmallRng::seed_from_u64(1);
    assert_eq!(choose_block(&palette, &mut rng, Some(3)), BlockKind::Decor(999));
}

#[test]
fn known_biome_picks_from_its_set() {
    let palette = table();
    let mut rng = SmallRng::seed_from_u64(7);
    let allowed = [BlockKind::Decor(10), BlockKind::Decor(11), BlockKind::Decor(12)];
    for _ in 0..200 {
        let k = choose_block(&palette, &mut rng, Some(1));
        assert!(allowed.contains(&k));
    }
}

#[test]
fn singleton_set_always_picked() {
    let palette = table();
    let mut rng = SmallRng::seed_from_u64(7);
    for _ in 0..20 {
        assert_eq!(choose_block(&palette, &mut rng, Some(2)), BlockKind::Decor(20));
    }
}

#[test]
fn random_pick_covers_the_set() {
    let palette = table();
    let mut rng = SmallRng::seed_from_u64(12345);
    let mut seen = [false; 3];
    for _ in 0..300 {
        match choose_block(&palette, &mut rng, Some(1)) {
            BlockKind::Decor(10) => seen[0] = true,
            BlockKind::Decor(11) => seen[1] = true,
            BlockKind::Decor(12) => seen[2] = true,
            other => panic!("unexpected pick {:?}", other),
        }
    }
    assert!(seen[0] && seen[1] && seen[2]);
}
