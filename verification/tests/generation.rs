use parkour::coords::{BlockKind, BlockPos};
use parkour::course::{build_jump_tree, ParkourCourse};
use parkour::jump::{two_by_two_to_block_pos, Jump, JumpBlock};
use parkour::palette::Palette;
use parkour::world::{ChunkXZ, TerrainView};
use rand::rngs::SmallRng;
use rand::SeedableRng;

fn open_view(radius_chunks: i32) -> TerrainView {
    let mut loaded = Vec::new();
    let mut x = -radius_chunks;
    while x <= radius_chunks {
        let mut z = -radius_chunks;
        while z <= radius_chunks {
            loaded.push(ChunkXZ { x, z });
            z += 1;
        }
        x += 1;
    }
    TerrainView { occupied: Vec::new(), loaded, biomes: Vec::new() }
}

fn plain_palette() -> Palette {
    Palette { fallback: BlockKind::Decor(0), entries: Vec::new() }
}

fn anchor_of(j: &Jump) -> (i32, i32, i32) {
    let a = j.endpoint.anchor();
    (a.x, a.y, a.z)
}

fn is_candidate_offset(a: (i32, i32, i32), b: (i32, i32, i32)) -> bool {
    let d = (b.0 - a.0, b.1 - a.1, b.2 - a.2);
    let offsets = [
        (5, 0, 0),
        (0, 0, 5),
        (-5, 0, 0),
        (0, 0, -5),
        (4, 1, 0),
        (4, -1, 0),
        (-4, 1, 0),
        (-4, -1, 0),
        (0, 1, 4),
        (0, -1, 4),
        (0, 1, -4),
        (0, -1, -4),
    ];
    offsets.contains(&d)
}

fn blocks_of(course: &ParkourCourse, i: usize) -> Vec<JumpBlock> {
    course.jump_at(i).build()
}

#[test]
fn monotonic_commit() {
    let view = open_view(20);
    let palette = plain_palette();
    let mut rng = SmallRng::seed_from_u64(11);
    let mut course = ParkourCourse::new(BlockPos { x: 0, y: 128, z: 0 }, BlockKind::Decor(1));
    let mut placements: Vec<JumpBlock> = Vec::new();
    for n in 1..=10 {
        let ok = course.spawn_platform(&view, &palette, &mut rng, &mut placements);
        assert!(ok, "open terrain must always extend");
        assert_eq!(course.len(), 1 + n);
        assert!(!course.done());
    }
}

#[test]
fn committed_platform_trails_the_frontier() {
    let view = open_view(20);
    let palette = plain_palette();
    let mut rng = SmallRng::seed_from_u64(5);
    let mut course = ParkourCourse::new(BlockPos { x: 0, y: 128, z: 0 }, BlockKind::Decor(1));
    let mut placements: Vec<JumpBlock> = Vec::new();
    // The first successful request leaves the timeline at two elements:
    // nothing is built yet, the frontier is all speculation.
    assert!(course.spawn_platform(&view, &palette, &mut rng, &mut placements));
    assert_eq!(placements.len(), 0);
    // From the second success on, each request builds exactly the element one
    // buffer-width behind the new tip.
    assert!(course.spawn_platform(&view, &palette, &mut rng, &mut placements));
    assert_eq!(course.len(), 3);
    let expected = blocks_of(&course, 0);
    assert_eq!(placements.len(), expected.len());
    for (a, b) in placements.iter().zip(expected.iter()) {
        assert_eq!((a.pos.x, a.pos.y, a.pos.z), (b.pos.x, b.pos.y, b.pos.z));
        assert_eq!(a.state, b.state);
    }
    placements.clear();
    assert!(course.spawn_platform(&view, &palette, &mut rng, &mut placements));
    assert_eq!(course.len(), 4);
    let expected = blocks_of(&course, 1);
    assert_eq!(placements.len(), expected.len());
    for (a, b) in placements.iter().zip(expected.iter()) {
        assert_eq!((a.pos.x, a.pos.y, a.pos.z), (b.pos.x, b.pos.y, b.pos.z));
        assert_eq!(a.state, b.state);
    }
}

#[test]
fn deferred_without_loaded_terrain() {
    let view = TerrainView { occupied: Vec::new(), loaded: Vec::new(), biomes: Vec::new() };
    let palette = plain_palette();
    let mut rng = SmallRng::seed_from_u64(3);
    let mut course = ParkourCourse::new(BlockPos { x: 0, y: 128, z: 0 }, BlockKind::Decor(1));
    let mut placements: Vec<JumpBlock> = Vec::new();
    assert!(!course.spawn_platform(&view, &palette, &mut rng, &mut placements));
    assert_eq!(course.len(), 1);
    assert!(!course.done());
    assert!(placements.is_empty());
}

fn blanketed_view() -> TerrainView {
    let mut view = open_view(4);
    let mut x = -12;
    while x <= 12 {
        let mut z = -12;
        while z <= 12 {
            view.occupied.push(BlockPos { x, y: 128, z });
            z += 4;
        }
        x += 4;
    }
    view
}

#[test]
fn exhausted_search_terminates_course() {
    let view = blanketed_view();
    let palette = plain_palette();
    let mut rng = SmallRng::seed_from_u64(17);
    let mut course = ParkourCourse::new(BlockPos { x: 0, y: 128, z: 0 }, BlockKind::Decor(1));
    let mut placements: Vec<JumpBlock> = Vec::new();
    let ok = course.spawn_platform(&view, &palette, &mut rng, &mut placements);
    assert!(!ok);
    assert!(course.done());
    assert_eq!(course.len(), 1);
    // The lone element was upgraded to the finishing structure and the whole
    // timeline was materialized.
    assert!(matches!(course.jump_at(0).endpoint, parkour::port::Port::TwoByTwoPortal(_)));
    assert_eq!(placements.len(), 16);
}

#[test]
fn terminal_idempotence() {
    let view = blanketed_view();
    let palette = plain_palette();
    let mut rng = SmallRng::seed_from_u64(17);
    let mut course = ParkourCourse::new(BlockPos { x: 0, y: 128, z: 0 }, BlockKind::Decor(1));
    let mut placements: Vec<JumpBlock> = Vec::new();
    course.spawn_platform(&view, &palette, &mut rng, &mut placements);
    assert!(course.done());
    let len_before = course.len();
    let content_before: Vec<Vec<JumpBlock>> =
        (0..course.len() as usize).map(|i| blocks_of(&course, i)).collect();
    placements.clear();
    for _ in 0..3 {
        let ok = course.spawn_platform(&view, &palette, &mut rng, &mut placements);
        assert!(!ok);
        assert_eq!(course.len(), len_before);
        assert!(placements.is_empty());
    }
    let content_after: Vec<Vec<JumpBlock>> =
        (0..course.len() as usize).map(|i| blocks_of(&course, i)).collect();
    for (a, b) in content_before.iter().zip(content_after.iter()) {
        assert_eq!(a.len(), b.len());
        for (x, y) in a.iter().zip(b.iter()) {
            assert_eq!((x.pos.x, x.pos.y, x.pos.z, x.state), (y.pos.x, y.pos.y, y.pos.z, y.state));
        }
    }
}

#[test]
fn lookahead_success_appends_full_chain() {
    let view = TerrainView { occupied: Vec::new(), loaded: Vec::new(), biomes: Vec::new() };
    let palette = plain_palette();
    let mut rng = SmallRng::seed_from_u64(99);
    let mut tree =
        vec![two_by_two_to_block_pos(BlockPos { x: 0, y: 64, z: 0 }, BlockKind::Decor(1))];
    let ok = build_jump_tree(&mut tree, &view, &palette, &mut rng, 2);
    assert!(ok);
    assert_eq!(tree.len(), 4);
    for w in tree.windows(2) {
        let a = anchor_of(&w[0]);
        let b = anchor_of(&w[1]);
        assert!(is_candidate_offset(a, b), "{:?} -> {:?}", a, b);
    }
}

#[test]
fn lookahead_failure_leaves_timeline_unchanged() {
    let view = blanketed_view();
    let palette = plain_palette();
    let mut rng = SmallRng::seed_from_u64(7);
    let mut tree =
        vec![two_by_two_to_block_pos(BlockPos { x: 0, y: 128, z: 0 }, BlockKind::Decor(1))];
    let ok = build_jump_tree(&mut tree, &view, &palette, &mut rng, 2);
    assert!(!ok);
    assert_eq!(tree.len(), 1);
    assert_eq!(anchor_of(&tree[0]), (0, 128, 0));
}

#[test]
fn lookahead_reproducible_with_fixed_seed() {
    let view = TerrainView { occupied: Vec::new(), loaded: Vec::new(), biomes: Vec::new() };
    let palette = plain_palette();
    let run = |seed: u64| -> Vec<(i32, i32, i32)> {
        let mut rng = SmallRng::seed_from_u64(seed);
        let mut tree =
            vec![two_by_two_to_block_pos(BlockPos { x: 0, y: 64, z: 0 }, BlockKind::Decor(1))];
        let ok = build_jump_tree(&mut tree, &view, &palette, &mut rng, 2);
        assert!(ok);
        tree.iter().map(anchor_of).collect()
    };
    assert_eq!(run(42), run(42));
    assert_eq!(run(1234), run(1234));
}

#[test]
fn separation_invariant_over_generated_course() {
    let view = open_view(20);
    let palette = plain_palette();
    let mut rng = SmallRng::seed_from_u64(2024);
    let mut course = ParkourCourse::new(BlockPos { x: 0, y: 128, z: 0 }, BlockKind::Decor(1));
    let mut placements: Vec<JumpBlock> = Vec::new();
    for _ in 0..25 {
        assert!(course.spawn_platform(&view, &palette, &mut rng, &mut placements));
    }
    let n = course.len() as usize;
    let all: Vec<Vec<JumpBlock>> = (0..n).map(|i| blocks_of(&course, i)).collect();
    let bbox = |blocks: &Vec<JumpBlock>| -> (i32, i32, i32, i32, i32, i32) {
        let xs: Vec<i32> = blocks.iter().map(|b| b.pos.x).collect();
        let ys: Vec<i32> = blocks.iter().map(|b| b.pos.y).collect();
        let zs: Vec<i32> = blocks.iter().map(|b| b.pos.z).collect();
        (
            *xs.iter().min().unwrap(),
            *xs.iter().max().unwrap(),
            *ys.iter().min().unwrap(),
            *ys.iter().max().unwrap(),
            *zs.iter().min().unwrap(),
            *zs.iter().max().unwrap(),
        )
    };
    for j in 0..n {
        let (minx, maxx, miny, maxy, minz, maxz) = bbox(&all[j]);
        for i in 0..j {
            let d = j - i;
            let radius: i32 = if (4..=16).contains(&d) {
                4
            } else if d <= 3 {
                2
            } else {
                continue;
            };
            for b in &all[i] {
                let inside = b.pos.x >= minx - radius && b.pos.x <= maxx + radius
                    && b.pos.y >= miny - radius && b.pos.y <= maxy + radius
                    && b.pos.z >= minz - radius && b.pos.z <= maxz + radius;
                assert!(!inside, "elements {} and {} violate separation", i, j);
            }
        }
    }
}

#[test]
fn different_seeds_explore_differently() {
    let view = TerrainView { occupied: Vec::new(), loaded: Vec::new(), biomes: Vec::new() };
    let palette = plain_palette();
    let run = |seed: u64| -> Vec<(i32, i32, i32)> {
        let mut rng = SmallRng::seed_from_u64(seed);
        let mut tree =
            vec![two_by_two_to_block_pos(BlockPos { x: 0, y: 64, z: 0 }, BlockKind::Decor(1))];
        build_jump_tree(&mut tree, &view, &palette, &mut rng, 2);
        tree.iter().map(anchor_of).collect()
    };
    let a = run(1);
    let b = run(2);
    let c = run(3);
    assert!(a != b || b != c, "three seeds gave one identical search order");
}

#[test]
fn reassertion_rebuilds_all_but_the_frontier() {
    let view = open_view(20);
    let palette = plain_palette();
    let mut rng = SmallRng::seed_from_u64(8);
    let mut course = ParkourCourse::new(BlockPos { x: 0, y: 128, z: 0 }, BlockKind::Decor(1));
    let mut placements: Vec<JumpBlock> = Vec::new();
    for _ in 0..10 {
        assert!(course.spawn_platform(&view, &palette, &mut rng, &mut placements));
    }
    assert_eq!(course.len(), 11);
    placements.clear();
    course.respawn_course(&mut placements);
    // Everything but the three newest elements is rebuilt, newest first.
    assert_eq!(placements.len(), 8 * 4);
    for i in 0..8 {
        let expected = blocks_of(&course, 7 - i);
        for (k, b) in expected.iter().enumerate() {
            let got = &placements[i * 4 + k];
            assert_eq!((got.pos.x, got.pos.y, got.pos.z), (b.pos.x, b.pos.y, b.pos.z));
            assert_eq!(got.state, b.state);
        }
    }
}

#[test]
fn validity_window_tiers() {
    let view = TerrainView { occupied: Vec::new(), loaded: Vec::new(), biomes: Vec::new() };
    let at = |x: i32| two_by_two_to_block_pos(BlockPos { x, y: 0, z: 0 }, BlockKind::Decor(1));
    let cand = at(0);
    // A platform at x 4 has a placement inside the candidate's box inflated
    // by 4 ([-4, 5]) but outside the box inflated by 2 ([-2, 3]).
    // Three elements before the tip it falls in the radius-4 window: rejected.
    let previous = vec![at(4), at(20), at(20), at(20)];
    assert!(!parkour::course::valid_jump(&cand, &previous, &view));
    // Two elements before the tip only the radius-2 check applies: admitted.
    let previous = vec![at(20), at(4), at(20), at(20)];
    assert!(parkour::course::valid_jump(&cand, &previous, &view));
    // One element before the tip, radius 2: a placement at x 3 intrudes.
    let previous = vec![at(20), at(20), at(3), at(20)];
    assert!(!parkour::course::valid_jump(&cand, &previous, &view));
    // The tip itself is exempt from every proximity check.
    let previous = vec![at(20), at(20), at(20), at(4)];
    assert!(parkour::course::valid_jump(&cand, &previous, &view));
}
