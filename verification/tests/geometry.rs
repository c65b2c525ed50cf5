use parkour::coords::{BlockKind, BlockPos, FinePos};
use parkour::jump::two_by_two_to_block_pos;
use parkour::port::Port;
use parkour::world::{chunk_of, BiomeSample, ChunkXZ, TerrainView};

fn empty_view() -> TerrainView {
    TerrainView { occupied: Vec::new(), loaded: Vec::new(), biomes: Vec::new() }
}

#[test]
fn on_platform_window() {
    let port = Port::TwoByTwo(BlockPos { x: 10, y: 64, z: -3 });
    // The slab spans [950, 1250] in x, [6500, 6505) in y, [-350, -50] in z:
    // a half-block tolerance beyond the 2x2 footprint, one block up.
    assert!(port.on_platform(FinePos { x: 1100, y: 6500, z: -200 }));
    assert!(port.on_platform(FinePos { x: 950, y: 6504, z: -50 }));
    assert!(port.on_platform(FinePos { x: 1250, y: 6500, z: -350 }));
    assert!(!port.on_platform(FinePos { x: 949, y: 6500, z: -200 }));
    assert!(!port.on_platform(FinePos { x: 1251, y: 6500, z: -200 }));
    assert!(!port.on_platform(FinePos { x: 1100, y: 6499, z: -200 }));
    assert!(!port.on_platform(FinePos { x: 1100, y: 6505, z: -200 }));
    assert!(!port.on_platform(FinePos { x: 1100, y: 6500, z: -351 }));
    assert!(!port.on_platform(FinePos { x: 1100, y: 6500, z: -49 }));
}

#[test]
fn portal_platform_window() {
    let port = Port::TwoByTwoPortal(BlockPos { x: 0, y: 100, z: 0 });
    // The thin portal slab sits at the anchor's own height: y in [10000, 10005).
    assert!(port.on_platform(FinePos { x: 100, y: 10000, z: 100 }));
    assert!(port.on_platform(FinePos { x: 100, y: 10004, z: 100 }));
    assert!(!port.on_platform(FinePos { x: 100, y: 10005, z: 100 }));
    assert!(!port.on_platform(FinePos { x: 100, y: 10025, z: 100 }));
    assert!(!port.on_platform(FinePos { x: 100, y: 10050, z: 100 }));
}

#[test]
fn reachability_cone() {
    let port = Port::TwoByTwo(BlockPos { x: 0, y: 0, z: 0 });
    // At the anchor's own height the rise is 0: only the center line reaches.
    assert!(port.is_reachable_from(FinePos { x: 100, y: 0, z: 100 }));
    assert!(!port.is_reachable_from(FinePos { x: 100, y: -1, z: 100 }));
    // One block above the anchor the cone is 500 fine units of taxicab radius.
    assert!(port.is_reachable_from(FinePos { x: 400, y: 100, z: 300 }));
    assert!(port.is_reachable_from(FinePos { x: 600, y: 100, z: 100 }));
    assert!(!port.is_reachable_from(FinePos { x: 601, y: 100, z: 100 }));
}

#[test]
fn center_is_one_block_in() {
    let port = Port::TwoByTwo(BlockPos { x: -5, y: 7, z: 3 });
    let c = port.center();
    assert_eq!((c.x, c.y, c.z), (-400, 800, 400));
}

#[test]
fn standard_platform_owns_four_blocks() {
    let j = two_by_two_to_block_pos(BlockPos { x: 2, y: 10, z: -1 }, BlockKind::Decor(7));
    let blocks = j.build();
    assert_eq!(blocks.len(), 4);
    let mut coords: Vec<(i32, i32, i32)> =
        blocks.iter().map(|b| (b.pos.x, b.pos.y, b.pos.z)).collect();
    coords.sort();
    assert_eq!(coords, vec![(2, 10, -1), (2, 10, 0), (3, 10, -1), (3, 10, 0)]);
    assert!(blocks.iter().all(|b| b.state == BlockKind::Decor(7)));
}

#[test]
fn finish_structure_layout() {
    let mut j = two_by_two_to_block_pos(BlockPos { x: 0, y: 50, z: 0 }, BlockKind::Decor(1));
    j.set_finish_portal();
    assert!(matches!(j.endpoint, Port::TwoByTwoPortal(BlockPos { x: 0, y: 50, z: 0 })));
    let blocks = j.build();
    assert_eq!(blocks.len(), 16);
    let frame: Vec<(i32, i32)> = blocks
        .iter()
        .filter(|b| b.state == BlockKind::PortalFrame)
        .map(|b| (b.pos.x, b.pos.z))
        .collect();
    let portal: Vec<(i32, i32)> = blocks
        .iter()
        .filter(|b| b.state == BlockKind::Portal)
        .map(|b| (b.pos.x, b.pos.z))
        .collect();
    assert_eq!(frame.len(), 12);
    assert_eq!(portal.len(), 4);
    // The ring spans -1..=2 on both axes with the four true corners omitted.
    for x in -1..3 {
        for z in -1..3 {
            let corner = (x == -1 || x == 2) && (z == -1 || z == 2);
            assert_eq!(frame.contains(&(x, z)), !corner);
        }
    }
    for x in 0..2 {
        for z in 0..2 {
            assert!(portal.contains(&(x, z)));
        }
    }
    assert!(blocks.iter().all(|b| b.pos.y == 50));
}

#[test]
fn despawn_erases_every_placement() {
    let j = two_by_two_to_block_pos(BlockPos { x: 4, y: 9, z: 4 }, BlockKind::Decor(3));
    let build = j.build();
    let clear = j.despawn();
    assert_eq!(build.len(), clear.len());
    for (b, c) in build.iter().zip(clear.iter()) {
        assert_eq!((b.pos.x, b.pos.y, b.pos.z), (c.pos.x, c.pos.y, c.pos.z));
        assert_eq!(c.state, BlockKind::Air);
    }
}

#[test]
fn height_ceiling() {
    let low = two_by_two_to_block_pos(BlockPos { x: 0, y: 255, z: 0 }, BlockKind::Decor(1));
    assert!(!low.too_high());
    let high = two_by_two_to_block_pos(BlockPos { x: 0, y: 256, z: 0 }, BlockKind::Decor(1));
    assert!(high.too_high());
}

#[test]
fn terrain_proximity_scan_box() {
    let j = two_by_two_to_block_pos(BlockPos { x: 0, y: 0, z: 0 }, BlockKind::Decor(1));
    // The footprint spans 0..=1 in x and z at height 0, so the scan box spans
    // [-4, 5] in x and z and [-4, 4] in y, every bound inclusive.
    let mut view = empty_view();
    view.occupied.push(BlockPos { x: 5, y: 4, z: 5 });
    assert!(j.too_close(&view));
    view.occupied.clear();
    view.occupied.push(BlockPos { x: 6, y: 0, z: 0 });
    assert!(!j.too_close(&view));
    view.occupied.clear();
    view.occupied.push(BlockPos { x: 0, y: 5, z: 0 });
    assert!(!j.too_close(&view));
    view.occupied.clear();
    view.occupied.push(BlockPos { x: -5, y: 0, z: 0 });
    assert!(!j.too_close(&view));
    view.occupied.clear();
    view.occupied.push(BlockPos { x: -4, y: -4, z: -4 });
    assert!(j.too_close(&view));
    assert!(!j.too_close(&empty_view()));
}

#[test]
fn jump_proximity_windows() {
    let a = two_by_two_to_block_pos(BlockPos { x: 0, y: 0, z: 0 }, BlockKind::Decor(1));
    let near = two_by_two_to_block_pos(BlockPos { x: 4, y: 0, z: 0 }, BlockKind::Decor(1));
    let far = two_by_two_to_block_pos(BlockPos { x: 9, y: 0, z: 0 }, BlockKind::Decor(1));
    let others = vec![near, far];
    // `near` has a block at x 4, inside a's box inflated by 4 ([-4, 5]).
    assert!(a.too_close_to_jumps(&others, 0, 1, 4));
    // `far` starts at x 9, outside the box inflated by 4 ([-4, 5]).
    assert!(!a.too_close_to_jumps(&others, 1, 2, 4));
    // At radius 2 the box is [-2, 3]: `near` (x 4) no longer intrudes.
    assert!(!a.too_close_to_jumps(&others, 0, 1, 2));
    // An empty window never reports proximity.
    assert!(!a.too_close_to_jumps(&others, 1, 1, 4));
}

#[test]
fn chunk_coordinates_round_toward_negative_infinity() {
    let c = chunk_of(BlockPos { x: 15, y: 0, z: 16 });
    assert_eq!((c.x, c.z), (0, 1));
    let c = chunk_of(BlockPos { x: -1, y: 0, z: -16 });
    assert_eq!((c.x, c.z), (-1, -1));
    let c = chunk_of(BlockPos { x: -17, y: 0, z: 0 });
    assert_eq!((c.x, c.z), (-2, 0));
}

#[test]
fn terrain_view_queries() {
    let view = TerrainView {
        occupied: vec![BlockPos { x: 1, y: 2, z: 3 }],
        loaded: vec![ChunkXZ { x: 0, z: -1 }],
        biomes: vec![
            BiomeSample { pos: BlockPos { x: 5, y: 0, z: 5 }, biome: 9 },
            BiomeSample { pos: BlockPos { x: 5, y: 0, z: 5 }, biome: 4 },
        ],
    };
    assert!(view.is_occupied(BlockPos { x: 1, y: 2, z: 3 }));
    assert!(!view.is_occupied(BlockPos { x: 1, y: 2, z: 4 }));
    assert!(view.chunk_loaded(ChunkXZ { x: 0, z: -1 }));
    assert!(!view.chunk_loaded(ChunkXZ { x: 0, z: 0 }));
    // The first sample for a position wins.
    assert_eq!(view.biome_at(BlockPos { x: 5, y: 0, z: 5 }), Some(9));
    assert_eq!(view.biome_at(BlockPos { x: 0, y: 0, z: 0 }), None);
}
