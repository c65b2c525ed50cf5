use parkour::coords::{BlockKind, BlockPos, FinePos, LookVec};
use parkour::course::ParkourCourse;
use parkour::jump::JumpBlock;
use parkour::palette::Palette;
use parkour::tracker::{PlayerOnCourse, PlayerStateUpdate};
use parkour::world::{ChunkXZ, TerrainView};
use rand::rngs::SmallRng;
use rand::SeedableRng;

fn open_view(radius_chunks: i32) -> TerrainView {
    let mut loaded = Vec::new();
    let mut x = -radius_chunks;
    while x <= radius_chunks {
        let mut z = -radius_chunks;
        while z <= radius_chunks {
            loaded.push(ChunkXZ { x, z });
            z += 1;
        }
        x += 1;
    }
    TerrainView { occupied: Vec::new(), loaded, biomes: Vec::new() }
}

/// A course with at least 14 elements, generated over open terrain.
fn long_course() -> ParkourCourse {
    let view = open_view(20);
    let palette = Palette { fallback: BlockKind::Decor(0), entries: Vec::new() };
    let mut rng = SmallRng::seed_from_u64(77);
    let mut course = ParkourCourse::new(BlockPos { x: 0, y: 128, z: 0 }, BlockKind::Decor(1));
    let mut placements: Vec<JumpBlock> = Vec::new();
    for _ in 0..13 {
        assert!(course.spawn_platform(&view, &palette, &mut rng, &mut placements));
    }
    course
}

/// A position exactly on element `i`'s landing slab.
fn standing_on(course: &ParkourCourse, i: usize) -> FinePos {
    let a = course.jump_at(i).endpoint.anchor();
    FinePos {
        x: a.x as i64 * 100 + 100,
        y: a.y as i64 * 100 + 100,
        z: a.z as i64 * 100 + 100,
    }
}

/// A position half a block above element `i`'s landing slab: on no element's
/// slab (anchors differ by whole blocks), but within element `i`'s cone.
fn hovering_over(course: &ParkourCourse, i: usize) -> FinePos {
    let p = standing_on(course, i);
    FinePos { x: p.x, y: p.y + 50, z: p.z }
}

fn look() -> LookVec {
    LookVec { x: 100, y: 0, z: 0 }
}

#[test]
fn progress_scenario() {
    let course = long_course();
    let mut rec = PlayerOnCourse::new(course.jump_at(0).endpoint.anchor());

    // Reach platform 2 first: an ordinary advance.
    let r = rec.update_player_state(&course, standing_on(&course, 2), look());
    assert!(matches!(r, PlayerStateUpdate::OnCourse));
    assert_eq!(rec.current_platform(), 2);

    // Standing on element 4 with index 2 confirmed: advance, OnCourse.
    let pos4 = standing_on(&course, 4);
    let r = rec.update_player_state(&course, pos4, look());
    assert!(matches!(r, PlayerStateUpdate::OnCourse));
    assert_eq!(rec.current_platform(), 4);
    let (cp, _) = rec.to_last_checkpoint();
    assert_eq!((cp.x, cp.y, cp.z), (pos4.x, pos4.y, pos4.z));

    // Standing on element 1: informational only, nothing regresses.
    let r = rec.update_player_state(&course, standing_on(&course, 1), look());
    assert!(matches!(r, PlayerStateUpdate::OnPastPlatform));
    assert_eq!(rec.current_platform(), 4);
    let (cp, _) = rec.to_last_checkpoint();
    assert_eq!((cp.x, cp.y, cp.z), (pos4.x, pos4.y, pos4.z));

    // Airborne within element 5's cone: still on course, no mutation.
    let r = rec.update_player_state(&course, hovering_over(&course, 5), look());
    assert!(matches!(r, PlayerStateUpdate::OnCourse));
    assert_eq!(rec.current_platform(), 4);

    // Airborne far below everything: corrective teleport to the checkpoint.
    let below = FinePos { x: pos4.x, y: pos4.y - 1_000_000, z: pos4.z };
    let r = rec.update_player_state(&course, below, look());
    assert!(matches!(r, PlayerStateUpdate::TeleportedBack));
    let (cp, _) = rec.to_last_checkpoint();
    assert_eq!((cp.x, cp.y, cp.z), (pos4.x, pos4.y, pos4.z));
}

#[test]
fn large_advance_reports_skipped() {
    let course = long_course();
    let mut rec = PlayerOnCourse::new(course.jump_at(0).endpoint.anchor());
    let r = rec.update_player_state(&course, standing_on(&course, 2), look());
    assert!(matches!(r, PlayerStateUpdate::OnCourse));
    // Element 11 is more than eight beyond index 2: Skipped, state advances.
    let r = rec.update_player_state(&course, standing_on(&course, 11), look());
    assert!(matches!(r, PlayerStateUpdate::Skipped));
    assert_eq!(rec.current_platform(), 11);
}

#[test]
fn tracker_idempotence_on_confirmed_platform() {
    let course = long_course();
    let mut rec = PlayerOnCourse::new(course.jump_at(0).endpoint.anchor());
    let pos = standing_on(&course, 0);
    let (cp0, lk0) = rec.to_last_checkpoint();
    for _ in 0..2 {
        let r = rec.update_player_state(&course, pos, look());
        assert!(matches!(r, PlayerStateUpdate::OnCourse));
        assert_eq!(rec.current_platform(), 0);
        let (cp, lk) = rec.to_last_checkpoint();
        assert_eq!((cp.x, cp.y, cp.z), (cp0.x, cp0.y, cp0.z));
        assert_eq!((lk.x, lk.y, lk.z), (lk0.x, lk0.y, lk0.z));
    }
}

#[test]
fn checkpoint_is_always_a_valid_landing() {
    let course = long_course();
    let mut rec = PlayerOnCourse::new(course.jump_at(0).endpoint.anchor());
    // The fresh record's checkpoint lands on element 0.
    let (cp, _) = rec.to_last_checkpoint();
    assert!(course.jump_at(0).endpoint.on_platform(cp));
    // After advancing, the checkpoint lands on the confirmed element.
    rec.update_player_state(&course, standing_on(&course, 3), look());
    let (cp, _) = rec.to_last_checkpoint();
    assert!(course.jump_at(3).endpoint.on_platform(cp));
    // A corrective teleport restores exactly that landing.
    let nowhere = FinePos { x: 0, y: -10_000_000, z: 0 };
    let r = rec.update_player_state(&course, nowhere, look());
    assert!(matches!(r, PlayerStateUpdate::TeleportedBack));
    let (cp, _) = rec.to_last_checkpoint();
    assert!(course.jump_at(3).endpoint.on_platform(cp));
}

#[test]
fn paused_record_short_circuits() {
    let course = long_course();
    let mut rec = PlayerOnCourse::new(course.jump_at(0).endpoint.anchor());
    rec.pause();
    // Even a position that would otherwise advance progress is ignored.
    let r = rec.update_player_state(&course, standing_on(&course, 5), look());
    assert!(matches!(r, PlayerStateUpdate::Paused));
    assert_eq!(rec.current_platform(), 0);
    rec.resume();
    let r = rec.update_player_state(&course, standing_on(&course, 5), look());
    assert!(matches!(r, PlayerStateUpdate::OnCourse));
    assert_eq!(rec.current_platform(), 5);
}

#[test]
fn platforms_left_counts_from_confirmed_index() {
    let course = long_course();
    let mut rec = PlayerOnCourse::new(course.jump_at(0).endpoint.anchor());
    let total = course.len();
    assert_eq!(rec.platforms_left(&course), total);
    rec.update_player_state(&course, standing_on(&course, 4), look());
    assert_eq!(rec.platforms_left(&course), total - 4);
    assert_eq!(rec.current_platform(), 4);
}
