use rollback_core::fx::Vec2Fx;
use rollback_core::snapshot::RollbackBuffer;
use rollback_core::world::{GameDirection, Player, World};
use rollback_core::SimError;

fn world_at_x(x: i64) -> World {
    World {
        players: vec![
            Some(Player { pos: Vec2Fx { x, y: 0 }, facing: GameDirection::Right, bullet_ready: true }),
            Some(Player {
                pos: Vec2Fx { x: 2000, y: 0 },
                facing: GameDirection::Left,
                bullet_ready: true,
            }),
        ],
        bullets: Vec::new(),
    }
}

#[test]
fn load_below_window_is_evicted() {
    // window 4, frames 0..=9 saved: the live window is [6, 9]; every
    // frame below it fails with SnapshotEvicted
    let mut buf = RollbackBuffer::new(4);
    for f in 0..10u64 {
        buf.save(f, &world_at_x(f as i64)).unwrap();
    }
    for f in 0..6u64 {
        assert_eq!(buf.load(f).unwrap_err(), SimError::SnapshotEvicted(f));
    }
    for f in 6..10u64 {
        let w = buf.load(f).unwrap();
        assert_eq!(w.players[0].unwrap().pos.x, f as i64);
    }
}

#[test]
fn load_above_latest_is_evicted() {
    let mut buf = RollbackBuffer::new(4);
    buf.save(0, &world_at_x(0)).unwrap();
    assert_eq!(buf.load(1).unwrap_err(), SimError::SnapshotEvicted(1));
    let mut empty = RollbackBuffer::new(4);
    assert_eq!(empty.load(0).unwrap_err(), SimError::SnapshotEvicted(0));
    empty.save(3, &world_at_x(3)).unwrap();
    assert_eq!(empty.latest_frame(), Some(3));
}

#[test]
fn overwriting_a_live_frame_is_a_window_conflict() {
    // with window 4 and frames 0..=5 saved, frame 0's slot now holds the
    // live frame 4: saving frame 0 again must be refused
    let mut buf = RollbackBuffer::new(4);
    for f in 0..6u64 {
        buf.save(f, &world_at_x(f as i64)).unwrap();
    }
    assert_eq!(buf.save(0, &world_at_x(-1)).unwrap_err(), SimError::WindowConflict(0));
    // frame 4 is still intact
    assert_eq!(buf.load(4).unwrap().players[0].unwrap().pos.x, 4);
}

#[test]
fn overwriting_the_same_frame_is_allowed() {
    // a rollback overwrites the snapshots of the resimulated frames
    let mut buf = RollbackBuffer::new(4);
    for f in 0..4u64 {
        buf.save(f, &world_at_x(f as i64)).unwrap();
    }
    buf.save(2, &world_at_x(-42)).unwrap();
    assert_eq!(buf.load(2).unwrap().players[0].unwrap().pos.x, -42);
    assert_eq!(buf.latest_frame(), Some(3));
}

#[test]
fn confirm_raises_the_prunable_floor() {
    let mut buf = RollbackBuffer::new(4);
    assert_eq!(buf.confirmed_floor(), 0);
    buf.confirm(7);
    assert_eq!(buf.confirmed_floor(), 7);
    buf.confirm(3);
    assert_eq!(buf.confirmed_floor(), 7);
    assert_eq!(buf.window(), 4);
}
