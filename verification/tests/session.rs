use rollback_core::config::SimConfig;
use rollback_core::fx::Vec2Fx;
use rollback_core::input::INPUT_RIGHT;
use rollback_core::session::{LocalHandle, Session, SessionPhase};
use rollback_core::stepper::step;
use rollback_core::world::{spawn_players, World};
use rollback_core::SimError;

fn match_config() -> SimConfig {
    SimConfig {
        num_players: 2,
        input_delay: 2,
        window: 8,
        arena_half_extent: 20_000,
        move_speed: 130,
        bullet_speed: 350,
        player_radius: 500,
        bullet_radius: 25,
        spawn_points: vec![Vec2Fx { x: -2000, y: 0 }, Vec2Fx { x: 2000, y: 0 }],
    }
}

fn running_session() -> Session {
    let mut s = Session::new(match_config());
    s.register_local(0).unwrap();
    s.add_peer(7, 1).unwrap();
    assert_eq!(s.phase(), SessionPhase::Synchronizing);
    s.acknowledge_sync(1).unwrap();
    assert_eq!(s.phase(), SessionPhase::Running);
    s
}

#[test]
fn lifecycle_transitions_are_guarded() {
    let mut s = Session::new(match_config());
    assert_eq!(s.phase(), SessionPhase::Matchmaking);
    assert_eq!(s.local_handle(), LocalHandle::Unassigned);

    // out-of-range and duplicate assignments are rejected unchanged
    assert_eq!(s.register_local(2).unwrap_err(), SimError::InvalidPlayerCount);
    s.register_local(0).unwrap();
    assert_eq!(s.register_local(1).unwrap_err(), SimError::InvalidPlayerCount);
    assert_eq!(s.add_peer(7, 0).unwrap_err(), SimError::InvalidPlayerCount);
    assert_eq!(s.phase(), SessionPhase::Matchmaking);

    s.add_peer(7, 1).unwrap();
    assert_eq!(s.phase(), SessionPhase::Synchronizing);
    assert_eq!(s.local_handle(), LocalHandle::Assigned(0));

    // an unknown handle cannot acknowledge
    assert_eq!(s.acknowledge_sync(0).unwrap_err(), SimError::InvalidPlayerCount);
    s.acknowledge_sync(1).unwrap();
    assert_eq!(s.phase(), SessionPhase::Running);
    assert_eq!(s.current_frame(), 0);

    s.terminate();
    assert_eq!(s.phase(), SessionPhase::Terminated);
}

#[test]
fn matchmaking_rejects_duplicate_peers() {
    let mut s = Session::new(match_config());
    s.add_peer(7, 1).unwrap();
    // duplicate identity, duplicate handle, one peer too many
    assert_eq!(s.add_peer(7, 0).unwrap_err(), SimError::InvalidPlayerCount);
    assert_eq!(s.add_peer(8, 1).unwrap_err(), SimError::InvalidPlayerCount);
    assert_eq!(s.add_peer(8, 0).unwrap_err(), SimError::InvalidPlayerCount);
}

#[test]
fn disconnect_is_surfaced_not_fatal() {
    let mut s = running_session();
    let e = s.peer_disconnected(1);
    assert_eq!(e, SimError::PeerDisconnected(1));
    // the session keeps predicting until the caller decides to stop
    assert_eq!(s.phase(), SessionPhase::Running);
    s.tick(0).unwrap();
    assert_eq!(s.current_frame(), 1);
}

#[test]
fn tick_schedules_input_with_delay() {
    let mut s = running_session();
    let (due, sym) = s.tick(INPUT_RIGHT).unwrap();
    // input delay 2: the sampled input becomes due two frames ahead
    assert_eq!(due, 2);
    assert_eq!(sym, INPUT_RIGHT);
    assert_eq!(s.current_frame(), 1);
    // the first frames step with the idle symbol, so nobody moved yet
    assert_eq!(s.world().players[0].unwrap().pos.x, -2000);

    s.tick(0).unwrap();
    s.tick(0).unwrap();
    // frame 2 used the delayed RIGHT: the local player moved once
    assert_eq!(s.world().players[0].unwrap().pos.x, -1870);
    assert_eq!(s.frames_ahead(1), Some(3));
    assert_eq!(s.confirmed_frames(1), Some(0));
}

#[test]
fn matching_confirmation_does_not_roll_back() {
    let mut s = running_session();
    for _ in 0..3 {
        s.tick(0).unwrap();
    }
    // the prediction for a silent peer is the idle symbol; confirming
    // idle matches what was used
    let rolled = s.handle_confirmed_input(1, 0, 0).unwrap();
    assert!(!rolled);
    assert_eq!(s.confirmed_frames(1), Some(1));
    // a confirmation at or past the current frame is stored only
    for f in 1..5u64 {
        let rolled = s.handle_confirmed_input(1, f, 0).unwrap();
        assert!(!rolled);
    }
    assert_eq!(s.confirmed_frames(1), Some(5));
}

#[test]
fn rollback_correction_scenario() {
    // predicted remote input at frame 10 was idle; the true confirmed
    // input was RIGHT: after the correction, the state at frame 15 must
    // equal the direct simulation with RIGHT applied at frame 10
    let cfg = match_config();
    let mut s = running_session();
    for _ in 0..15 {
        s.tick(0).unwrap();
    }
    // confirm idle for frames 0..=9 (matches the prediction used)
    for f in 0..10u64 {
        assert!(!s.handle_confirmed_input(1, f, 0).unwrap());
    }
    // the true input for frame 10 was RIGHT: misprediction, rollback
    let rolled = s.handle_confirmed_input(1, 10, INPUT_RIGHT).unwrap();
    assert!(rolled);
    assert_eq!(s.phase(), SessionPhase::Running);
    assert_eq!(s.current_frame(), 15);

    // direct simulation: idle everywhere except the remote RIGHT at 10,
    // and RIGHT is the new hold-last prediction for frames 11..14
    let mut direct: World = spawn_players(&cfg);
    for f in 0..15u64 {
        let remote = if f >= 10 { INPUT_RIGHT } else { 0 };
        direct = step(&direct, &vec![0, remote], &cfg).unwrap();
    }
    let got = s.world();
    assert_eq!(got.players[0], direct.players[0]);
    assert_eq!(got.players[1], direct.players[1]);
    assert_eq!(got.bullets, direct.bullets);
    // the corrected trajectory, not the predicted one
    assert_eq!(got.players[1].unwrap().pos.x, 2000 + 5 * 130);
}

#[test]
fn prune_follows_the_confirmed_horizon() {
    let mut s = running_session();
    for _ in 0..6 {
        s.tick(0).unwrap();
    }
    assert_eq!(s.confirmed_floor(), 0);
    // nothing confirmed yet: the horizon is frame 0
    assert_eq!(s.prune_confirmed(), 0);
    for f in 0..4u64 {
        assert!(!s.handle_confirmed_input(1, f, 0).unwrap());
    }
    let floor = s.prune_confirmed();
    assert_eq!(floor, 4);
    assert_eq!(s.confirmed_floor(), 4);
    // the session is unaffected beyond the bookkeeping
    assert_eq!(s.current_frame(), 6);
    s.tick(0).unwrap();
}

#[test]
fn rollback_below_the_window_aborts_the_match() {
    // window 8, frame 20: a misprediction at frame 5 is unrecoverable
    let mut s = running_session();
    for _ in 0..20 {
        s.tick(0).unwrap();
    }
    for f in 0..5u64 {
        assert!(!s.handle_confirmed_input(1, f, 0).unwrap());
    }
    let e = s.handle_confirmed_input(1, 5, INPUT_RIGHT).unwrap_err();
    assert_eq!(e, SimError::SnapshotEvicted(5));
    assert_eq!(s.phase(), SessionPhase::Terminated);
}
