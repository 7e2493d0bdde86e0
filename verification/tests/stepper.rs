use rollback_core::config::SimConfig;
use rollback_core::fx::Vec2Fx;
use rollback_core::input::{INPUT_LP, INPUT_RIGHT, INPUT_UP};
use rollback_core::stepper::{
    fire_bullets, kill_players, move_bullet, reload_bullet, run_frames, step,
};
use rollback_core::world::{Bullet, GameDirection, Player, World};
use rollback_core::SimError;

fn arena_config() -> SimConfig {
    SimConfig {
        num_players: 2,
        input_delay: 2,
        window: 8,
        arena_half_extent: 20_000,
        move_speed: 130,
        bullet_speed: 350,
        player_radius: 500,
        bullet_radius: 25,
        spawn_points: vec![Vec2Fx { x: -2000, y: 0 }, Vec2Fx { x: 2000, y: 0 }],
    }
}

fn two_players(p0: Vec2Fx, p1: Vec2Fx) -> World {
    World {
        players: vec![
            Some(Player { pos: p0, facing: GameDirection::Right, bullet_ready: true }),
            Some(Player { pos: p1, facing: GameDirection::Left, bullet_ready: true }),
        ],
        bullets: Vec::new(),
    }
}

#[test]
fn movement_scenario() {
    // player at (-2, 0), speed 0.13 per frame, RIGHT held one frame
    let cfg = arena_config();
    let w = two_players(Vec2Fx { x: -2000, y: 0 }, Vec2Fx { x: 2000, y: 0 });
    let inputs = vec![INPUT_RIGHT, 0];
    let w2 = step(&w, &inputs, &cfg).unwrap();
    let p0 = w2.players[0].unwrap();
    assert_eq!((p0.pos.x, p0.pos.y), (-1870, 0));
    // the idle player did not move
    let p1 = w2.players[1].unwrap();
    assert_eq!((p1.pos.x, p1.pos.y), (2000, 0));
}

#[test]
fn movement_clamps_to_arena() {
    let cfg = arena_config();
    let w = two_players(Vec2Fx { x: 19_950, y: 0 }, Vec2Fx { x: 0, y: 0 });
    let inputs = vec![INPUT_RIGHT, 0];
    let w2 = step(&w, &inputs, &cfg).unwrap();
    assert_eq!(w2.players[0].unwrap().pos.x, 20_000);
}

#[test]
fn fire_scenario() {
    // player at (-2, 0) facing right, ready, fire held: one projectile at
    // (-2 + 0.525, 0), readiness cleared; holding fire does not re-fire
    let cfg = arena_config();
    let w = two_players(Vec2Fx { x: -2000, y: 0 }, Vec2Fx { x: 2000, y: 0 });
    let inputs = vec![INPUT_RIGHT | INPUT_LP, 0];
    let w2 = fire_bullets(&w, &inputs, &cfg);
    assert_eq!(w2.bullets.len(), 1);
    let b = w2.bullets[0];
    assert_eq!((b.pos.x, b.pos.y), (-1475, 0));
    assert_eq!((b.dir.x, b.dir.y), (1000, 0));
    assert_eq!(b.owner, 0);
    assert!(!w2.players[0].unwrap().bullet_ready);

    // a second frame with the button still held: reload keeps readiness
    // off, so no second projectile spawns
    let w3 = reload_bullet(&w2, &inputs, &cfg);
    assert!(!w3.players[0].unwrap().bullet_ready);
    let w4 = fire_bullets(&w3, &inputs, &cfg);
    assert_eq!(w4.bullets.len(), 1);

    // releasing the button restores readiness
    let released = vec![0, 0];
    let w5 = reload_bullet(&w4, &released, &cfg);
    assert!(w5.players[0].unwrap().bullet_ready);
}

#[test]
fn collision_scenario() {
    // player at origin, radius 0.5; projectile radius 0.025 approaches
    // along x at 0.35 per frame; the player dies the first frame the
    // distance drops below 0.525
    let cfg = arena_config();
    let mut w = World {
        players: vec![
            Some(Player {
                pos: Vec2Fx { x: 0, y: 0 },
                facing: GameDirection::Right,
                bullet_ready: true,
            }),
            Some(Player {
                pos: Vec2Fx { x: 15_000, y: 15_000 },
                facing: GameDirection::Left,
                bullet_ready: true,
            }),
        ],
        bullets: vec![Bullet {
            owner: 1,
            pos: Vec2Fx { x: -2000, y: 0 },
            dir: Vec2Fx { x: 1000, y: 0 },
        }],
    };
    let idle = vec![0, 0];
    // distances after each advance: 1650, 1300, 950, 600 — all >= 525
    for frame in 0..4 {
        w = step(&w, &idle, &cfg).unwrap();
        assert!(w.players[0].is_some(), "player died too early, frame {}", frame);
        assert_eq!(w.bullets.len(), 1);
    }
    // next advance puts the projectile at distance 250 < 525
    w = step(&w, &idle, &cfg).unwrap();
    assert!(w.players[0].is_none());
    // the projectile is destroyed the frame the collision is detected
    assert!(w.bullets.is_empty());
    // the other player survived
    assert!(w.players[1].is_some());
}

#[test]
fn one_projectile_destroys_every_player_in_range() {
    // both players are within 0.525 of the same projectile: collision is
    // judged for every pair against the state at the start of the phase,
    // so both die and the projectile is destroyed
    let cfg = arena_config();
    let w = World {
        players: vec![
            Some(Player {
                pos: Vec2Fx { x: 0, y: 0 },
                facing: GameDirection::Right,
                bullet_ready: true,
            }),
            Some(Player {
                pos: Vec2Fx { x: 400, y: 0 },
                facing: GameDirection::Left,
                bullet_ready: true,
            }),
        ],
        bullets: vec![Bullet {
            owner: 0,
            pos: Vec2Fx { x: 200, y: 0 },
            dir: Vec2Fx { x: 1000, y: 0 },
        }],
    };
    let w2 = kill_players(&w, &cfg);
    assert!(w2.players[0].is_none());
    assert!(w2.players[1].is_none());
    assert!(w2.bullets.is_empty());
}

#[test]
fn despawned_player_stays_despawned() {
    let cfg = arena_config();
    let w = World {
        players: vec![
            None,
            Some(Player {
                pos: Vec2Fx { x: 2000, y: 0 },
                facing: GameDirection::Left,
                bullet_ready: true,
            }),
        ],
        bullets: Vec::new(),
    };
    let inputs = vec![INPUT_RIGHT | INPUT_LP, 0];
    let w2 = step(&w, &inputs, &cfg).unwrap();
    assert!(w2.players[0].is_none());
    assert!(w2.bullets.is_empty());
}

fn worlds_equal(a: &World, b: &World) -> bool {
    a.players == b.players && a.bullets == b.bullets
}

#[test]
fn identical_runs_agree() {
    // determinism on concrete values: two independent runs of the same
    // input sequence from the same state give identical worlds
    let cfg = arena_config();
    let w = two_players(Vec2Fx { x: -2000, y: 0 }, Vec2Fx { x: 2000, y: 0 });
    let frames: Vec<Vec<u8>> = vec![
        vec![INPUT_RIGHT, 0],
        vec![INPUT_RIGHT | INPUT_LP, INPUT_LP],
        vec![0, INPUT_LP],
        vec![INPUT_UP, INPUT_RIGHT],
        vec![INPUT_RIGHT | INPUT_LP, 0],
    ];
    let a = run_frames(&w, &frames, &cfg).unwrap();
    let b = run_frames(&w, &frames, &cfg).unwrap();
    assert!(worlds_equal(&a, &b));
}

#[test]
fn rollback_resimulation_matches_direct_run() {
    // stepping predicted inputs, then resimulating from the frame-3
    // snapshot with corrected inputs, equals the direct corrected run
    let cfg = arena_config();
    let w = two_players(Vec2Fx { x: -2000, y: 0 }, Vec2Fx { x: 2000, y: 0 });
    let predicted: Vec<Vec<u8>> = vec![
        vec![INPUT_RIGHT, 0],
        vec![INPUT_RIGHT, 0],
        vec![INPUT_RIGHT, 0],
        vec![INPUT_RIGHT, 0],
        vec![INPUT_RIGHT, 0],
        vec![INPUT_RIGHT, 0],
    ];
    let mut corrected = predicted.clone();
    corrected[3] = vec![INPUT_RIGHT, INPUT_RIGHT];
    corrected[4] = vec![INPUT_RIGHT, INPUT_RIGHT];

    // snapshot before frame 3: agreed prefix, so predicted inputs serve
    let snapshot = run_frames(&w, &predicted[..3].to_vec(), &cfg).unwrap();
    let resimulated = run_frames(&snapshot, &corrected[3..].to_vec(), &cfg).unwrap();
    let direct = run_frames(&w, &corrected, &cfg).unwrap();
    assert!(worlds_equal(&resimulated, &direct));
}

#[test]
fn projectile_out_of_range_is_reported() {
    // a projectile that leaves the representable coordinate range is a
    // fatal internal-consistency error, not a silent clamp
    let cfg = SimConfig {
        num_players: 2,
        input_delay: 0,
        window: 2,
        arena_half_extent: 0x1000_0000,
        move_speed: 0,
        bullet_speed: 0x10_0000,
        player_radius: 500,
        bullet_radius: 25,
        spawn_points: vec![Vec2Fx { x: 0, y: 0 }, Vec2Fx { x: 0x1000_0000, y: 0 }],
    };
    let mut w = World {
        players: vec![
            Some(Player {
                pos: Vec2Fx { x: 0, y: 0 },
                facing: GameDirection::Right,
                bullet_ready: true,
            }),
            Some(Player {
                pos: Vec2Fx { x: 0x1000_0000, y: 0 },
                facing: GameDirection::Right,
                bullet_ready: true,
            }),
        ],
        bullets: vec![Bullet {
            owner: 1,
            pos: Vec2Fx { x: 0x1000_0000, y: 0 },
            dir: Vec2Fx { x: 1000, y: 0 },
        }],
    };
    let idle = vec![0, 0];
    let mut failed = false;
    for _ in 0..300 {
        match move_bullet(&w, &cfg) {
            Ok(next) => {
                w = next;
            },
            Err(e) => {
                assert_eq!(e, SimError::PositionOutOfRange);
                failed = true;
                break;
            },
        }
    }
    assert!(failed);
}
