//! The deterministic stepper: a pure function advancing the world by
//! exactly one frame from the per-player input symbols for that frame.
//!
//! The step runs a fixed, named, linear list of sub-phases, preserved
//! exactly for cross-peer determinism:
//!
//! 1. movement — decode each input to a direction, scale by the movement
//!    speed, add to the position, clamp to the arena;
//! 2. cooldown update — readiness returns whenever the fire input is not
//!    asserted (the button must be released before it can re-trigger);
//! 3. action resolution — a ready player whose fire bit is set spawns a
//!    projectile along its facing and loses readiness;
//! 4. projectile advance — every projectile moves by its direction times
//!    the projectile speed;
//! 5. collision resolution — every (player, projectile) pair is judged
//!    against the state at the start of the phase: a pair closer than
//!    the sum of the radii destroys the player, and a projectile within
//!    range of any live player is destroyed the same frame. The pairs
//!    are walked in fixed handle order, and because all of them are
//!    judged against the same state the order provably cannot change
//!    the outcome.
//!
//! No phase reads wall-clock time, random sources or the iteration order
//! of an unordered container: identical inputs against identical prior
//! state give bit-identical next state on every machine.
use crate::config::SimConfig;
use crate::fx::{clamp, clamp_spec, scaled, scaled_spec, UNIT};
use crate::input::{dir_x_of, dir_y_of, fires};
use crate::world::{
    bullets_view, players_view, slot_view, wf_bullet, wf_player, wf_world, Bullet, BulletV,
    GameDirection, Player, PlayerV, World, WorldV,
};
use crate::SimError;
use vstd::prelude::*;

verus! {

/// One player after the movement phase: position advanced by the decoded
/// direction scaled by the movement speed, clamped to the arena; facing
/// follows the horizontal component of actual movement. A zero decoded
/// direction leaves the player untouched.
pub open spec fn moved_player(p: PlayerV, sym: u8, cfg: &SimConfig) -> PlayerV {
    let dx = dir_x_of(sym);
    let dy = dir_y_of(sym);
    if dx == 0 && dy == 0 {
        p
    } else {
        PlayerV {
            pos_x: clamp_spec(
                p.pos_x + scaled_spec(dx, cfg.move_speed as int),
                cfg.arena_half_extent as int,
            ),
            pos_y: clamp_spec(
                p.pos_y + scaled_spec(dy, cfg.move_speed as int),
                cfg.arena_half_extent as int,
            ),
            facing: if dx > 0 {
                GameDirection::Right
            } else if dx < 0 {
                GameDirection::Left
            } else {
                p.facing
            },
            bullet_ready: p.bullet_ready,
        }
    }
}

/// Phase 1 on the whole world.
pub open spec fn move_spec(w: WorldV, ins: Seq<u8>, cfg: &SimConfig) -> WorldV {
    WorldV {
        players: Seq::new(
            w.players.len(),
            |h: int|
                match w.players[h] {
                    Some(p) => Some(moved_player(p, ins[h], cfg)),
                    None => None,
                },
        ),
        bullets: w.bullets,
    }
}

/// Phase 2 on the whole world: readiness returns exactly when the fire
/// bit is not asserted.
pub open spec fn reload_spec(w: WorldV, ins: Seq<u8>) -> WorldV {
    WorldV {
        players: Seq::new(
            w.players.len(),
            |h: int|
                match w.players[h] {
                    Some(p) => Some(
                        if !fires(ins[h]) {
                            PlayerV { bullet_ready: true, ..p }
                        } else {
                            p
                        },
                    ),
                    None => None,
                },
        ),
        bullets: w.bullets,
    }
}

/// Horizontal milli-component of the unit vector along a facing.
pub open spec fn facing_x(d: GameDirection) -> int {
    match d {
        GameDirection::Right => UNIT as int,
        GameDirection::Left => -(UNIT as int),
    }
}

/// How far from the player's center a projectile spawns: the sum of the
/// radii, signed by the facing, so the two shapes start exactly tangent.
pub open spec fn fire_offset(d: GameDirection, cfg: &SimConfig) -> int {
    match d {
        GameDirection::Right => cfg.player_radius + cfg.bullet_radius,
        GameDirection::Left => -(cfg.player_radius + cfg.bullet_radius),
    }
}

/// The projectile a player spawns: offset along the facing, oriented
/// along the facing.
pub open spec fn bullet_of(p: PlayerV, owner: int, cfg: &SimConfig) -> BulletV {
    BulletV {
        owner,
        pos_x: p.pos_x + fire_offset(p.facing, cfg),
        pos_y: p.pos_y,
        dir_x: facing_x(p.facing),
        dir_y: 0,
    }
}

/// Whether the slot fires this frame: a live player, fire bit set,
/// readiness still held.
pub open spec fn spawns_bullet(op: Option<PlayerV>, sym: u8) -> bool {
    match op {
        Some(p) => fires(sym) && p.bullet_ready,
        None => false,
    }
}

/// The players after phase 3: whoever fires loses readiness.
pub open spec fn fired_players(players: Seq<Option<PlayerV>>, ins: Seq<u8>) -> Seq<
    Option<PlayerV>,
> {
    Seq::new(
        players.len(),
        |h: int|
            match players[h] {
                Some(p) => Some(
                    if fires(ins[h]) && p.bullet_ready {
                        PlayerV { bullet_ready: false, ..p }
                    } else {
                        p
                    },
                ),
                None => None,
            },
    )
}

/// The projectiles spawned by the handles below `i`, in handle order.
pub open spec fn spawned_upto(
    players: Seq<Option<PlayerV>>,
    ins: Seq<u8>,
    cfg: &SimConfig,
    i: int,
) -> Seq<BulletV>
    decreases i,
{
    if i <= 0 {
        Seq::empty()
    } else {
        spawned_upto(players, ins, cfg, i - 1) + (if spawns_bullet(players[i - 1], ins[i - 1]) {
            seq![bullet_of(players[i - 1]->Some_0, i - 1, cfg)]
        } else {
            Seq::empty()
        })
    }
}

/// Phase 3 on the whole world: new projectiles are appended in handle
/// order after the existing ones.
pub open spec fn fire_spec(w: WorldV, ins: Seq<u8>, cfg: &SimConfig) -> WorldV {
    WorldV {
        players: fired_players(w.players, ins),
        bullets: w.bullets + spawned_upto(w.players, ins, cfg, w.players.len() as int),
    }
}

/// One projectile after phase 4.
pub open spec fn advanced_bullet(b: BulletV, cfg: &SimConfig) -> BulletV {
    BulletV {
        pos_x: b.pos_x + scaled_spec(b.dir_x, cfg.bullet_speed as int),
        pos_y: b.pos_y + scaled_spec(b.dir_y, cfg.bullet_speed as int),
        ..b
    }
}

/// Whether a projectile position stays representable.
pub open spec fn bullet_in_range(b: BulletV) -> bool {
    &&& -crate::config::MAX_COORD <= b.pos_x <= crate::config::MAX_COORD
    &&& -crate::config::MAX_COORD <= b.pos_y <= crate::config::MAX_COORD
}

/// Phase 4 keeps every coordinate representable.
pub open spec fn advance_ok(w: WorldV, cfg: &SimConfig) -> bool {
    forall|j: int|
        0 <= j < w.bullets.len() ==> bullet_in_range(advanced_bullet(#[trigger] w.bullets[j], cfg))
}

/// Phase 4 on the whole world.
pub open spec fn advance_spec(w: WorldV, cfg: &SimConfig) -> WorldV {
    WorldV { players: w.players, bullets: w.bullets.map_values(|b: BulletV| advanced_bullet(b, cfg)) }
}

/// Phase 1: decode each live player's input to a direction vector, scale
/// by the movement speed, add to the position, clamp to the arena. A
/// player whose decoded direction is zero does not move or turn.
pub fn move_players(w: &World, inputs: &Vec<u8>, cfg: &SimConfig) -> (r: World)
    requires
        cfg.wf(),
        wf_world(w@, cfg),
        inputs@.len() == cfg.num_players,
    ensures
        r@ == move_spec(w@, inputs@, cfg),
        wf_world(r@, cfg),
{
    let ghost target = move_spec(w@, inputs@, cfg);
    let mut players: Vec<Option<Player>> = Vec::new();
    let n = w.players.len();
    let mut h: usize = 0;
    while h < n
        invariant
            cfg.wf(),
            wf_world(w@, cfg),
            inputs@.len() == cfg.num_players,
            target == move_spec(w@, inputs@, cfg),
            n == w.players@.len(),
            h <= n,
            players@.len() == h,
            forall|i: int| 0 <= i < h ==> slot_view(#[trigger] players@[i]) == target.players[i],
        decreases n - h,
    {
        match w.players[h] {
            None => {
                players.push(None);
            },
            Some(p) => {
                let d = crate::input::direction(inputs[h]);
                proof {
                    crate::input::lemma_direction_bounded(inputs@[h as int]);
                    assert(w@.players[h as int] == Some(p@));
                    assert(wf_player(p@, cfg));
                }
                if d.x == 0 && d.y == 0 {
                    players.push(Some(p));
                } else {
                    let dx = scaled(d.x, cfg.move_speed);
                    let dy = scaled(d.y, cfg.move_speed);
                    let facing = if d.x > 0 {
                        GameDirection::Right
                    } else if d.x < 0 {
                        GameDirection::Left
                    } else {
                        p.facing
                    };
                    let np = Player {
                        pos: crate::fx::Vec2Fx {
                            x: clamp(p.pos.x + dx, cfg.arena_half_extent),
                            y: clamp(p.pos.y + dy, cfg.arena_half_extent),
                        },
                        facing,
                        bullet_ready: p.bullet_ready,
                    };
                    players.push(Some(np));
                }
            },
        }
        h = h + 1;
    }
    let r = World { players, bullets: copy_bullets(&w.bullets) };
    proof {
        assert(r@.players =~= target.players);
        assert(r@ =~= target);
    }
    r
}

/// Phase 2: a live player whose fire input is not asserted becomes ready
/// to fire again. Holding the button keeps readiness as it is, so a
/// press fires at most once until released.
pub fn reload_bullet(w: &World, inputs: &Vec<u8>, cfg: &SimConfig) -> (r: World)
    requires
        cfg.wf(),
        wf_world(w@, cfg),
        inputs@.len() == cfg.num_players,
    ensures
        r@ == reload_spec(w@, inputs@),
        wf_world(r@, cfg),
{
    let ghost target = reload_spec(w@, inputs@);
    let mut players: Vec<Option<Player>> = Vec::new();
    let n = w.players.len();
    let mut h: usize = 0;
    while h < n
        invariant
            cfg.wf(),
            wf_world(w@, cfg),
            inputs@.len() == cfg.num_players,
            target == reload_spec(w@, inputs@),
            n == w.players@.len(),
            h <= n,
            players@.len() == h,
            forall|i: int| 0 <= i < h ==> slot_view(#[trigger] players@[i]) == target.players[i],
        decreases n - h,
    {
        match w.players[h] {
            None => {
                players.push(None);
            },
            Some(p) => {
                if !crate::input::fire(inputs[h]) {
                    players.push(
                        Some(Player { pos: p.pos, facing: p.facing, bullet_ready: true }),
                    );
                } else {
                    players.push(Some(p));
                }
            },
        }
        h = h + 1;
    }
    let r = World { players, bullets: copy_bullets(&w.bullets) };
    proof {
        assert(r@.players =~= target.players);
        assert(r@ =~= target);
    }
    r
}

/// Every projectile spawned by well-formed players starts within the
/// representable range, tangent to its spawner.
proof fn lemma_spawned_wf(players: Seq<Option<PlayerV>>, ins: Seq<u8>, cfg: &SimConfig, i: int)
    requires
        cfg.wf(),
        players.len() == cfg.num_players,
        forall|h: int|
            0 <= h < players.len() ==> match #[trigger] players[h] {
                Some(p) => wf_player(p, cfg),
                None => true,
            },
        i <= players.len(),
    ensures
        forall|j: int|
            0 <= j < spawned_upto(players, ins, cfg, i).len() ==> wf_bullet(
                #[trigger] spawned_upto(players, ins, cfg, i)[j],
                cfg,
            ),
    decreases i,
{
    if i > 0 {
        lemma_spawned_wf(players, ins, cfg, i - 1);
        let pre = spawned_upto(players, ins, cfg, i - 1);
        let whole = spawned_upto(players, ins, cfg, i);
        assert forall|j: int| 0 <= j < whole.len() implies wf_bullet(
            #[trigger] whole[j],
            cfg,
        ) by {
            if j < pre.len() {
                assert(whole[j] == pre[j]);
            } else {
                assert(spawns_bullet(players[i - 1], ins[i - 1]));
                let p = players[i - 1]->Some_0;
                assert(wf_player(p, cfg));
                assert(whole[j] == bullet_of(p, i - 1, cfg));
            }
        }
    }
}

/// Phase 3: a live, ready player whose fire bit is set spawns a
/// projectile at its position offset along its facing by the sum of the
/// radii, oriented along the facing, and loses readiness until the
/// button is released.
pub fn fire_bullets(w: &World, inputs: &Vec<u8>, cfg: &SimConfig) -> (r: World)
    requires
        cfg.wf(),
        wf_world(w@, cfg),
        inputs@.len() == cfg.num_players,
    ensures
        r@ == fire_spec(w@, inputs@, cfg),
        wf_world(r@, cfg),
{
    let ghost target = fire_spec(w@, inputs@, cfg);
    let mut players: Vec<Option<Player>> = Vec::new();
    let mut bullets: Vec<Bullet> = copy_bullets(&w.bullets);
    proof {
        assert(bullets_view(bullets@) =~= w@.bullets + spawned_upto(
            w@.players,
            inputs@,
            cfg,
            0,
        ));
    }
    let n = w.players.len();
    let mut h: usize = 0;
    while h < n
        invariant
            cfg.wf(),
            wf_world(w@, cfg),
            inputs@.len() == cfg.num_players,
            n == w.players@.len(),
            h <= n,
            players@.len() == h,
            forall|i: int|
                0 <= i < h ==> slot_view(#[trigger] players@[i]) == fired_players(
                    w@.players,
                    inputs@,
                )[i],
            bullets_view(bullets@) == w@.bullets + spawned_upto(
                w@.players,
                inputs@,
                cfg,
                h as int,
            ),
        decreases n - h,
    {
        let ghost before = bullets_view(bullets@);
        match w.players[h] {
            None => {
                players.push(None);
                proof {
                    assert(spawned_upto(w@.players, inputs@, cfg, h + 1 as int) =~= spawned_upto(
                        w@.players,
                        inputs@,
                        cfg,
                        h as int,
                    ));
                }
            },
            Some(p) => {
                proof {
                    assert(w@.players[h as int] == Some(p@));
                    assert(wf_player(p@, cfg));
                }
                if crate::input::fire(inputs[h]) && p.bullet_ready {
                    let off = cfg.player_radius + cfg.bullet_radius;
                    let (bx, bdx): (i64, i64) = match p.facing {
                        GameDirection::Right => (p.pos.x + off, UNIT),
                        GameDirection::Left => (p.pos.x - off, -UNIT),
                    };
                    let nb = Bullet {
                        owner: h,
                        pos: crate::fx::Vec2Fx { x: bx, y: p.pos.y },
                        dir: crate::fx::Vec2Fx { x: bdx, y: 0 },
                    };
                    bullets.push(nb);
                    players.push(
                        Some(Player { pos: p.pos, facing: p.facing, bullet_ready: false }),
                    );
                    proof {
                        assert(bullets_view(bullets@) =~= before.push(nb@));
                        assert(spawned_upto(w@.players, inputs@, cfg, h + 1 as int)
                            =~= spawned_upto(w@.players, inputs@, cfg, h as int) + seq![
                            bullet_of(w@.players[h as int]->Some_0, h as int, cfg),
                        ]);
                        assert(bullets_view(bullets@) =~= w@.bullets + spawned_upto(
                            w@.players,
                            inputs@,
                            cfg,
                            h + 1 as int,
                        ));
                    }
                } else {
                    players.push(Some(p));
                    proof {
                        assert(spawned_upto(w@.players, inputs@, cfg, h + 1 as int)
                            =~= spawned_upto(w@.players, inputs@, cfg, h as int));
                    }
                }
            },
        }
        h = h + 1;
    }
    let r = World { players, bullets };
    proof {
        assert(r@.players =~= target.players);
        assert(r@ =~= target);
        lemma_spawned_wf(w@.players, inputs@, cfg, n as int);
    }
    r
}

/// Phase 4: advance every projectile by its direction scaled by the
/// projectile speed. A coordinate that would leave the representable
/// range is a fatal internal-consistency error, reported rather than
/// silently clamped, since divergent clamping could desynchronize peers.
pub fn move_bullet(w: &World, cfg: &SimConfig) -> (r: Result<World, SimError>)
    requires
        cfg.wf(),
        wf_world(w@, cfg),
    ensures
        r is Ok <==> advance_ok(w@, cfg),
        r matches Ok(nw) ==> nw@ == advance_spec(w@, cfg) && wf_world(nw@, cfg),
        r matches Err(e) ==> e == SimError::PositionOutOfRange,
{
    let mut bullets: Vec<Bullet> = Vec::new();
    let n = w.bullets.len();
    let mut j: usize = 0;
    while j < n
        invariant
            cfg.wf(),
            wf_world(w@, cfg),
            n == w.bullets@.len(),
            j <= n,
            bullets@.len() == j,
            forall|i: int|
                0 <= i < j ==> #[trigger] bullets@[i]@ == advanced_bullet(w@.bullets[i], cfg),
            forall|i: int|
                0 <= i < j ==> bullet_in_range(advanced_bullet(#[trigger] w@.bullets[i], cfg)),
        decreases n - j,
    {
        let b = w.bullets[j];
        proof {
            assert(w@.bullets[j as int] == b@);
            assert(wf_bullet(b@, cfg));
        }
        let dx = scaled(b.dir.x, cfg.bullet_speed);
        let dy = scaled(b.dir.y, cfg.bullet_speed);
        let nx = b.pos.x + dx;
        let ny = b.pos.y + dy;
        if nx < -crate::config::MAX_COORD || nx > crate::config::MAX_COORD || ny
            < -crate::config::MAX_COORD || ny > crate::config::MAX_COORD {
            proof {
                assert(!bullet_in_range(advanced_bullet(w@.bullets[j as int], cfg)));
            }
            return Err(SimError::PositionOutOfRange);
        }
        bullets.push(Bullet { owner: b.owner, pos: crate::fx::Vec2Fx { x: nx, y: ny }, dir: b.dir });
        j = j + 1;
    }
    let r = World { players: copy_players(&w.players), bullets };
    proof {
        assert(r@.players =~= advance_spec(w@, cfg).players);
        assert(r@.bullets =~= advance_spec(w@, cfg).bullets);
        assert(r@ =~= advance_spec(w@, cfg));
    }
    Ok(r)
}

/// An exact copy of a projectile list.
fn copy_bullets(bs: &Vec<Bullet>) -> (r: Vec<Bullet>)
    ensures
        r@ == bs@,
{
    let mut r: Vec<Bullet> = Vec::new();
    let mut j: usize = 0;
    while j < bs.len()
        invariant
            j <= bs@.len(),
            r@.len() == j,
            forall|i: int| 0 <= i < j ==> #[trigger] r@[i] == bs@[i],
        decreases bs@.len() - j,
    {
        r.push(bs[j]);
        j = j + 1;
    }
    proof {
        assert(r@ =~= bs@);
    }
    r
}

/// Whether a player and a projectile collide: the Euclidean distance
/// between their centers is below the sum of the radii, compared exactly
/// on squares so no peer ever rounds differently.
pub open spec fn hits(p: PlayerV, b: BulletV, cfg: &SimConfig) -> bool {
    let dx = p.pos_x - b.pos_x;
    let dy = p.pos_y - b.pos_y;
    let rr = cfg.player_radius + cfg.bullet_radius;
    dx * dx + dy * dy < rr * rr
}

/// Whether any projectile of the phase's initial state is within range
/// of the player.
pub open spec fn player_struck(p: PlayerV, bullets: Seq<BulletV>, cfg: &SimConfig) -> bool {
    exists|j: int| 0 <= j < bullets.len() && hits(p, #[trigger] bullets[j], cfg)
}

/// Whether the projectile is within range of any live player of the
/// phase's initial state.
pub open spec fn bullet_strikes(
    players: Seq<Option<PlayerV>>,
    b: BulletV,
    cfg: &SimConfig,
) -> bool {
    exists|h: int|
        0 <= h < players.len() && (#[trigger] players[h]) is Some && hits(
            players[h]->Some_0,
            b,
            cfg,
        )
}

/// The players after phase 5: a player within range of any projectile of
/// the initial state is destroyed.
pub open spec fn killed_players(
    players: Seq<Option<PlayerV>>,
    bullets: Seq<BulletV>,
    cfg: &SimConfig,
) -> Seq<Option<PlayerV>> {
    Seq::new(
        players.len(),
        |h: int|
            match players[h] {
                Some(p) => if player_struck(p, bullets, cfg) {
                    None
                } else {
                    Some(p)
                },
                None => None,
            },
    )
}

/// The projectiles below index `i` that struck no live player, in their
/// original order.
pub open spec fn surviving_upto(
    players: Seq<Option<PlayerV>>,
    bullets: Seq<BulletV>,
    cfg: &SimConfig,
    i: int,
) -> Seq<BulletV>
    decreases i,
{
    if i <= 0 {
        Seq::empty()
    } else {
        surviving_upto(players, bullets, cfg, i - 1) + (if bullet_strikes(
            players,
            bullets[i - 1],
            cfg,
        ) {
            Seq::empty()
        } else {
            seq![bullets[i - 1]]
        })
    }
}

/// Phase 5 on the whole world. Every (player, projectile) pair is judged
/// against the state at the start of the phase: a player within range of
/// any projectile is destroyed, and a projectile within range of any
/// live player is destroyed the same frame. One projectile therefore
/// destroys every player it overlaps, and iteration order cannot affect
/// the outcome.
pub open spec fn kill_spec(w: WorldV, cfg: &SimConfig) -> WorldV {
    WorldV {
        players: killed_players(w.players, w.bullets, cfg),
        bullets: surviving_upto(w.players, w.bullets, cfg, w.bullets.len() as int),
    }
}

/// Squares of bounded values are bounded.
proof fn lemma_square_bound(a: int, m: int)
    by (nonlinear_arith)
    requires
        -m <= a <= m,
    ensures
        0 <= a * a <= m * m,
{
}

/// Exact collision test on fixed-point squares.
fn bullet_hits(p: &Player, b: &Bullet, cfg: &SimConfig) -> (r: bool)
    requires
        cfg.wf(),
        wf_player(p@, cfg),
        wf_bullet(b@, cfg),
    ensures
        r == hits(p@, b@, cfg),
{
    let dx = p.pos.x - b.pos.x;
    let dy = p.pos.y - b.pos.y;
    let rr = cfg.player_radius + cfg.bullet_radius;
    proof {
        lemma_square_bound(dx as int, 0x3000_0000);
        lemma_square_bound(dy as int, 0x3000_0000);
        lemma_square_bound(rr as int, 0x20_0000);
    }
    dx * dx + dy * dy < rr * rr
}

/// Whether any projectile of the list is within range of the player.
fn struck_by_any(p: &Player, bullets: &Vec<Bullet>, cfg: &SimConfig) -> (r: bool)
    requires
        cfg.wf(),
        wf_player(p@, cfg),
        forall|i: int| 0 <= i < bullets@.len() ==> wf_bullet((#[trigger] bullets@[i])@, cfg),
    ensures
        r == player_struck(p@, bullets_view(bullets@), cfg),
{
    let n = bullets.len();
    let mut i: usize = 0;
    while i < n
        invariant
            cfg.wf(),
            wf_player(p@, cfg),
            forall|k: int| 0 <= k < bullets@.len() ==> wf_bullet((#[trigger] bullets@[k])@, cfg),
            n == bullets@.len(),
            i <= n,
            forall|k: int| 0 <= k < i ==> !hits(p@, #[trigger] bullets_view(bullets@)[k], cfg),
        decreases n - i,
    {
        if bullet_hits(p, &bullets[i], cfg) {
            proof {
                assert(hits(p@, bullets_view(bullets@)[i as int], cfg));
            }
            return true;
        }
        i = i + 1;
    }
    false
}

/// Whether the projectile is within range of any live player.
fn strikes_any(players: &Vec<Option<Player>>, b: &Bullet, cfg: &SimConfig) -> (r: bool)
    requires
        cfg.wf(),
        wf_bullet(b@, cfg),
        forall|h: int|
            0 <= h < players@.len() ==> match #[trigger] players@[h] {
                Some(p) => wf_player(p@, cfg),
                None => true,
            },
    ensures
        r == bullet_strikes(players_view(players@), b@, cfg),
{
    let n = players.len();
    let mut h: usize = 0;
    while h < n
        invariant
            cfg.wf(),
            wf_bullet(b@, cfg),
            forall|k: int|
                0 <= k < players@.len() ==> match #[trigger] players@[k] {
                    Some(p) => wf_player(p@, cfg),
                    None => true,
                },
            n == players@.len(),
            h <= n,
            forall|k: int|
                0 <= k < h ==> !((#[trigger] players_view(players@)[k]) is Some && hits(
                    players_view(players@)[k]->Some_0,
                    b@,
                    cfg,
                )),
        decreases n - h,
    {
        match players[h] {
            None => {
                proof {
                    assert(players_view(players@)[h as int] is None);
                }
            },
            Some(p) => {
                proof {
                    assert(players@[h as int] == Some(p));
                    assert(wf_player(p@, cfg));
                    assert(players_view(players@)[h as int] == Some(p@));
                }
                if bullet_hits(&p, b, cfg) {
                    return true;
                }
            },
        }
        h = h + 1;
    }
    false
}

/// Phase 5: resolve collisions and deaths. Every (player, projectile)
/// pair is evaluated against the state at the start of the phase, in a
/// fixed handle-ordered iteration whose order provably cannot affect the
/// outcome: a player within range of any projectile is destroyed, and a
/// projectile within range of any live player is destroyed the same
/// frame.
pub fn kill_players(w: &World, cfg: &SimConfig) -> (r: World)
    requires
        cfg.wf(),
        wf_world(w@, cfg),
    ensures
        r@ == kill_spec(w@, cfg),
        wf_world(r@, cfg),
{
    proof {
        assert forall|i: int| 0 <= i < w.bullets@.len() implies wf_bullet(
            (#[trigger] w.bullets@[i])@,
            cfg,
        ) by {
            assert(w@.bullets[i] == w.bullets@[i]@);
        }
        assert forall|h: int| 0 <= h < w.players@.len() implies match #[trigger] w.players@[h] {
            Some(p) => wf_player(p@, cfg),
            None => true,
        } by {
            assert(w@.players[h] == slot_view(w.players@[h]));
        }
    }
    let mut players: Vec<Option<Player>> = Vec::new();
    let np = w.players.len();
    let mut h: usize = 0;
    while h < np
        invariant
            cfg.wf(),
            wf_world(w@, cfg),
            forall|i: int| 0 <= i < w.bullets@.len() ==> wf_bullet((#[trigger] w.bullets@[i])@, cfg),
            np == w.players@.len(),
            h <= np,
            players@.len() == h,
            forall|i: int|
                0 <= i < h ==> slot_view(#[trigger] players@[i]) == killed_players(
                    w@.players,
                    w@.bullets,
                    cfg,
                )[i],
        decreases np - h,
    {
        match w.players[h] {
            None => {
                players.push(None);
            },
            Some(p) => {
                proof {
                    assert(w@.players[h as int] == Some(p@));
                    assert(wf_player(p@, cfg));
                }
                if struck_by_any(&p, &w.bullets, cfg) {
                    players.push(None);
                } else {
                    players.push(Some(p));
                }
            },
        }
        h = h + 1;
    }
    let mut bullets: Vec<Bullet> = Vec::new();
    let nb = w.bullets.len();
    let mut j: usize = 0;
    while j < nb
        invariant
            cfg.wf(),
            wf_world(w@, cfg),
            forall|k: int|
                0 <= k < w.players@.len() ==> match #[trigger] w.players@[k] {
                    Some(p) => wf_player(p@, cfg),
                    None => true,
                },
            nb == w.bullets@.len(),
            j <= nb,
            bullets_view(bullets@) == surviving_upto(w@.players, w@.bullets, cfg, j as int),
        decreases nb - j,
    {
        let b = w.bullets[j];
        proof {
            assert(w@.bullets[j as int] == b@);
            assert(wf_bullet(b@, cfg));
        }
        let ghost before = bullets_view(bullets@);
        if strikes_any(&w.players, &b, cfg) {
            proof {
                assert(surviving_upto(w@.players, w@.bullets, cfg, j + 1 as int) =~= before);
            }
        } else {
            bullets.push(b);
            proof {
                assert(bullets_view(bullets@) =~= before.push(b@));
                assert(surviving_upto(w@.players, w@.bullets, cfg, j + 1 as int) =~= before.push(
                    b@,
                ));
            }
        }
        j = j + 1;
    }
    let r = World { players, bullets };
    proof {
        assert(r@.players =~= kill_spec(w@, cfg).players);
        assert(r@.bullets =~= kill_spec(w@, cfg).bullets);
        assert(r@ =~= kill_spec(w@, cfg));
        lemma_surviving_wf(w@.players, w@.bullets, cfg, nb as int);
        assert forall|i: int| 0 <= i < r@.players.len() implies match #[trigger] r@.players[i] {
            Some(p) => wf_player(p, cfg),
            None => true,
        } by {
            if r@.players[i] is Some {
                assert(w@.players[i] == Some(r@.players[i]->Some_0));
            }
        }
    }
    r
}

/// Surviving projectiles of a well-formed list stay well-formed.
proof fn lemma_surviving_wf(
    players: Seq<Option<PlayerV>>,
    bullets: Seq<BulletV>,
    cfg: &SimConfig,
    i: int,
)
    requires
        forall|j: int| 0 <= j < bullets.len() ==> wf_bullet(#[trigger] bullets[j], cfg),
        i <= bullets.len(),
    ensures
        forall|j: int|
            0 <= j < surviving_upto(players, bullets, cfg, i).len() ==> wf_bullet(
                #[trigger] surviving_upto(players, bullets, cfg, i)[j],
                cfg,
            ),
    decreases i,
{
    if i > 0 {
        lemma_surviving_wf(players, bullets, cfg, i - 1);
        let pre = surviving_upto(players, bullets, cfg, i - 1);
        let whole = surviving_upto(players, bullets, cfg, i);
        assert forall|j: int| 0 <= j < whole.len() implies wf_bullet(#[trigger] whole[j], cfg) by {
            if j < pre.len() {
                assert(whole[j] == pre[j]);
            } else {
                assert(whole[j] == bullets[i - 1]);
            }
        }
    }
}

/// The world after one whole frame: the five sub-phases in their fixed
/// order.
pub open spec fn step_spec(w: WorldV, ins: Seq<u8>, cfg: &SimConfig) -> WorldV {
    kill_spec(advance_spec(fire_spec(reload_spec(move_spec(w, ins, cfg), ins), ins, cfg), cfg), cfg)
}

/// Whether the frame keeps every projectile coordinate representable.
pub open spec fn step_ok(w: WorldV, ins: Seq<u8>, cfg: &SimConfig) -> bool {
    advance_ok(fire_spec(reload_spec(move_spec(w, ins, cfg), ins), ins, cfg), cfg)
}

/// Advance the world by exactly one frame given the per-player input
/// symbols for that frame. A pure function of the previous state and the
/// inputs alone: identical inputs against identical prior state produce
/// identical next state on every peer, independent of wall-clock time or
/// execution environment.
pub fn step(w: &World, inputs: &Vec<u8>, cfg: &SimConfig) -> (r: Result<World, SimError>)
    requires
        cfg.wf(),
        wf_world(w@, cfg),
        inputs@.len() == cfg.num_players,
    ensures
        r is Ok <==> step_ok(w@, inputs@, cfg),
        r matches Ok(nw) ==> nw@ == step_spec(w@, inputs@, cfg) && wf_world(nw@, cfg),
        r matches Err(e) ==> e == SimError::PositionOutOfRange,
{
    let w1 = move_players(w, inputs, cfg);
    let w2 = reload_bullet(&w1, inputs, cfg);
    let w3 = fire_bullets(&w2, inputs, cfg);
    match move_bullet(&w3, cfg) {
        Ok(w4) => Ok(kill_players(&w4, cfg)),
        Err(e) => Err(e),
    }
}

/// The world after stepping a whole sequence of frames, oldest first.
pub open spec fn run_spec(w: WorldV, frames: Seq<Seq<u8>>, cfg: &SimConfig) -> WorldV
    decreases frames.len(),
{
    if frames.len() == 0 {
        w
    } else {
        run_spec(step_spec(w, frames[0], cfg), frames.skip(1), cfg)
    }
}

/// Whether every frame of the sequence keeps coordinates representable.
pub open spec fn run_ok(w: WorldV, frames: Seq<Seq<u8>>, cfg: &SimConfig) -> bool
    decreases frames.len(),
{
    if frames.len() == 0 {
        true
    } else {
        step_ok(w, frames[0], cfg) && run_ok(step_spec(w, frames[0], cfg), frames.skip(1), cfg)
    }
}

/// Step a sequence of frames, oldest first: the resimulation engine a
/// rollback runs.
pub fn run_frames(w: &World, frames: &Vec<Vec<u8>>, cfg: &SimConfig) -> (r: Result<
    World,
    SimError,
>)
    requires
        cfg.wf(),
        wf_world(w@, cfg),
        forall|i: int| 0 <= i < frames@.len() ==> (#[trigger] frames@[i])@.len() == cfg.num_players,
    ensures
        r is Ok <==> run_ok(w@, frames.deep_view(), cfg),
        r matches Ok(nw) ==> nw@ == run_spec(w@, frames.deep_view(), cfg) && wf_world(nw@, cfg),
        r matches Err(e) ==> e == SimError::PositionOutOfRange,
{
    let ghost dv = frames.deep_view();
    proof {
        assert forall|i: int| 0 <= i < dv.len() implies #[trigger] dv[i] == frames@[i]@ by {}
    }
    let mut cur = w.duplicate();
    proof {
        assert(dv.skip(0) =~= dv);
    }
    let n = frames.len();
    let mut i: usize = 0;
    while i < n
        invariant
            cfg.wf(),
            wf_world(cur@, cfg),
            n == frames@.len(),
            dv == frames.deep_view(),
            dv.len() == n,
            forall|k: int| 0 <= k < dv.len() ==> #[trigger] dv[k] == frames@[k]@,
            forall|k: int|
                0 <= k < frames@.len() ==> (#[trigger] frames@[k])@.len() == cfg.num_players,
            i <= n,
            run_spec(w@, dv, cfg) == run_spec(cur@, dv.skip(i as int), cfg),
            run_ok(w@, dv, cfg) == run_ok(cur@, dv.skip(i as int), cfg),
        decreases n - i,
    {
        let ghost rest = dv.skip(i as int);
        proof {
            assert(rest[0] == dv[i as int]);
            assert(rest.skip(1) =~= dv.skip(i + 1 as int));
        }
        match step(&cur, &frames[i], cfg) {
            Ok(nw) => {
                cur = nw;
            },
            Err(e) => {
                proof {
                    assert(!step_ok(cur@, dv[i as int], cfg));
                    assert(!run_ok(cur@, rest, cfg));
                }
                return Err(e);
            },
        }
        i = i + 1;
    }
    proof {
        assert(dv.skip(n as int) =~= Seq::<Seq<u8>>::empty());
    }
    Ok(cur)
}

/// Law (determinism): stepping any world state through any input
/// sequence is a mathematical function of that state and those inputs
/// alone. Two computations from equal states with equal input sequences
/// agree exactly, whichever machine runs them; the executable `step` and
/// `run_frames` return exactly these spec values, so every execution is
/// pinned to the same result.
pub proof fn lemma_run_deterministic(
    w1: WorldV,
    w2: WorldV,
    frames1: Seq<Seq<u8>>,
    frames2: Seq<Seq<u8>>,
    cfg: &SimConfig,
)
    requires
        w1 == w2,
        frames1 == frames2,
    ensures
        run_spec(w1, frames1, cfg) == run_spec(w2, frames2, cfg),
{
}

/// Running a concatenation of input sequences equals running the parts
/// in order.
pub proof fn lemma_run_concat(w: WorldV, a: Seq<Seq<u8>>, b: Seq<Seq<u8>>, cfg: &SimConfig)
    ensures
        run_spec(w, a + b, cfg) == run_spec(run_spec(w, a, cfg), b, cfg),
    decreases a.len(),
{
    if a.len() == 0 {
        assert(a + b =~= b);
    } else {
        assert((a + b)[0] == a[0]);
        assert((a + b).skip(1) =~= a.skip(1) + b);
        lemma_run_concat(step_spec(w, a[0], cfg), a.skip(1), b, cfg);
    }
}

/// Appending one frame to a run steps the run's result once.
pub proof fn lemma_run_snoc(w: WorldV, frames: Seq<Seq<u8>>, ins: Seq<u8>, cfg: &SimConfig)
    ensures
        run_spec(w, frames.push(ins), cfg) == step_spec(run_spec(w, frames, cfg), ins, cfg),
    decreases frames.len(),
{
    if frames.len() == 0 {
        reveal_with_fuel(run_spec, 2);
        assert(frames.push(ins)[0] == ins);
        assert(frames.push(ins).skip(1) =~= Seq::<Seq<u8>>::empty());
    } else {
        assert(frames.push(ins)[0] == frames[0]);
        assert(frames.push(ins).skip(1) =~= frames.skip(1).push(ins));
        lemma_run_snoc(step_spec(w, frames[0], cfg), frames.skip(1), ins, cfg);
    }
}

/// Law (despawn permanence): a handle whose player was destroyed stays
/// destroyed — no later frame recreates it.
pub proof fn lemma_despawn_permanent(w: WorldV, ins: Seq<u8>, cfg: &SimConfig, h: int)
    requires
        0 <= h < w.players.len(),
        w.players[h] is None,
    ensures
        step_spec(w, ins, cfg).players.len() == w.players.len(),
        step_spec(w, ins, cfg).players[h] is None,
{
    let after_fire = fire_spec(reload_spec(move_spec(w, ins, cfg), ins), ins, cfg);
    let after_adv = advance_spec(after_fire, cfg);
    assert(after_adv.players[h] is None);
}

/// Law (rollback equivalence): stepping directly with corrected inputs
/// for the frames from `k` on, starting from the state reached after the
/// first `k` predicted frames, equals stepping the whole corrected
/// sequence from the start — provided the prediction agreed with the
/// correction on every frame before `k`. Rolling back to the snapshot
/// taken before frame `k` and resimulating therefore reproduces exactly
/// the world that stepping the true inputs from the beginning would have
/// produced.
pub proof fn lemma_rollback_equivalence(
    w0: WorldV,
    predicted: Seq<Seq<u8>>,
    corrected: Seq<Seq<u8>>,
    k: int,
    cfg: &SimConfig,
)
    requires
        0 <= k <= corrected.len(),
        predicted.len() == corrected.len(),
        forall|i: int| 0 <= i < k ==> predicted[i] == corrected[i],
    ensures
        run_spec(run_spec(w0, predicted.take(k), cfg), corrected.skip(k), cfg) == run_spec(
            w0,
            corrected,
            cfg,
        ),
{
    assert(predicted.take(k) =~= corrected.take(k));
    lemma_run_concat(w0, corrected.take(k), corrected.skip(k), cfg);
    assert(corrected.take(k) + corrected.skip(k) =~= corrected);
}

/// An exact copy of a player-slot list.
fn copy_players(ps: &Vec<Option<Player>>) -> (r: Vec<Option<Player>>)
    ensures
        r@ == ps@,
{
    let mut r: Vec<Option<Player>> = Vec::new();
    let mut j: usize = 0;
    while j < ps.len()
        invariant
            j <= ps@.len(),
            r@.len() == j,
            forall|i: int| 0 <= i < j ==> #[trigger] r@[i] == ps@[i],
        decreases ps@.len() - j,
    {
        r.push(ps[j]);
        j = j + 1;
    }
    proof {
        assert(r@ =~= ps@);
    }
    r
}

} // verus!
