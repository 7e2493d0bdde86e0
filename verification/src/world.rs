//! The world state: one player slot per dense handle, a growable list of
//! projectiles, and the mathematical view of both that the contracts
//! speak of.
use crate::config::{SimConfig, MAX_COORD};
use crate::fx::{Vec2Fx, UNIT};
use vstd::prelude::*;

verus! {

/// Which way a player faces; projectiles fire along it.
#[derive(Clone, Copy, PartialEq, Eq, Structural, Debug)]
pub enum GameDirection {
    Left,
    Right,
}

/// One player's rollback-relevant state. The handle is the index of the
/// slot that holds the player, so it is not repeated here.
#[derive(Clone, Copy, PartialEq, Eq, Structural, Debug)]
pub struct Player {
    /// Position in milli-units, confined to the arena.
    pub pos: Vec2Fx,
    /// The direction the player last moved toward, horizontally.
    pub facing: GameDirection,
    /// Readiness flag of the fire action: cleared on firing, reset when
    /// the fire input is released.
    pub bullet_ready: bool,
}

/// One projectile. It has no identity beyond existing-or-not and is
/// destroyed the frame a collision is detected.
#[derive(Clone, Copy, PartialEq, Eq, Structural, Debug)]
pub struct Bullet {
    /// Handle of the player that fired it.
    pub owner: usize,
    /// Position in milli-units.
    pub pos: Vec2Fx,
    /// Unit direction of travel, in milli-units.
    pub dir: Vec2Fx,
}

/// The mathematical value of a player: unbounded-integer coordinates.
pub struct PlayerV {
    pub pos_x: int,
    pub pos_y: int,
    pub facing: GameDirection,
    pub bullet_ready: bool,
}

/// The mathematical value of a projectile.
pub struct BulletV {
    pub owner: int,
    pub pos_x: int,
    pub pos_y: int,
    pub dir_x: int,
    pub dir_y: int,
}

/// The mathematical value of the world: a sequence of live-or-despawned
/// player slots keyed by handle, and a sequence of projectiles.
#[verifier::ext_equal]
pub struct WorldV {
    pub players: Seq<Option<PlayerV>>,
    pub bullets: Seq<BulletV>,
}

impl View for Player {
    type V = PlayerV;

    open spec fn view(&self) -> PlayerV {
        PlayerV {
            pos_x: self.pos.x as int,
            pos_y: self.pos.y as int,
            facing: self.facing,
            bullet_ready: self.bullet_ready,
        }
    }
}

impl View for Bullet {
    type V = BulletV;

    open spec fn view(&self) -> BulletV {
        BulletV {
            owner: self.owner as int,
            pos_x: self.pos.x as int,
            pos_y: self.pos.y as int,
            dir_x: self.dir.x as int,
            dir_y: self.dir.y as int,
        }
    }
}

/// The view of one player slot.
pub open spec fn slot_view(op: Option<Player>) -> Option<PlayerV> {
    match op {
        Some(p) => Some(p@),
        None => None,
    }
}

/// The view of a player-slot list.
pub open spec fn players_view(s: Seq<Option<Player>>) -> Seq<Option<PlayerV>> {
    s.map_values(|op: Option<Player>| slot_view(op))
}

/// The view of a projectile list.
pub open spec fn bullets_view(s: Seq<Bullet>) -> Seq<BulletV> {
    s.map_values(|b: Bullet| b@)
}

/// The world: explicit, indexed state instead of an engine's entity
/// store. Exactly one slot per handle; a despawned handle stays `None`
/// for the remainder of the match.
#[derive(Debug)]
pub struct World {
    pub players: Vec<Option<Player>>,
    pub bullets: Vec<Bullet>,
}

impl View for World {
    type V = WorldV;

    open spec fn view(&self) -> WorldV {
        WorldV { players: players_view(self.players@), bullets: bullets_view(self.bullets@) }
    }
}

/// A live player is inside the arena.
pub open spec fn wf_player(p: PlayerV, cfg: &SimConfig) -> bool {
    &&& -cfg.arena_half_extent <= p.pos_x <= cfg.arena_half_extent
    &&& -cfg.arena_half_extent <= p.pos_y <= cfg.arena_half_extent
}

/// A projectile is inside the representable coordinate range, travels in
/// a direction of at most unit magnitude per axis, and belongs to a
/// valid handle.
pub open spec fn wf_bullet(b: BulletV, cfg: &SimConfig) -> bool {
    &&& -MAX_COORD <= b.pos_x <= MAX_COORD
    &&& -MAX_COORD <= b.pos_y <= MAX_COORD
    &&& -(UNIT as int) <= b.dir_x <= UNIT as int
    &&& -(UNIT as int) <= b.dir_y <= UNIT as int
    &&& 0 <= b.owner < cfg.num_players
}

/// Well-formed world: one slot per expected handle, every live player
/// and projectile within bounds.
pub open spec fn wf_world(w: WorldV, cfg: &SimConfig) -> bool {
    &&& w.players.len() == cfg.num_players
    &&& forall|h: int|
        0 <= h < w.players.len() ==> match #[trigger] w.players[h] {
            Some(p) => wf_player(p, cfg),
            None => true,
        }
    &&& forall|j: int| 0 <= j < w.bullets.len() ==> wf_bullet(#[trigger] w.bullets[j], cfg)
}

/// The world the match starts from: one live player per handle at its
/// configured spawn point, facing the arena's center, ready to fire; no
/// projectiles.
pub open spec fn initial_world(cfg: &SimConfig) -> WorldV {
    WorldV {
        players: Seq::new(
            cfg.num_players as nat,
            |h: int|
                Some(
                    PlayerV {
                        pos_x: cfg.spawn_points@[h].x as int,
                        pos_y: cfg.spawn_points@[h].y as int,
                        facing: if cfg.spawn_points@[h].x <= 0 {
                            GameDirection::Right
                        } else {
                            GameDirection::Left
                        },
                        bullet_ready: true,
                    },
                ),
        ),
        bullets: Seq::empty(),
    }
}

/// Create the players when the match enters the running phase: one per
/// connected handle, at its spawn point, facing the arena's center.
pub fn spawn_players(cfg: &SimConfig) -> (w: World)
    requires
        cfg.wf(),
    ensures
        w@ == initial_world(cfg),
        wf_world(w@, cfg),
{
    let mut players: Vec<Option<Player>> = Vec::new();
    let n = cfg.num_players;
    let mut h: usize = 0;
    while h < n
        invariant
            cfg.wf(),
            n == cfg.num_players,
            h <= n,
            players@.len() == h,
            forall|i: int|
                0 <= i < h ==> slot_view(#[trigger] players@[i]) == initial_world(cfg).players[i],
        decreases n - h,
    {
        let sp = cfg.spawn_points[h];
        let facing = if sp.x <= 0 {
            GameDirection::Right
        } else {
            GameDirection::Left
        };
        players.push(Some(Player { pos: sp, facing, bullet_ready: true }));
        h = h + 1;
    }
    let w = World { players, bullets: Vec::new() };
    proof {
        assert(w@.players =~= initial_world(cfg).players);
        assert(w@.bullets =~= initial_world(cfg).bullets);
        assert(w@ =~= initial_world(cfg));
    }
    w
}

impl World {
    /// An exact copy, for snapshots.
    pub fn duplicate(&self) -> (w: World)
        ensures
            w@ == self@,
    {
        let mut players: Vec<Option<Player>> = Vec::new();
        let mut h: usize = 0;
        while h < self.players.len()
            invariant
                h <= self.players@.len(),
                players@.len() == h,
                forall|i: int| 0 <= i < h ==> #[trigger] players@[i] == self.players@[i],
            decreases self.players@.len() - h,
        {
            players.push(self.players[h]);
            h = h + 1;
        }
        let mut bullets: Vec<Bullet> = Vec::new();
        let mut j: usize = 0;
        while j < self.bullets.len()
            invariant
                j <= self.bullets@.len(),
                bullets@.len() == j,
                forall|i: int| 0 <= i < j ==> #[trigger] bullets@[i] == self.bullets@[i],
            decreases self.bullets@.len() - j,
        {
            bullets.push(self.bullets[j]);
            j = j + 1;
        }
        let w = World { players, bullets };
        proof {
            assert(w.players@ =~= self.players@);
            assert(w.bullets@ =~= self.bullets@);
            assert(w@ =~= self@);
        }
        w
    }
}

} // verus!
