//! The externally supplied configuration surface.
//!
//! Input delay, rollback window depth, expected player count, arena
//! half-extent, movement and projectile speeds, player and projectile
//! radii and the spawn points are all parameters handed to the session
//! and the stepper, never constants wired into the core's logic.
use crate::fx::Vec2Fx;
use vstd::prelude::*;

verus! {

/// Largest admitted arena half-extent, in milli-units (2^28).
pub const MAX_ARENA: i64 = 0x1000_0000;

/// Largest admitted speed or radius, in milli-units (2^20).
pub const MAX_PARAM: i64 = 0x10_0000;

/// Largest coordinate a projectile may reach before the stepper reports
/// it out of range (2^29). Leaves `MAX_ARENA + 2 * MAX_PARAM` of headroom
/// above the arena, so spawning a projectile never exceeds it.
pub const MAX_COORD: i64 = 0x2000_0000;

/// Largest admitted rollback window depth or input delay, in frames.
pub const MAX_WINDOW: usize = 0x10_0000;

/// Largest frame number a session will count to (2^62).
pub const MAX_FRAME: u64 = 0x4000_0000_0000_0000;

/// Match parameters, agreed on by all peers out of band.
pub struct SimConfig {
    /// Expected player count; handles are the dense integers below it.
    pub num_players: usize,
    /// Frames of artificial latency before a local input is due.
    pub input_delay: usize,
    /// How many frames back a rollback can reach: the snapshot depth.
    pub window: usize,
    /// Players are confined to the symmetric box of this half-extent.
    pub arena_half_extent: i64,
    /// How far a player moves per frame, in milli-units.
    pub move_speed: i64,
    /// How far a projectile advances per frame, in milli-units.
    pub bullet_speed: i64,
    /// Collision radius of a player, in milli-units.
    pub player_radius: i64,
    /// Collision radius of a projectile, in milli-units.
    pub bullet_radius: i64,
    /// Where each handle's player starts, inside the arena.
    pub spawn_points: Vec<Vec2Fx>,
}

impl SimConfig {
    /// A usable configuration: every parameter within the machine limits
    /// the fixed-point arithmetic needs, one spawn point per handle.
    pub open spec fn wf(&self) -> bool {
        &&& 2 <= self.num_players
        &&& 1 <= self.window <= MAX_WINDOW
        &&& self.input_delay <= MAX_WINDOW
        &&& 0 < self.arena_half_extent <= MAX_ARENA
        &&& 0 <= self.move_speed <= MAX_PARAM
        &&& 0 <= self.bullet_speed <= MAX_PARAM
        &&& 0 < self.player_radius <= MAX_PARAM
        &&& 0 < self.bullet_radius <= MAX_PARAM
        &&& self.spawn_points@.len() == self.num_players
        &&& forall|i: int|
            0 <= i < self.spawn_points@.len() ==> {
                &&& -self.arena_half_extent <= #[trigger] self.spawn_points@[i].x
                    <= self.arena_half_extent
                &&& -self.arena_half_extent <= self.spawn_points@[i].y <= self.arena_half_extent
            }
    }
}

} // verus!
