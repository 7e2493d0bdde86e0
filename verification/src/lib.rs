//! Deterministic lockstep rollback core for a two-player networked action
//! game.
//!
//! Every peer runs the same simulation. Local inputs are delayed by a few
//! frames and broadcast; remote inputs that have not arrived yet are
//! predicted by holding the peer's last confirmed input. The simulation
//! steps ahead speculatively, saving a snapshot of the world every frame.
//! When a confirmed remote input disagrees with the prediction that was
//! used, the session rolls back to the snapshot taken before the
//! mispredicted frame and resimulates forward with the corrected inputs.
//!
//! All world coordinates are fixed-point integers (milli-units, see
//! [`fx`]): cross-peer determinism forbids floating point, whose results
//! can differ between machines and environments.
use vstd::prelude::*;

pub mod config;
pub mod fx;
pub mod input;
pub mod session;
pub mod snapshot;
pub mod stepper;
pub mod world;

verus! {

/// The error kinds the core can surface.
///
/// Snapshot-integrity and internal-consistency errors are fatal to the
/// match: the core cannot correctly recover state, so the caller must
/// resynchronize or abort. Connection errors are recoverable at the
/// session level; the caller decides whether to keep predicting or to
/// tear the session down.
#[derive(Clone, Copy, PartialEq, Eq, Structural, Debug)]
pub enum SimError {
    /// A rollback or load targeted a frame older than the retained
    /// window: the window is undersized for the observed latency.
    SnapshotEvicted(u64),
    /// The transport reported loss of the peer with this handle.
    PeerDisconnected(usize),
    /// Matchmaking produced a mismatched or duplicate handle assignment.
    InvalidPlayerCount,
    /// Saving a snapshot would overwrite a distinct frame that is still
    /// inside the live window: a window-sizing failure.
    WindowConflict(u64),
    /// A stepped position left the representable coordinate range, the
    /// fixed-point analogue of a non-finite position. Never silently
    /// clamped, since divergent clamping could desynchronize peers.
    PositionOutOfRange,
}

} // verus!
