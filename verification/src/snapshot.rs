//! The rollback buffer: a ring of world snapshots indexed by frame
//! number, bounded to the configured window depth — the farthest back a
//! rollback can reach.
//!
//! A snapshot tagged `f` holds the world at the start of frame `f`,
//! before that frame's inputs apply. Saving frame `f` reuses the slot
//! `f mod window`; the occupant it evicts is by construction the oldest
//! frame of that residue, so consecutive saving keeps exactly the last
//! `window` frames live.
use crate::config::{MAX_FRAME, MAX_WINDOW};
use crate::world::{World, WorldV};
use crate::SimError;
use vstd::pervasive::VecAdditionalExecFns;
use vstd::prelude::*;

verus! {

/// One saved frame: the frame number and the full world state at its
/// start.
struct Snapshot {
    frame: u64,
    world: World,
}

/// Ring buffer of world snapshots, keyed by frame modulo the window.
pub struct RollbackBuffer {
    window: usize,
    slots: Vec<Option<Snapshot>>,
    latest: Option<u64>,
    confirmed: u64,
}

impl RollbackBuffer {
    /// The configured window depth, in frames.
    pub closed spec fn window_spec(&self) -> int {
        self.window as int
    }

    /// The most recent frame ever saved, if any.
    pub closed spec fn latest_spec(&self) -> Option<u64> {
        self.latest
    }

    /// Frames below this are safely prunable: they were confirmed by all
    /// peers, so no rollback will ever target them.
    pub closed spec fn confirmed_spec(&self) -> u64 {
        self.confirmed
    }

    /// The retained snapshots: each stored frame mapped to its world.
    pub closed spec fn contents(&self) -> Map<u64, WorldV> {
        Map::new(
            |f: u64|
                match self.slots@[(f as int) % (self.window as int)] {
                    Some(s) => s.frame == f,
                    None => false,
                },
            |f: u64| self.slots@[(f as int) % (self.window as int)]->Some_0.world@,
        )
    }

    /// Buffer invariant: one slot per residue, every occupant stored in
    /// the slot of its own residue and no newer than the latest save.
    pub closed spec fn wf(&self) -> bool {
        &&& 1 <= self.window <= MAX_WINDOW
        &&& self.slots@.len() == self.window
        &&& match self.latest {
            Some(l) => l <= MAX_FRAME && forall|i: int|
                0 <= i < self.slots@.len() ==> match #[trigger] self.slots@[i] {
                    Some(s) => (s.frame as int) % (self.window as int) == i && s.frame <= l,
                    None => true,
                },
            None => forall|i: int| 0 <= i < self.slots@.len() ==> #[trigger] self.slots@[i] is None,
        }
    }

    /// The frame that will be the latest after saving `frame`.
    pub open spec fn new_latest(&self, frame: u64) -> u64 {
        match self.latest_spec() {
            Some(l) => if l >= frame {
                l
            } else {
                frame
            },
            None => frame,
        }
    }

    /// The frame currently occupying the slot that saving `frame` would
    /// reuse.
    pub closed spec fn occupant(&self, frame: u64) -> Option<u64> {
        match self.slots@[(frame as int) % (self.window as int)] {
            Some(s) => Some(s.frame),
            None => None,
        }
    }

    /// Saving `frame` would overwrite a distinct frame that is still
    /// inside the live window: the window was sized too small.
    pub open spec fn save_conflict(&self, frame: u64) -> bool {
        match self.occupant(frame) {
            Some(g) => g != frame && g as int + self.window_spec() > self.new_latest(frame) as int,
            None => false,
        }
    }

    /// Whether `frame` is within the live window `[latest - window + 1,
    /// latest]`.
    pub open spec fn in_live_window(&self, frame: u64) -> bool {
        match self.latest_spec() {
            Some(l) => frame <= l && frame as int + self.window_spec() > l as int,
            None => false,
        }
    }

    /// An empty buffer of the given depth.
    pub fn new(window: usize) -> (b: RollbackBuffer)
        requires
            1 <= window <= MAX_WINDOW,
        ensures
            b.wf(),
            b.window_spec() == window,
            b.latest_spec() is None,
            b.confirmed_spec() == 0,
            b.contents() == Map::<u64, WorldV>::empty(),
    {
        let mut slots: Vec<Option<Snapshot>> = Vec::new();
        let mut i: usize = 0;
        while i < window
            invariant
                i <= window,
                slots@.len() == i,
                forall|k: int| 0 <= k < i ==> #[trigger] slots@[k] is None,
            decreases window - i,
        {
            slots.push(None);
            i = i + 1;
        }
        let b = RollbackBuffer { window, slots, latest: None, confirmed: 0 };
        proof {
            assert(b.contents() =~= Map::<u64, WorldV>::empty());
        }
        b
    }

    /// Store the world at the start of `frame`, overwriting the slot
    /// `frame mod window`. If a distinct, not-yet-superseded frame still
    /// inside the live window occupies that slot, the window was sized
    /// too small: that is a fatal configuration error, reported and left
    /// unapplied rather than silently ignored.
    pub fn save(&mut self, frame: u64, state: &World) -> (r: Result<(), SimError>)
        requires
            old(self).wf(),
            frame <= MAX_FRAME,
        ensures
            final(self).wf(),
            final(self).window_spec() == old(self).window_spec(),
            final(self).confirmed_spec() == old(self).confirmed_spec(),
            r is Ok <==> !old(self).save_conflict(frame),
            r is Ok ==> {
                &&& final(self).latest_spec() == Some(old(self).new_latest(frame))
                &&& final(self).contents() == (match old(self).occupant(frame) {
                    Some(g) => old(self).contents().remove(g).insert(frame, state@),
                    None => old(self).contents().insert(frame, state@),
                })
            },
            r matches Err(e) ==> e == SimError::WindowConflict(frame) && *final(self) == *old(
                self,
            ),
    {
        let wname = self.window as u64;
        let idx = (frame % wname) as usize;
        let nl: u64 = match self.latest {
            Some(l) => if l >= frame {
                l
            } else {
                frame
            },
            None => frame,
        };
        match &self.slots[idx] {
            Some(s) => {
                if s.frame != frame && s.frame + wname > nl {
                    return Err(SimError::WindowConflict(frame));
                }
            },
            None => {},
        }
        self.slots.set(idx, Some(Snapshot { frame, world: state.duplicate() }));
        self.latest = Some(nl);
        proof {
            assert(final(self).contents() =~= (match old(self).occupant(frame) {
                Some(g) => old(self).contents().remove(g).insert(frame, state@),
                None => old(self).contents().insert(frame, state@),
            }));
        }
        Ok(())
    }

    /// Fetch the world at the start of `frame`. Fails with
    /// `SnapshotEvicted(frame)` exactly when `frame` lies outside the
    /// live window `[latest - window + 1, latest]` or was never saved.
    pub fn load(&self, frame: u64) -> (r: Result<World, SimError>)
        requires
            self.wf(),
        ensures
            r is Ok <==> self.in_live_window(frame) && self.contents().contains_key(frame),
            r matches Ok(w) ==> w@ == self.contents()[frame],
            r matches Err(e) ==> e == SimError::SnapshotEvicted(frame),
    {
        match self.latest {
            None => Err(SimError::SnapshotEvicted(frame)),
            Some(l) => {
                if frame > l || frame + (self.window as u64) <= l {
                    Err(SimError::SnapshotEvicted(frame))
                } else {
                    let idx = (frame % (self.window as u64)) as usize;
                    match &self.slots[idx] {
                        Some(s) => {
                            if s.frame == frame {
                                Ok(s.world.duplicate())
                            } else {
                                Err(SimError::SnapshotEvicted(frame))
                            }
                        },
                        None => Err(SimError::SnapshotEvicted(frame)),
                    }
                }
            },
        }
    }

    /// Mark every frame below `frame` as safely prunable: all peers
    /// confirmed their inputs up to there, so no rollback will target a
    /// frame below it and no resimulation need descend under it.
    pub fn confirm(&mut self, frame: u64)
        requires
            old(self).wf(),
        ensures
            final(self).wf(),
            final(self).window_spec() == old(self).window_spec(),
            final(self).latest_spec() == old(self).latest_spec(),
            final(self).contents() == old(self).contents(),
            final(self).confirmed_spec() == (if frame >= old(self).confirmed_spec() {
                frame
            } else {
                old(self).confirmed_spec()
            }),
    {
        if frame > self.confirmed {
            self.confirmed = frame;
        }
        proof {
            assert(final(self).contents() =~= old(self).contents());
        }
    }

    /// What a save conflict means in terms of the retained snapshots: a
    /// distinct retained frame of the same slot residue that is still
    /// inside the live window the save would establish.
    pub proof fn lemma_save_conflict_characterization(&self, frame: u64)
        requires
            self.wf(),
        ensures
            self.save_conflict(frame) <==> exists|g: u64|
                #[trigger] self.contents().dom().contains(g) && g != frame && (g as int)
                    % self.window_spec() == (frame as int) % self.window_spec() && g as int
                    + self.window_spec() > self.new_latest(frame) as int,
    {
        let w = self.window as int;
        if self.save_conflict(frame) {
            let g = self.occupant(frame)->Some_0;
            assert(self.contents().dom().contains(g));
        }
        if exists|g: u64|
            #[trigger] self.contents().dom().contains(g) && g != frame && (g as int)
                % self.window_spec() == (frame as int) % self.window_spec() && g as int
                + self.window_spec() > self.new_latest(frame) as int {
            let g = choose|g: u64|
                #[trigger] self.contents().dom().contains(g) && g != frame && (g as int)
                    % self.window_spec() == (frame as int) % self.window_spec() && g as int
                    + self.window_spec() > self.new_latest(frame) as int;
            assert(self.occupant(frame) == Some(g));
        }
    }

    /// The occupant of a slot is itself a retained frame of that slot's
    /// residue.
    pub proof fn lemma_occupant_in_contents(&self, frame: u64)
        requires
            self.wf(),
        ensures
            match self.occupant(frame) {
                Some(g) => self.contents().dom().contains(g) && (g as int) % self.window_spec() == (
                frame as int) % self.window_spec(),
                None => true,
            },
    {
    }

    /// Two retained frames in the same slot residue are the same frame.
    pub proof fn lemma_residue_unique(&self, g1: u64, g2: u64)
        requires
            self.wf(),
            self.contents().dom().contains(g1),
            self.contents().dom().contains(g2),
            (g1 as int) % self.window_spec() == (g2 as int) % self.window_spec(),
        ensures
            g1 == g2,
    {
    }

    /// The configured window depth.
    pub fn window(&self) -> (w: usize)
        requires
            self.wf(),
        ensures
            w == self.window_spec(),
    {
        self.window
    }

    /// The most recent frame ever saved, if any.
    pub fn latest_frame(&self) -> (r: Option<u64>)
        ensures
            r == self.latest_spec(),
    {
        self.latest
    }

    /// The confirmed-prunable horizon.
    pub fn confirmed_floor(&self) -> (r: u64)
        ensures
            r == self.confirmed_spec(),
    {
        self.confirmed
    }
}

} // verus!
