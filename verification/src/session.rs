//! The session: per-peer confirmed/predicted input tracking and the
//! orchestration of codec, stepper and rollback buffer across a match's
//! lifetime.
//!
//! The lifecycle is `Matchmaking -> Synchronizing -> Running ->
//! Terminated`, with guarded transitions. While running, every local
//! tick samples one encoded local input, schedules it `input_delay`
//! frames ahead, steps the world with confirmed-or-predicted inputs for
//! the current frame, and saves a snapshot. A confirmed remote input
//! that disagrees with the prediction that was used triggers a rollback:
//! the snapshot from just before the mispredicted frame is loaded and
//! the stepper re-runs every frame up to the present with the corrected
//! inputs, overwriting the affected snapshots.
use crate::config::{SimConfig, MAX_FRAME};
use crate::snapshot::RollbackBuffer;
use crate::stepper::{run_ok, run_spec, step_ok, step_spec};
use crate::world::{initial_world, spawn_players, wf_world, World, WorldV};
use crate::SimError;
use vstd::pervasive::VecAdditionalExecFns;
use vstd::prelude::*;

verus! {

/// Where the session stands in the match lifecycle.
#[derive(Clone, Copy, PartialEq, Eq, Structural, Debug)]
pub enum SessionPhase {
    /// Accumulating peer connections until the expected player count.
    Matchmaking,
    /// Exchanging the initial handshake that agrees on starting frame 0.
    Synchronizing,
    /// Ticking, predicting and rolling back.
    Running,
    /// Torn down deliberately or after unrecoverable peer loss.
    Terminated,
}

/// The local player handle, modelled explicitly so that the unassigned
/// state is a value with defined (no-op) behavior, not an absent
/// resource.
#[derive(Clone, Copy, PartialEq, Eq, Structural, Debug)]
pub enum LocalHandle {
    Unassigned,
    Assigned(usize),
}

/// One remote peer: identity, handle, handshake and connection state,
/// and every input symbol confirmed so far, in frame order.
pub struct PeerConnection {
    /// Opaque transport identity of the remote end.
    pub id: u64,
    /// The player handle this peer drives.
    pub handle: usize,
    /// Whether the starting-frame handshake was acknowledged.
    pub acked: bool,
    /// Whether the transport still reports the peer connected.
    pub connected: bool,
    /// Confirmed inputs: `confirmed[f]` is authoritative for frame `f`;
    /// its length is the highest confirmed frame count received.
    pub confirmed: Vec<u8>,
}

/// The first index at or after `i` of the peer driving `handle`, or -1.
pub open spec fn peer_index(peers: Seq<PeerConnection>, handle: int, i: int) -> int
    decreases peers.len() - i,
{
    if i < 0 || i >= peers.len() {
        -1
    } else if peers[i].handle == handle {
        i
    } else {
        peer_index(peers, handle, i + 1)
    }
}

/// The peer's confirmed input for frame `j` if it has one, else the
/// hold-last-input prediction: its most recent confirmed symbol, or the
/// idle symbol before anything was confirmed.
pub open spec fn peer_sym(peers: Seq<PeerConnection>, handle: int, j: int) -> u8 {
    let pi = peer_index(peers, handle, 0);
    if pi < 0 {
        0u8
    } else {
        let c = peers[pi].confirmed@;
        if j < c.len() {
            c[j]
        } else if c.len() > 0 {
            c[c.len() - 1]
        } else {
            0u8
        }
    }
}

/// The rollback session.
pub struct Session {
    cfg: SimConfig,
    phase: SessionPhase,
    local: LocalHandle,
    peers: Vec<PeerConnection>,
    frame: u64,
    world: World,
    buffer: RollbackBuffer,
    pending: Vec<u8>,
    history: Vec<Vec<u8>>,
}

impl Session {
    /// The configuration the session was built with.
    pub closed spec fn cfg_spec(&self) -> SimConfig {
        self.cfg
    }

    /// The lifecycle phase.
    pub closed spec fn phase_spec(&self) -> SessionPhase {
        self.phase
    }

    /// The local handle, if assigned yet.
    pub closed spec fn local_spec(&self) -> LocalHandle {
        self.local
    }

    /// The peer connections, in arrival order.
    pub closed spec fn peers_spec(&self) -> Seq<PeerConnection> {
        self.peers@
    }

    /// The next frame to step.
    pub closed spec fn frame_spec(&self) -> u64 {
        self.frame
    }

    /// The current confirmed-or-predicted world.
    pub closed spec fn world_spec(&self) -> WorldV {
        self.world@
    }

    /// Scheduled local inputs, by absolute frame.
    pub closed spec fn pending_spec(&self) -> Seq<u8> {
        self.pending@
    }

    /// The inputs actually used for every stepped frame.
    pub closed spec fn history_spec(&self) -> Seq<Seq<u8>> {
        self.history.deep_view()
    }

    /// The retained snapshots.
    pub closed spec fn snaps(&self) -> Map<u64, WorldV> {
        self.buffer.contents()
    }

    /// The whole rollback buffer, for relating states of one session.
    pub closed spec fn buffer_spec(&self) -> RollbackBuffer {
        self.buffer
    }

    /// Frames below this were confirmed by every peer.
    pub closed spec fn confirmed_floor_spec(&self) -> u64 {
        self.buffer.confirmed_spec()
    }

    /// Handles and identities are valid and mutually distinct.
    pub open spec fn peers_ok(&self) -> bool {
        &&& self.peers_spec().len() <= self.cfg_spec().num_players - 1
        &&& forall|i: int|
            0 <= i < self.peers_spec().len() ==> (#[trigger] self.peers_spec()[i]).handle
                < self.cfg_spec().num_players
        &&& forall|i: int, j: int|
            0 <= i < j < self.peers_spec().len() ==> (#[trigger] self.peers_spec()[i]).handle != (
            #[trigger] self.peers_spec()[j]).handle && self.peers_spec()[i].id
                != self.peers_spec()[j].id
        &&& match self.local_spec() {
            LocalHandle::Assigned(h) => h < self.cfg_spec().num_players && forall|i: int|
                0 <= i < self.peers_spec().len() ==> (#[trigger] self.peers_spec()[i]).handle != h,
            LocalHandle::Unassigned => true,
        }
    }

    /// Every peer has acknowledged the starting-frame handshake.
    pub open spec fn all_acked(&self) -> bool {
        forall|i: int|
            0 <= i < self.peers_spec().len() ==> (#[trigger] self.peers_spec()[i]).acked
    }

    /// Matchmaking succeeded: every expected remote peer is present and
    /// the local handle is assigned.
    pub open spec fn assembled(&self) -> bool {
        &&& self.peers_spec().len() == self.cfg_spec().num_players - 1
        &&& self.local_spec() is Assigned
    }

    /// The input symbol used for player `h` at frame `j`: the scheduled
    /// local input for the local handle, a confirmed-or-predicted remote
    /// input otherwise.
    pub open spec fn input_sym(&self, j: int, h: int) -> u8 {
        match self.local_spec() {
            LocalHandle::Assigned(lh) => if lh == h {
                self.pending_spec()[j]
            } else {
                peer_sym(self.peers_spec(), h, j)
            },
            LocalHandle::Unassigned => peer_sym(self.peers_spec(), h, j),
        }
    }

    /// The full input row for frame `j`, one symbol per handle.
    pub open spec fn inputs_at(&self, j: int) -> Seq<u8> {
        Seq::new(self.cfg_spec().num_players as nat, |h: int| self.input_sym(j, h))
    }

    /// Every stepped frame used one input symbol per handle.
    pub closed spec fn hist_rows_ok(&self) -> bool {
        forall|f: int|
            0 <= f < self.frame as int ==> (#[trigger] self.history_spec()[f]).len()
                == self.cfg.num_players
    }

    /// Every retained snapshot holds exactly the run of the used inputs
    /// up to its frame.
    pub closed spec fn snaps_consistent(&self) -> bool {
        forall|f: u64|
            (#[trigger] self.buffer.contents().dom().contains(f)) ==> f <= self.frame
                && self.buffer.contents()[f] == run_spec(
                initial_world(&self.cfg),
                self.history_spec().take(f as int),
                &self.cfg,
            ) && wf_world(self.buffer.contents()[f], &self.cfg)
    }

    /// A snapshot exists for every frame of the live window
    /// `[frame - window + 1, frame]`.
    pub closed spec fn window_retained(&self) -> bool {
        forall|f: u64|
            f <= self.frame && f as int + self.cfg.window as int > self.frame as int
                ==> #[trigger] self.buffer.contents().dom().contains(f)
    }

    /// Everything that must hold while running: the world is exactly the
    /// run of the used inputs from the initial world, every retained
    /// snapshot is the run of the prefix up to its frame, and the whole
    /// live window of snapshots is retained.
    pub closed spec fn running_inv(&self) -> bool {
        &&& self.frame <= MAX_FRAME
        &&& self.history_spec().len() == self.frame as int
        &&& self.hist_rows_ok()
        &&& self.pending@.len() == self.frame as int + self.cfg.input_delay as int
        &&& self.world@ == run_spec(initial_world(&self.cfg), self.history_spec(), &self.cfg)
        &&& wf_world(self.world@, &self.cfg)
        &&& self.buffer.wf()
        &&& self.buffer.window_spec() == self.cfg.window
        &&& self.buffer.latest_spec() == Some(self.frame)
        &&& self.snaps_consistent()
        &&& self.window_retained()
    }

    /// Session invariant, phase by phase.
    pub closed spec fn wf(&self) -> bool {
        &&& self.cfg.wf()
        &&& self.peers_ok()
        &&& self.buffer.wf()
        &&& self.buffer.window_spec() == self.cfg.window
        &&& match self.phase {
            SessionPhase::Matchmaking => true,
            SessionPhase::Synchronizing => self.assembled(),
            SessionPhase::Running => self.assembled() && self.running_inv(),
            SessionPhase::Terminated => true,
        }
    }

    /// A fresh session in the matchmaking phase.
    pub fn new(cfg: SimConfig) -> (s: Session)
        requires
            cfg.wf(),
        ensures
            s.wf(),
            s.cfg_spec() == cfg,
            s.phase_spec() == SessionPhase::Matchmaking,
            s.local_spec() == LocalHandle::Unassigned,
            s.peers_spec() == Seq::<PeerConnection>::empty(),
            s.frame_spec() == 0,
    {
        let buffer = RollbackBuffer::new(cfg.window);
        let s = Session {
            cfg,
            phase: SessionPhase::Matchmaking,
            local: LocalHandle::Unassigned,
            peers: Vec::new(),
            frame: 0,
            world: World { players: Vec::new(), bullets: Vec::new() },
            buffer,
            pending: Vec::new(),
            history: Vec::new(),
        };
        proof {
            assert(s.peers_spec() =~= Seq::<PeerConnection>::empty());
        }
        s
    }

    /// Whether a handle is already taken by the local player or a peer.
    fn handle_taken(&self, handle: usize) -> (r: bool)
        ensures
            r == (match self.local_spec() {
                LocalHandle::Assigned(lh) => lh == handle,
                LocalHandle::Unassigned => false,
            } || peer_index(self.peers_spec(), handle as int, 0) >= 0),
    {
        let taken_local = match self.local {
            LocalHandle::Assigned(lh) => lh == handle,
            LocalHandle::Unassigned => false,
        };
        taken_local || self.find_peer(handle).is_some()
    }

    /// The index of the peer driving `handle`, if one is connected.
    fn find_peer(&self, handle: usize) -> (r: Option<usize>)
        ensures
            match r {
                Some(i) => peer_index(self.peers_spec(), handle as int, 0) == i as int && i
                    < self.peers_spec().len() && self.peers_spec()[i as int].handle == handle,
                None => peer_index(self.peers_spec(), handle as int, 0) == -1,
            },
    {
        let n = self.peers.len();
        let mut i: usize = 0;
        while i < n
            invariant
                n == self.peers@.len(),
                i <= n,
                peer_index(self.peers@, handle as int, 0) == peer_index(
                    self.peers@,
                    handle as int,
                    i as int,
                ),
            decreases n - i,
        {
            if self.peers[i].handle == handle {
                return Some(i);
            }
            i = i + 1;
        }
        None
    }

    /// Whether an identity already belongs to a peer.
    fn id_taken(&self, id: u64) -> (r: bool)
        ensures
            r == exists|i: int|
                0 <= i < self.peers_spec().len() && (#[trigger] self.peers_spec()[i]).id == id,
    {
        let n = self.peers.len();
        let mut i: usize = 0;
        while i < n
            invariant
                n == self.peers@.len(),
                i <= n,
                forall|k: int| 0 <= k < i ==> (#[trigger] self.peers@[k]).id != id,
            decreases n - i,
        {
            if self.peers[i].id == id {
                proof {
                    assert((self.peers_spec()[i as int]).id == id);
                }
                return true;
            }
            i = i + 1;
        }
        false
    }

    /// Claim a handle for the local player during matchmaking. A handle
    /// outside the expected range, already claimed, or claimed twice is
    /// a mismatched or duplicate assignment: `InvalidPlayerCount`,
    /// rejected without any state change. When the expected player count
    /// is reached the session moves to `Synchronizing`.
    pub fn register_local(&mut self, handle: usize) -> (r: Result<(), SimError>)
        requires
            old(self).wf(),
            old(self).phase_spec() == SessionPhase::Matchmaking,
        ensures
            final(self).wf(),
            final(self).cfg_spec() == old(self).cfg_spec(),
            final(self).peers_spec() == old(self).peers_spec(),
            r is Ok <==> handle < old(self).cfg_spec().num_players && old(self).local_spec()
                is Unassigned && peer_index(old(self).peers_spec(), handle as int, 0) < 0,
            r is Ok ==> final(self).local_spec() == LocalHandle::Assigned(handle)
                && final(self).phase_spec() == (if final(self).assembled() {
                SessionPhase::Synchronizing
            } else {
                SessionPhase::Matchmaking
            }),
            r matches Err(e) ==> e == SimError::InvalidPlayerCount && *final(self) == *old(self),
    {
        let already = matches!(self.local, LocalHandle::Assigned(_));
        if handle >= self.cfg.num_players || already || self.find_peer(handle).is_some() {
            return Err(SimError::InvalidPlayerCount);
        }
        proof {
            lemma_peer_index_props(self.peers@, handle as int, 0);
        }
        self.local = LocalHandle::Assigned(handle);
        if self.peers.len() == self.cfg.num_players - 1 {
            self.phase = SessionPhase::Synchronizing;
        }
        Ok(())
    }

    /// Record a peer connection produced by matchmaking. A handle or
    /// identity collision, a handle outside the expected range, or a
    /// peer beyond the expected count is `InvalidPlayerCount`, rejected
    /// without any state change. When the expected player count is
    /// reached the session moves to `Synchronizing`.
    pub fn add_peer(&mut self, id: u64, handle: usize) -> (r: Result<(), SimError>)
        requires
            old(self).wf(),
            old(self).phase_spec() == SessionPhase::Matchmaking,
        ensures
            final(self).wf(),
            final(self).cfg_spec() == old(self).cfg_spec(),
            final(self).local_spec() == old(self).local_spec(),
            r is Ok <==> {
                &&& handle < old(self).cfg_spec().num_players
                &&& old(self).peers_spec().len() < old(self).cfg_spec().num_players - 1
                &&& peer_index(old(self).peers_spec(), handle as int, 0) < 0
                &&& (match old(self).local_spec() {
                    LocalHandle::Assigned(lh) => lh != handle,
                    LocalHandle::Unassigned => true,
                })
                &&& !exists|i: int|
                    0 <= i < old(self).peers_spec().len() && (#[trigger] old(self).peers_spec()[
                        i
                    ]).id == id
            },
            r is Ok ==> {
                &&& final(self).peers_spec().len() == old(self).peers_spec().len() + 1
                &&& forall|i: int|
                    0 <= i < old(self).peers_spec().len() ==> #[trigger] final(self).peers_spec()[i]
                        == old(self).peers_spec()[i]
                &&& final(self).peers_spec().last().id == id
                &&& final(self).peers_spec().last().handle == handle
                &&& final(self).peers_spec().last().connected
                &&& !final(self).peers_spec().last().acked
                &&& final(self).peers_spec().last().confirmed@ == Seq::<u8>::empty()
                &&& final(self).phase_spec() == (if final(self).assembled() {
                    SessionPhase::Synchronizing
                } else {
                    SessionPhase::Matchmaking
                })
            },
            r matches Err(e) ==> e == SimError::InvalidPlayerCount && *final(self) == *old(self),
    {
        if handle >= self.cfg.num_players || self.peers.len() >= self.cfg.num_players - 1
            || self.handle_taken(handle) || self.id_taken(id) {
            return Err(SimError::InvalidPlayerCount);
        }
        proof {
            lemma_peer_index_props(self.peers@, handle as int, 0);
        }
        self.peers.push(
            PeerConnection { id, handle, acked: false, connected: true, confirmed: Vec::new() },
        );
        if self.peers.len() == self.cfg.num_players - 1 && matches!(self.local, LocalHandle::Assigned(_)) {
            self.phase = SessionPhase::Synchronizing;
        }
        Ok(())
    }

    /// Record a peer's acknowledgement of the starting-frame handshake.
    /// Once every peer has acknowledged, the match begins: the players
    /// are created, frame 0's snapshot is saved, and the scheduled local
    /// inputs for the first `input_delay` frames are the idle symbol.
    /// An unknown handle is a mismatched assignment: `InvalidPlayerCount`.
    pub fn acknowledge_sync(&mut self, handle: usize) -> (r: Result<(), SimError>)
        requires
            old(self).wf(),
            old(self).phase_spec() == SessionPhase::Synchronizing,
        ensures
            final(self).wf(),
            final(self).cfg_spec() == old(self).cfg_spec(),
            final(self).local_spec() == old(self).local_spec(),
            r is Ok <==> peer_index(old(self).peers_spec(), handle as int, 0) >= 0,
            r is Ok ==> {
                &&& final(self).peers_spec().len() == old(self).peers_spec().len()
                &&& forall|i: int|
                    0 <= i < final(self).peers_spec().len() ==> {
                        let np = #[trigger] final(self).peers_spec()[i];
                        let op = old(self).peers_spec()[i];
                        np.id == op.id && np.handle == op.handle && np.connected == op.connected
                            && np.confirmed@ == op.confirmed@ && np.acked == (op.acked || op.handle
                            == handle)
                    }
                &&& final(self).phase_spec() == (if final(self).all_acked() {
                    SessionPhase::Running
                } else {
                    SessionPhase::Synchronizing
                })
                &&& final(self).phase_spec() == SessionPhase::Running ==> {
                    &&& final(self).frame_spec() == 0
                    &&& final(self).world_spec() == initial_world(&old(self).cfg_spec())
                    &&& final(self).history_spec() == Seq::<Seq<u8>>::empty()
                    &&& final(self).pending_spec() == Seq::new(
                        old(self).cfg_spec().input_delay as nat,
                        |i: int| 0u8,
                    )
                }
            },
            r matches Err(e) ==> e == SimError::InvalidPlayerCount && *final(self) == *old(self),
    {
        let found = self.find_peer(handle);
        let i = match found {
            None => {
                return Err(SimError::InvalidPlayerCount);
            },
            Some(i) => i,
        };
        let p = &self.peers[i];
        let np = PeerConnection {
            id: p.id,
            handle: p.handle,
            acked: true,
            connected: p.connected,
            confirmed: copy_syms(&p.confirmed),
        };
        self.peers.set(i, np);
        proof {
            lemma_peer_index_props(old(self).peers_spec(), handle as int, 0);
            assert forall|a: int, b: int|
                0 <= a < b < self.peers@.len() implies (#[trigger] self.peers@[a]).handle != (
            #[trigger] self.peers@[b]).handle && self.peers@[a].id != self.peers@[b].id by {
                assert(self.peers@[a].handle == old(self).peers@[a].handle && self.peers@[a].id
                    == old(self).peers@[a].id);
                assert(self.peers@[b].handle == old(self).peers@[b].handle && self.peers@[b].id
                    == old(self).peers@[b].id);
            }
            assert forall|k: int| 0 <= k < self.peers@.len() implies (
            #[trigger] self.peers@[k]).handle == old(self).peers@[k].handle by {}
            assert(self.peers_ok());
        }
        let mut all = true;
        let n = self.peers.len();
        let mut k: usize = 0;
        while k < n
            invariant
                n == self.peers@.len(),
                k <= n,
                all == (forall|j: int| 0 <= j < k ==> (#[trigger] self.peers@[j]).acked),
            decreases n - k,
        {
            if !self.peers[k].acked {
                all = false;
            }
            k = k + 1;
        }
        if all {
            self.enter_running();
        }
        Ok(())
    }

    /// The transition into the running phase: create one player per
    /// connected handle at its spawn point, save the snapshot of frame 0
    /// and schedule the idle symbol for the first `input_delay` local
    /// frames.
    fn enter_running(&mut self)
        requires
            old(self).wf(),
            old(self).phase_spec() == SessionPhase::Synchronizing,
        ensures
            final(self).wf(),
            final(self).cfg_spec() == old(self).cfg_spec(),
            final(self).local_spec() == old(self).local_spec(),
            final(self).peers_spec() == old(self).peers_spec(),
            final(self).phase_spec() == SessionPhase::Running,
            final(self).frame_spec() == 0,
            final(self).world_spec() == initial_world(&old(self).cfg_spec()),
            final(self).history_spec() == Seq::<Seq<u8>>::empty(),
            final(self).pending_spec() == Seq::new(
                old(self).cfg_spec().input_delay as nat,
                |i: int| 0u8,
            ),
    {
        let w = spawn_players(&self.cfg);
        let mut buffer = RollbackBuffer::new(self.cfg.window);
        proof {
            buffer.lemma_save_conflict_characterization(0);
        }
        let saved = buffer.save(0, &w);
        proof {
            assert(saved is Ok);
        }
        let mut pending: Vec<u8> = Vec::new();
        let mut d: usize = 0;
        let delay = self.cfg.input_delay;
        while d < delay
            invariant
                d <= delay,
                pending@.len() == d,
                forall|k: int| 0 <= k < d ==> #[trigger] pending@[k] == 0u8,
            decreases delay - d,
        {
            pending.push(0);
            d = d + 1;
        }
        proof {
            assert(pending@ =~= Seq::new(delay as nat, |i: int| 0u8));
        }
        self.world = w;
        self.buffer = buffer;
        self.pending = pending;
        self.history = Vec::new();
        self.frame = 0;
        self.phase = SessionPhase::Running;
        proof {
            assert(self.history_spec() =~= Seq::<Seq<u8>>::empty());
            assert(self.world@ == run_spec(
                initial_world(&self.cfg),
                self.history_spec(),
                &self.cfg,
            ));
            assert(self.hist_rows_ok());
            let m = self.buffer.contents();
            assert(m == Map::<u64, WorldV>::empty().insert(0u64, w@));
            assert(self.snaps_consistent()) by {
                assert forall|f: u64| (#[trigger] m.dom().contains(f)) implies f <= self.frame
                    && m[f] == run_spec(
                    initial_world(&self.cfg),
                    self.history_spec().take(f as int),
                    &self.cfg,
                ) && wf_world(m[f], &self.cfg) by {
                    assert(f == 0);
                    assert(self.history_spec().take(0) =~= Seq::<Seq<u8>>::empty());
                }
            }
            assert(self.window_retained()) by {
                assert forall|f: u64|
                    f <= self.frame && f as int + self.cfg.window as int
                        > self.frame as int implies #[trigger] m.dom().contains(f) by {
                    assert(f == 0);
                }
            }
            assert(self.running_inv());
        }
    }

    /// The input row a tick of the session will use: the scheduled (or,
    /// with zero delay, the fresh) local symbol for the local handle and
    /// the confirmed-or-predicted symbol for every remote handle.
    pub open spec fn tick_row(&self, sym: u8) -> Seq<u8> {
        Seq::new(
            self.cfg_spec().num_players as nat,
            |h: int|
                match self.local_spec() {
                    LocalHandle::Assigned(lh) => if lh == h {
                        self.pending_spec().push(sym)[self.frame_spec() as int]
                    } else {
                        peer_sym(self.peers_spec(), h, self.frame_spec() as int)
                    },
                    LocalHandle::Unassigned => peer_sym(
                        self.peers_spec(),
                        h,
                        self.frame_spec() as int,
                    ),
                },
        )
    }

    /// The confirmed-or-predicted symbol of the peer driving `handle`
    /// for frame `j`.
    fn peer_symbol(&self, handle: usize, j: u64) -> (s: u8)
        ensures
            s == peer_sym(self.peers_spec(), handle as int, j as int),
    {
        match self.find_peer(handle) {
            None => 0,
            Some(i) => {
                let c = &self.peers[i].confirmed;
                if (c.len() as u64) > j {
                    c[j as usize]
                } else if c.len() > 0 {
                    c[c.len() - 1]
                } else {
                    0
                }
            },
        }
    }

    /// The full input row for frame `j`, one symbol per handle.
    fn gather_row(&self, j: u64) -> (ins: Vec<u8>)
        requires
            self.local_spec() is Assigned ==> (j as int) < self.pending_spec().len(),
        ensures
            ins@.len() == self.cfg_spec().num_players,
            forall|h: int| 0 <= h < ins@.len() ==> #[trigger] ins@[h] == self.input_sym(j as int, h),
    {
        let n = self.cfg.num_players;
        let mut ins: Vec<u8> = Vec::new();
        let mut h: usize = 0;
        while h < n
            invariant
                n == self.cfg.num_players,
                self.local_spec() is Assigned ==> (j as int) < self.pending_spec().len(),
                h <= n,
                ins@.len() == h,
                forall|k: int|
                    0 <= k < h ==> #[trigger] ins@[k] == self.input_sym(j as int, k),
            decreases n - h,
        {
            let is_local = match self.local {
                LocalHandle::Assigned(lh) => lh == h,
                LocalHandle::Unassigned => false,
            };
            let s: u8 = if is_local {
                let pl = self.pending.len();
                proof {
                    assert((j as int) < pl as int);
                }
                self.pending[j as usize]
            } else {
                self.peer_symbol(h, j)
            };
            ins.push(s);
            h = h + 1;
        }
        ins
    }

    /// One local tick of the running phase: schedule the freshly sampled
    /// local symbol `input_delay` frames ahead, step the world by one
    /// frame using the scheduled local input and a
    /// confirmed-or-predicted input per remote handle, and save the new
    /// frame's snapshot. Returns the scheduled frame and the symbol, for
    /// the caller to broadcast. A step whose positions leave the
    /// representable range aborts the match.
    pub fn tick(&mut self, local_sym: u8) -> (r: Result<(u64, u8), SimError>)
        requires
            old(self).wf(),
            old(self).phase_spec() == SessionPhase::Running,
            old(self).frame_spec() < MAX_FRAME,
        ensures
            final(self).wf(),
            final(self).cfg_spec() == old(self).cfg_spec(),
            final(self).local_spec() == old(self).local_spec(),
            final(self).peers_spec() == old(self).peers_spec(),
            final(self).pending_spec() == old(self).pending_spec().push(local_sym),
            r is Ok <==> step_ok(
                old(self).world_spec(),
                old(self).tick_row(local_sym),
                &old(self).cfg_spec(),
            ),
            r matches Ok(out) ==> {
                &&& out.0 == old(self).frame_spec() + old(self).cfg_spec().input_delay as u64
                &&& out.1 == local_sym
                &&& final(self).phase_spec() == SessionPhase::Running
                &&& final(self).frame_spec() == old(self).frame_spec() + 1
                &&& final(self).history_spec() == old(self).history_spec().push(
                    old(self).tick_row(local_sym),
                )
                &&& final(self).world_spec() == step_spec(
                    old(self).world_spec(),
                    old(self).tick_row(local_sym),
                    &old(self).cfg_spec(),
                )
            },
            r matches Err(e) ==> e == SimError::PositionOutOfRange && final(self).phase_spec()
                == SessionPhase::Terminated,
    {
        let due = self.frame + (self.cfg.input_delay as u64);
        self.pending.push(local_sym);
        let ins = self.gather_row(self.frame);
        proof {
            assert(ins@ =~= old(self).tick_row(local_sym));
        }
        match crate::stepper::step(&self.world, &ins, &self.cfg) {
            Err(e) => {
                self.phase = SessionPhase::Terminated;
                Err(e)
            },
            Ok(nw) => {
                let ghost oldhist = old(self).history_spec();
                self.world = nw;
                self.frame = self.frame + 1;
                self.history.push(ins);
                proof {
                    assert(ins.deep_view() =~= ins@);
                    assert(self.history_spec() =~= oldhist.push(ins@));
                    crate::stepper::lemma_run_snoc(
                        initial_world(&self.cfg),
                        oldhist,
                        ins@,
                        &self.cfg,
                    );
                    self.buffer.lemma_save_conflict_characterization(self.frame);
                    if self.buffer.save_conflict(self.frame) {
                        let g = choose|g: u64|
                            #[trigger] self.buffer.contents().dom().contains(g) && g != self.frame
                                && (g as int) % self.buffer.window_spec() == (self.frame as int)
                                % self.buffer.window_spec() && g as int + self.buffer.window_spec()
                                > self.buffer.new_latest(self.frame) as int;
                        assert(g <= old(self).frame_spec());
                        lemma_residue_gap(g as int, self.frame as int, self.cfg.window as int);
                        assert(false);
                    }
                }
                let saved = self.buffer.save(self.frame, &self.world);
                proof {
                    assert(saved is Ok);
                    let newf = self.frame;
                    let oldf = old(self).frame_spec();
                    let w = self.cfg.window as int;
                    let bpre = old(self).buffer_spec();
                    let m = self.buffer.contents();
                    let mold = bpre.contents();
                    bpre.lemma_occupant_in_contents(newf);
                    let occ = bpre.occupant(newf);
                    if occ is Some {
                        let g = occ->Some_0;
                        assert(g <= oldf);
                        lemma_residue_gap(g as int, newf as int, w);
                        assert(g as int + w <= newf as int);
                    }
                    assert(self.hist_rows_ok()) by {
                        assert forall|f: int|
                            0 <= f < newf as int implies (#[trigger] self.history_spec()[f]).len()
                            == self.cfg.num_players by {
                            if f < oldf as int {
                                assert(self.history_spec()[f] == old(self).history_spec()[f]);
                            } else {
                                assert(self.history_spec()[f] == ins@);
                            }
                        }
                    }
                    assert(self.snaps_consistent()) by {
                        assert forall|f: u64| (#[trigger] m.dom().contains(f)) implies f <= newf
                            && m[f] == run_spec(
                            initial_world(&self.cfg),
                            self.history_spec().take(f as int),
                            &self.cfg,
                        ) && wf_world(m[f], &self.cfg) by {
                            if f == newf {
                                assert(m[f] == self.world@);
                                assert(self.history_spec().take(newf as int)
                                    =~= self.history_spec());
                            } else {
                                assert(mold.dom().contains(f));
                                assert(m[f] == mold[f]);
                                assert(f <= oldf);
                                assert(self.history_spec().take(f as int) =~= old(self).history_spec().take(f as int));
                            }
                        }
                    }
                    assert(self.window_retained()) by {
                        assert forall|f: u64|
                            f <= newf && f as int + w > newf as int implies #[trigger] m.dom().contains(
                            f,
                        ) by {
                            if f != newf {
                                assert(f <= oldf && f as int + w > oldf as int);
                                assert(mold.dom().contains(f));
                                if occ is Some {
                                    assert(f != occ->Some_0);
                                }
                            }
                        }
                    }
                    assert(self.running_inv());
                    assert(self.wf());
                }
                Ok((due, local_sym))
            },
        }
    }

    /// The corrected input row for frame `j` after a rollback triggered
    /// by `handle`'s confirmed symbol: `sym` is authoritative for the
    /// mispredicted frame and is the new hold-last prediction for every
    /// later frame, while every other player's symbol is re-derived from
    /// the data already held.
    pub open spec fn rollback_row(&self, handle: int, sym: u8, j: int) -> Seq<u8> {
        Seq::new(
            self.cfg_spec().num_players as nat,
            |h: int|
                if h == handle {
                    sym
                } else {
                    self.input_sym(j, h)
                },
        )
    }

    /// The whole input history after a rollback of frame `f`: frames
    /// before `f` untouched, frames from `f` on corrected.
    pub open spec fn corrected_hist(&self, handle: int, f: int, sym: u8) -> Seq<Seq<u8>> {
        Seq::new(
            self.frame_spec() as nat,
            |j: int|
                if j < f {
                    self.history_spec()[j]
                } else {
                    self.rollback_row(handle, sym, j)
                },
        )
    }

    /// Accept a confirmed remote input for frame `f` from the peer
    /// driving `handle` (the transport delivers inputs reliably and in
    /// order, so `f` is the peer's next unconfirmed frame). If `f` was
    /// already stepped with a different symbol, roll back: load the
    /// snapshot taken before `f`, re-run every frame up to the present
    /// with the corrected inputs, and overwrite the affected snapshots.
    /// Returns whether a rollback was performed.
    ///
    /// A mispredicted frame whose snapshot was already evicted is a
    /// fatal desynchronization: the match aborts with
    /// `SnapshotEvicted(f)`. A resimulated position leaving the
    /// representable range likewise aborts with `PositionOutOfRange`.
    pub fn handle_confirmed_input(&mut self, handle: usize, f: u64, sym: u8) -> (r: Result<
        bool,
        SimError,
    >)
        requires
            old(self).wf(),
            old(self).phase_spec() == SessionPhase::Running,
            peer_index(old(self).peers_spec(), handle as int, 0) >= 0,
            f as int == old(self).peers_spec()[peer_index(
                old(self).peers_spec(),
                handle as int,
                0,
            )].confirmed@.len(),
            f <= MAX_FRAME,
        ensures
            final(self).wf(),
            final(self).cfg_spec() == old(self).cfg_spec(),
            final(self).local_spec() == old(self).local_spec(),
            final(self).frame_spec() == old(self).frame_spec(),
            final(self).pending_spec() == old(self).pending_spec(),
            final(self).peers_spec().len() == old(self).peers_spec().len(),
            ({
                let pi = peer_index(old(self).peers_spec(), handle as int, 0);
                &&& forall|i: int|
                    0 <= i < final(self).peers_spec().len() && i != pi
                        ==> #[trigger] final(self).peers_spec()[i] == old(self).peers_spec()[i]
                &&& final(self).peers_spec()[pi].id == old(self).peers_spec()[pi].id
                &&& final(self).peers_spec()[pi].handle == handle
                &&& final(self).peers_spec()[pi].acked == old(self).peers_spec()[pi].acked
                &&& final(self).peers_spec()[pi].connected == old(self).peers_spec()[pi].connected
                &&& final(self).peers_spec()[pi].confirmed@ == old(self).peers_spec()[pi].confirmed@.push(
                    sym,
                )
            }),
            (f >= old(self).frame_spec() || old(self).history_spec()[f as int][handle as int]
                == sym) ==> r == Ok::<bool, SimError>(false) && final(self).phase_spec()
                == SessionPhase::Running && final(self).history_spec() == old(self).history_spec()
                && final(self).world_spec() == old(self).world_spec() && final(self).snaps()
                == old(self).snaps(),
            (f < old(self).frame_spec() && old(self).history_spec()[f as int][handle as int] != sym
                && f as int + old(self).cfg_spec().window as int <= old(self).frame_spec() as int)
                ==> r == Err::<bool, SimError>(SimError::SnapshotEvicted(f)) && final(self).phase_spec() == SessionPhase::Terminated,
            (f < old(self).frame_spec() && old(self).history_spec()[f as int][handle as int] != sym
                && f as int + old(self).cfg_spec().window as int > old(self).frame_spec() as int)
                ==> {
                &&& r is Ok <==> run_ok(
                    run_spec(
                        initial_world(&old(self).cfg_spec()),
                        old(self).history_spec().take(f as int),
                        &old(self).cfg_spec(),
                    ),
                    old(self).corrected_hist(handle as int, f as int, sym).skip(f as int),
                    &old(self).cfg_spec(),
                )
                &&& r matches Ok(b) ==> b == true && final(self).phase_spec()
                    == SessionPhase::Running && final(self).history_spec() == old(self).corrected_hist(handle as int, f as int, sym) && final(self).world_spec()
                    == run_spec(
                    initial_world(&old(self).cfg_spec()),
                    old(self).corrected_hist(handle as int, f as int, sym),
                    &old(self).cfg_spec(),
                )
                &&& r matches Err(e) ==> e == SimError::PositionOutOfRange && final(self).phase_spec() == SessionPhase::Terminated
            },
    {
        let ghost olds = *old(self);
        let pio = self.find_peer(handle);
        let pi = match pio {
            Some(i) => i,
            None => {
                // unreachable: the precondition names a present peer
                proof {
                    assert(false);
                }
                return Err(SimError::InvalidPlayerCount);
            },
        };
        let p = &self.peers[pi];
        let mut nc = copy_syms(&p.confirmed);
        nc.push(sym);
        let np = PeerConnection {
            id: p.id,
            handle: p.handle,
            acked: p.acked,
            connected: p.connected,
            confirmed: nc,
        };
        self.peers.set(pi, np);
        proof {
            assert forall|a: int, b: int|
                0 <= a < b < self.peers@.len() implies (#[trigger] self.peers@[a]).handle != (
            #[trigger] self.peers@[b]).handle && self.peers@[a].id != self.peers@[b].id by {
                assert(self.peers@[a].handle == olds.peers_spec()[a].handle && self.peers@[a].id
                    == olds.peers_spec()[a].id);
                assert(self.peers@[b].handle == olds.peers_spec()[b].handle && self.peers@[b].id
                    == olds.peers_spec()[b].id);
            }
            assert forall|k: int| 0 <= k < self.peers@.len() implies (
            #[trigger] self.peers@[k]).handle == olds.peers_spec()[k].handle by {}
            assert(self.peers_ok());
        }
        if f >= self.frame {
            proof {
                lemma_running_inv_peers_irrelevant(olds, *self);
            }
            return Ok(false);
        }
        let hl = self.history.len();
        proof {
            assert((f as int) < hl as int);
        }
        let row = &self.history[f as usize];
        proof {
            assert(self.history_spec()[f as int] == row.deep_view());
            assert(olds.history_spec()[f as int].len() == self.cfg.num_players);
            assert((handle as int) < row@.len());
        }
        let used = row[handle];
        proof {
            assert(used == olds.history_spec()[f as int][handle as int]);
        }
        if used == sym {
            proof {
                lemma_running_inv_peers_irrelevant(olds, *self);
            }
            return Ok(false);
        }
        match self.buffer.load(f) {
            Err(e) => {
                proof {
                    assert(f as int + self.cfg.window as int <= self.frame as int);
                }
                self.phase = SessionPhase::Terminated;
                Err(e)
            },
            Ok(snap) => {
                proof {
                    assert(f as int + self.cfg.window as int > self.frame as int);
                }
                let ghost chist = olds.corrected_hist(handle as int, f as int, sym);
                let ghost newpeers = self.peers@;
                let mut cur = snap;
                proof {
                    assert(self.buffer == olds.buffer_spec());
                    assert(self.history_spec() == olds.history_spec());
                    assert(chist.take(f as int) =~= olds.history_spec().take(f as int));
                    assert(cur@ == run_spec(
                        initial_world(&self.cfg),
                        chist.take(f as int),
                        &self.cfg,
                    ));
                    assert forall|fx: u64|
                        (#[trigger] self.buffer.contents().dom().contains(fx)) implies fx
                        <= self.frame && wf_world(self.buffer.contents()[fx], &self.cfg)
                        && self.buffer.contents()[fx] == run_spec(
                        initial_world(&self.cfg),
                        (if fx <= f {
                            chist.take(fx as int)
                        } else {
                            olds.history_spec().take(fx as int)
                        }),
                        &self.cfg,
                    ) by {
                        if fx <= f {
                            assert(chist.take(fx as int) =~= olds.history_spec().take(fx as int));
                        }
                    }
                }
                let mut j = f;
                while j < self.frame
                    invariant
                        olds == *old(self),
                        olds.wf(),
                        olds.phase_spec() == SessionPhase::Running,
                        f < self.frame,
                        olds.history_spec()[f as int][handle as int] != sym,
                        f as int + self.cfg.window as int > self.frame as int,
                        self.cfg == olds.cfg_spec(),
                        self.local == olds.local_spec(),
                        self.frame == olds.frame_spec(),
                        self.pending@ == olds.pending_spec(),
                        self.phase == SessionPhase::Running,
                        self.peers@ == newpeers,
                        self.peers_ok(),
                        newpeers.len() == olds.peers_spec().len(),
                        pi as int == peer_index(olds.peers_spec(), handle as int, 0),
                        0 <= pi < newpeers.len(),
                        forall|i: int|
                            0 <= i < newpeers.len() && i != pi as int ==> #[trigger] newpeers[i]
                                == olds.peers_spec()[i],
                        newpeers[pi as int].handle == handle,
                        newpeers[pi as int].id == olds.peers_spec()[pi as int].id,
                        newpeers[pi as int].acked == olds.peers_spec()[pi as int].acked,
                        newpeers[pi as int].connected == olds.peers_spec()[pi as int].connected,
                        newpeers[pi as int].confirmed@ == olds.peers_spec()[pi as int].confirmed@.push(
                            sym,
                        ),
                        f as int == olds.peers_spec()[pi as int].confirmed@.len(),
                        chist == olds.corrected_hist(handle as int, f as int, sym),
                        chist.take(f as int) == olds.history_spec().take(f as int),
                        f <= j <= self.frame,
                        self.frame <= MAX_FRAME,
                        self.history@.len() == self.frame as int,
                        forall|k: int|
                            0 <= k < self.frame as int ==> #[trigger] self.history_spec()[k] == (
                            if k < j as int {
                                chist[k]
                            } else {
                                olds.history_spec()[k]
                            }),
                        cur@ == run_spec(initial_world(&self.cfg), chist.take(j as int), &self.cfg),
                        run_ok(
                            run_spec(initial_world(&self.cfg), chist.take(f as int), &self.cfg),
                            chist.skip(f as int),
                            &self.cfg,
                        ) == run_ok(cur@, chist.skip(j as int), &self.cfg),
                        wf_world(cur@, &self.cfg),
                        self.buffer.wf(),
                        self.buffer.window_spec() == self.cfg.window,
                        self.buffer.latest_spec() == Some(self.frame),
                        forall|fx: u64|
                            (#[trigger] self.buffer.contents().dom().contains(fx)) ==> fx
                                <= self.frame && wf_world(self.buffer.contents()[fx], &self.cfg)
                                && self.buffer.contents()[fx] == run_spec(
                                initial_world(&self.cfg),
                                (if fx <= j {
                                    chist.take(fx as int)
                                } else {
                                    olds.history_spec().take(fx as int)
                                }),
                                &self.cfg,
                            ),
                        forall|fx: u64|
                            fx <= self.frame && fx as int + self.cfg.window as int
                                > self.frame as int
                                ==> #[trigger] self.buffer.contents().dom().contains(fx),
                    decreases self.frame as int - j as int,
                {
                    let ins = self.gather_row(j);
                    proof {
                        lemma_peer_index_props(olds.peers_spec(), handle as int, 0);
                        assert(newpeers =~= olds.peers_spec().update(pi as int, newpeers[pi as int]));
                        assert forall|h: int| 0 <= h < ins@.len() implies #[trigger] ins@[h]
                            == chist[j as int][h] by {
                            lemma_peer_index_update(
                                olds.peers_spec(),
                                pi as int,
                                newpeers[pi as int],
                                h,
                                0,
                            );
                            assert(peer_index(newpeers, h, 0) == peer_index(
                                olds.peers_spec(),
                                h,
                                0,
                            ));
                            if h == handle as int {
                                assert(peer_index(newpeers, h, 0) == pi as int);
                                let c = newpeers[pi as int].confirmed@;
                                assert(c.len() == f as int + 1);
                                assert(c[f as int] == sym);
                            } else {
                                let q = peer_index(newpeers, h, 0);
                                if q >= 0 {
                                    lemma_peer_index_props(newpeers, h, 0);
                                    assert(newpeers[q].handle == h);
                                    assert(q != pi as int);
                                    assert(newpeers[q] == olds.peers_spec()[q]);
                                    assert(peer_sym(newpeers, h, j as int) == peer_sym(
                                        olds.peers_spec(),
                                        h,
                                        j as int,
                                    ));
                                }
                            }
                        }
                        assert(ins@ =~= chist[j as int]);
                    }
                    proof {
                        assert(chist.skip(j as int)[0] == chist[j as int]);
                        assert(chist.skip(j as int).skip(1) =~= chist.skip(j + 1 as int));
                    }
                    match crate::stepper::step(&cur, &ins, &self.cfg) {
                        Err(e) => {
                            proof {
                                assert(!step_ok(cur@, chist[j as int], &self.cfg));
                                assert(!run_ok(cur@, chist.skip(j as int), &self.cfg));
                            }
                            self.phase = SessionPhase::Terminated;
                            return Err(e);
                        },
                        Ok(nw) => {
                            proof {
                                assert(step_ok(cur@, chist[j as int], &self.cfg));
                                crate::stepper::lemma_run_snoc(
                                    initial_world(&self.cfg),
                                    chist.take(j as int),
                                    ins@,
                                    &self.cfg,
                                );
                                assert(chist.take(j as int).push(chist[j as int]) =~= chist.take(
                                    j + 1 as int,
                                ));
                                assert(nw@ == run_spec(
                                    initial_world(&self.cfg),
                                    chist.take(j + 1 as int),
                                    &self.cfg,
                                ));
                            }
                            cur = nw;
                            let ghost histpre = self.history_spec();
                            let inscopy = copy_syms(&ins);
                            let hlen = self.history.len();
                            proof {
                                assert((j as int) < hlen as int);
                            }
                            self.history.set(j as usize, inscopy);
                            let ghost hcur = self.history_spec();
                            proof {
                                assert forall|k: int|
                                    0 <= k < self.frame as int implies #[trigger] hcur[k] == (if k
                                        < j + 1 {
                                        chist[k]
                                    } else {
                                        olds.history_spec()[k]
                                    }) by {
                                    if k == j as int {
                                        assert(hcur[k] =~= ins@);
                                    } else {
                                        assert(hcur[k] == histpre[k]);
                                    }
                                }
                            }
                            let ghost bpre = self.buffer;
                            let ghost mpre = self.buffer.contents();
                            proof {
                                assert(mpre.dom().contains((j + 1) as u64));
                                bpre.lemma_occupant_in_contents(((j + 1) as u64));
                                bpre.lemma_save_conflict_characterization(((j + 1) as u64));
                                if bpre.save_conflict(((j + 1) as u64)) {
                                    let g = choose|g: u64|
                                        #[trigger] mpre.dom().contains(g) && g != j + 1 && (
                                        g as int) % bpre.window_spec() == ((j + 1) as int)
                                            % bpre.window_spec() && g as int + bpre.window_spec()
                                            > bpre.new_latest(((j + 1) as u64)) as int;
                                    bpre.lemma_residue_unique(g, (j + 1) as u64);
                                    assert(false);
                                }
                            }
                            let saved = self.buffer.save(j + 1, &cur);
                            proof {
                                assert(saved is Ok);
                                let occ = bpre.occupant(((j + 1) as u64));
                                let m = self.buffer.contents();
                                if occ is Some {
                                    let g = occ->Some_0;
                                    bpre.lemma_residue_unique(g, (j + 1) as u64);
                                    assert(g == j + 1);
                                }
                                assert(m =~= mpre.insert((j + 1) as u64, cur@));
                                assert forall|fx: u64|
                                    (#[trigger] m.dom().contains(fx)) implies fx <= self.frame
                                    && wf_world(m[fx], &self.cfg) && m[fx] == run_spec(
                                    initial_world(&self.cfg),
                                    (if fx <= j + 1 {
                                        chist.take(fx as int)
                                    } else {
                                        olds.history_spec().take(fx as int)
                                    }),
                                    &self.cfg,
                                ) by {
                                    if fx == j + 1 {
                                        assert(m[fx] == cur@);
                                    } else {
                                        assert(mpre.dom().contains(fx));
                                        assert(m[fx] == mpre[fx]);
                                        if fx <= j {
                                            assert(mpre[fx] == run_spec(
                                                initial_world(&self.cfg),
                                                chist.take(fx as int),
                                                &self.cfg,
                                            ));
                                        }
                                    }
                                }
                                assert forall|fx: u64|
                                    fx <= self.frame && fx as int + self.cfg.window as int
                                        > self.frame as int implies #[trigger] m.dom().contains(
                                    fx,
                                ) by {
                                    assert(mpre.dom().contains(fx));
                                }
                            }
                            proof {
                                assert(self.history_spec() == hcur);
                                assert forall|k: int|
                                    0 <= k < self.frame as int implies #[trigger] self.history_spec()[k]
                                    == (if k < j + 1 {
                                        chist[k]
                                    } else {
                                        olds.history_spec()[k]
                                    }) by {
                                    assert(self.history_spec()[k] == hcur[k]);
                                }
                            }
                            j = j + 1;
                        },
                    }
                }
                let ghost bfin = self.buffer_spec();
                let ghost hfin = self.history_spec();
                proof {
                    assert(chist.skip(self.frame as int) =~= Seq::<Seq<u8>>::empty());
                    assert(run_ok(cur@, chist.skip(self.frame as int), &self.cfg));
                    assert(hfin =~= chist);
                    assert(chist.take(self.frame as int) =~= chist);
                    assert forall|fx: u64|
                        (#[trigger] bfin.contents().dom().contains(fx)) implies fx <= self.frame
                        && wf_world(bfin.contents()[fx], &self.cfg) && bfin.contents()[fx]
                        == run_spec(
                        initial_world(&self.cfg),
                        chist.take(fx as int),
                        &self.cfg,
                    ) by {
                        assert(self.buffer.contents().dom().contains(fx));
                    }
                    assert forall|fx: u64|
                        fx <= self.frame && fx as int + self.cfg.window as int
                            > self.frame as int implies #[trigger] bfin.contents().dom().contains(
                        fx,
                    ) by {
                        assert(self.buffer.contents().dom().contains(fx));
                    }
                }
                self.world = cur;
                proof {
                    assert(self.buffer_spec() == bfin);
                    assert(self.history_spec() == hfin);
                    assert(self.history_spec() == chist);
                    assert(self.hist_rows_ok()) by {
                        assert forall|k: int|
                            0 <= k < self.frame as int implies (
                        #[trigger] self.history_spec()[k]).len() == self.cfg.num_players by {
                            assert(self.history_spec()[k] == chist[k]);
                            if k < f as int {
                                assert(chist[k] == olds.history_spec()[k]);
                            }
                        }
                    }
                    assert(self.world@ == run_spec(
                        initial_world(&self.cfg),
                        self.history_spec(),
                        &self.cfg,
                    ));
                    assert(self.snaps_consistent()) by {
                        assert forall|fx: u64|
                            (#[trigger] self.buffer.contents().dom().contains(fx)) implies fx
                            <= self.frame && self.buffer.contents()[fx] == run_spec(
                            initial_world(&self.cfg),
                            self.history_spec().take(fx as int),
                            &self.cfg,
                        ) && wf_world(self.buffer.contents()[fx], &self.cfg) by {
                            assert(bfin.contents().dom().contains(fx));
                            assert(self.buffer.contents()[fx] == bfin.contents()[fx]);
                            assert(self.history_spec().take(fx as int) == chist.take(fx as int));
                        }
                    }
                    assert(self.window_retained()) by {
                        assert forall|fx: u64|
                            fx <= self.frame && fx as int + self.cfg.window as int
                                > self.frame as int implies #[trigger] self.buffer.contents().dom().contains(
                            fx,
                        ) by {
                            assert(bfin.contents().dom().contains(fx));
                        }
                    }
                    assert(self.running_inv());
                    assert(self.wf());
                }
                Ok(true)
            },
        }
    }

    /// Raise the rollback buffer's prunable floor to the horizon every
    /// peer has confirmed: no rollback will ever target a frame below
    /// the lowest confirmed frame count, so no resimulation need descend
    /// under it. Returns the horizon.
    pub fn prune_confirmed(&mut self) -> (r: u64)
        requires
            old(self).wf(),
            old(self).phase_spec() == SessionPhase::Running,
        ensures
            final(self).wf(),
            final(self).cfg_spec() == old(self).cfg_spec(),
            final(self).phase_spec() == old(self).phase_spec(),
            final(self).local_spec() == old(self).local_spec(),
            final(self).peers_spec() == old(self).peers_spec(),
            final(self).world_spec() == old(self).world_spec(),
            final(self).pending_spec() == old(self).pending_spec(),
            final(self).history_spec() == old(self).history_spec(),
            final(self).snaps() == old(self).snaps(),
            final(self).frame_spec() == old(self).frame_spec(),
            final(self).confirmed_floor_spec() == (if r >= old(self).confirmed_floor_spec() {
                r
            } else {
                old(self).confirmed_floor_spec()
            }),
            r <= old(self).frame_spec(),
            forall|i: int|
                0 <= i < old(self).peers_spec().len() ==> r as int <= (#[trigger] old(
                    self,
                ).peers_spec()[i]).confirmed@.len(),
            r == old(self).frame_spec() || exists|i: int|
                0 <= i < old(self).peers_spec().len() && r as int == (#[trigger] old(
                    self,
                ).peers_spec()[i]).confirmed@.len(),
    {
        let mut floor: u64 = self.frame;
        let n = self.peers.len();
        let mut i: usize = 0;
        while i < n
            invariant
                n == self.peers@.len(),
                i <= n,
                forall|k: int|
                    0 <= k < i ==> floor as int <= (#[trigger] self.peers@[k]).confirmed@.len(),
                floor <= self.frame,
                floor == self.frame || exists|k: int|
                    0 <= k < i && floor as int == (#[trigger] self.peers@[k]).confirmed@.len(),
            decreases n - i,
        {
            let c = self.peers[i].confirmed.len() as u64;
            if c < floor {
                floor = c;
                proof {
                    assert(floor as int == (self.peers@[i as int]).confirmed@.len());
                }
            }
            i = i + 1;
        }
        proof {
            assert(old(self).buffer_spec() == self.buffer);
        }
        self.buffer.confirm(floor);
        proof {
            lemma_running_inv_peers_irrelevant(*old(self), *self);
            assert(self.wf());
        }
        floor
    }

    /// Tear the session down: safe at any point between ticks. Discards
    /// the rollback buffer, releases the peer connections and marks the
    /// session `Terminated` without any further catch-up resimulation.
    pub fn terminate(&mut self)
        requires
            old(self).wf(),
        ensures
            final(self).wf(),
            final(self).phase_spec() == SessionPhase::Terminated,
            final(self).peers_spec() == Seq::<PeerConnection>::empty(),
            final(self).snaps() == Map::<u64, WorldV>::empty(),
    {
        self.phase = SessionPhase::Terminated;
        self.peers.clear();
        self.buffer = RollbackBuffer::new(self.cfg.window);
        proof {
            assert(self.peers@ =~= Seq::<PeerConnection>::empty());
        }
    }

    /// Record that the transport lost a peer and surface the error the
    /// caller decides on. The session keeps predicting with
    /// hold-last-input until the caller chooses to terminate.
    pub fn peer_disconnected(&mut self, handle: usize) -> (e: SimError)
        requires
            old(self).wf(),
        ensures
            final(self).wf(),
            e == SimError::PeerDisconnected(handle),
            final(self).phase_spec() == old(self).phase_spec(),
            final(self).frame_spec() == old(self).frame_spec(),
            final(self).peers_spec().len() == old(self).peers_spec().len(),
            forall|i: int|
                0 <= i < final(self).peers_spec().len() ==> {
                    let np = #[trigger] final(self).peers_spec()[i];
                    let op = old(self).peers_spec()[i];
                    np.id == op.id && np.handle == op.handle && np.acked == op.acked
                        && np.confirmed@ == op.confirmed@ && (np.connected == (op.connected
                        && op.handle != handle))
                },
    {
        let found = self.find_peer(handle);
        match found {
            Some(i) => {
                let p = &self.peers[i];
                let np = PeerConnection {
                    id: p.id,
                    handle: p.handle,
                    acked: p.acked,
                    connected: false,
                    confirmed: copy_syms(&p.confirmed),
                };
                self.peers.set(i, np);
                proof {
                    lemma_peer_index_props(old(self).peers_spec(), handle as int, 0);
                    assert forall|a: int, b: int|
                        0 <= a < b < self.peers@.len() implies (#[trigger] self.peers@[a]).handle
                        != (#[trigger] self.peers@[b]).handle && self.peers@[a].id
                        != self.peers@[b].id by {
                        assert(self.peers@[a].handle == old(self).peers@[a].handle
                            && self.peers@[a].id == old(self).peers@[a].id);
                        assert(self.peers@[b].handle == old(self).peers@[b].handle
                            && self.peers@[b].id == old(self).peers@[b].id);
                    }
                    assert forall|k: int| 0 <= k < self.peers@.len() implies (
                    #[trigger] self.peers@[k]).handle == old(self).peers@[k].handle by {}
                    assert(self.peers_ok());
                    if self.phase_spec() is Running {
                        lemma_running_inv_peers_irrelevant(*old(self), *self);
                    }
                    assert(self.wf());
                }
            },
            None => {
                proof {
                    lemma_peer_index_props(old(self).peers_spec(), handle as int, 0);
                }
            },
        }
        SimError::PeerDisconnected(handle)
    }

    /// The lifecycle phase.
    pub fn phase(&self) -> (p: SessionPhase)
        ensures
            p == self.phase_spec(),
    {
        self.phase
    }

    /// The local handle, if assigned yet.
    pub fn local_handle(&self) -> (h: LocalHandle)
        ensures
            h == self.local_spec(),
    {
        self.local
    }

    /// The next frame to step.
    pub fn current_frame(&self) -> (f: u64)
        ensures
            f == self.frame_spec(),
    {
        self.frame
    }

    /// The frame horizon below which every peer's inputs are confirmed
    /// and the snapshots are prunable.
    pub fn confirmed_floor(&self) -> (r: u64)
        ensures
            r == self.confirmed_floor_spec(),
    {
        self.buffer.confirmed_floor()
    }

    /// Read-only access to the latest confirmed-or-predicted world, for
    /// the presentation collaborator.
    pub fn world(&self) -> (w: &World)
        ensures
            w@ == self.world_spec(),
    {
        &self.world
    }

    /// How many frames of this peer's input have been confirmed.
    pub fn confirmed_frames(&self, handle: usize) -> (r: Option<usize>)
        ensures
            match r {
                Some(n) => peer_index(self.peers_spec(), handle as int, 0) >= 0 && n
                    == self.peers_spec()[peer_index(self.peers_spec(), handle as int, 0)].confirmed@.len(),
                None => peer_index(self.peers_spec(), handle as int, 0) < 0,
            },
    {
        match self.find_peer(handle) {
            Some(i) => Some(self.peers[i].confirmed.len()),
            None => None,
        }
    }

    /// The local frame advantage over a peer: how far the simulation has
    /// run past that peer's confirmed horizon. Used by the caller to
    /// throttle or to judge connection health.
    pub fn frames_ahead(&self, handle: usize) -> (r: Option<u64>)
        ensures
            match r {
                Some(a) => peer_index(self.peers_spec(), handle as int, 0) >= 0 && a as int == (
                if self.frame_spec() as int > self.peers_spec()[peer_index(
                    self.peers_spec(),
                    handle as int,
                    0,
                )].confirmed@.len() {
                    self.frame_spec() as int - self.peers_spec()[peer_index(
                        self.peers_spec(),
                        handle as int,
                        0,
                    )].confirmed@.len()
                } else {
                    0
                }),
                None => peer_index(self.peers_spec(), handle as int, 0) < 0,
            },
    {
        match self.find_peer(handle) {
            Some(i) => {
                let c = self.peers[i].confirmed.len() as u64;
                if self.frame > c {
                    Some(self.frame - c)
                } else {
                    Some(0)
                }
            },
            None => None,
        }
    }
}

/// An exact copy of a symbol list.
fn copy_syms(v: &Vec<u8>) -> (r: Vec<u8>)
    ensures
        r@ == v@,
{
    let mut r: Vec<u8> = Vec::new();
    let mut i: usize = 0;
    while i < v.len()
        invariant
            i <= v@.len(),
            r@.len() == i,
            forall|k: int| 0 <= k < i ==> #[trigger] r@[k] == v@[k],
        decreases v@.len() - i,
    {
        r.push(v[i]);
        i = i + 1;
    }
    proof {
        assert(r@ =~= v@);
    }
    r
}

/// Replacing a peer while keeping its handle leaves the handle scan
/// unchanged.
proof fn lemma_peer_index_update(
    peers: Seq<PeerConnection>,
    pi: int,
    np: PeerConnection,
    h: int,
    from: int,
)
    requires
        0 <= pi < peers.len(),
        np.handle == peers[pi].handle,
        0 <= from,
    ensures
        peer_index(peers.update(pi, np), h, from) == peer_index(peers, h, from),
    decreases peers.len() - from,
{
    if from < peers.len() {
        lemma_peer_index_update(peers, pi, np, h, from + 1);
    }
}

/// Two distinct numbers with the same residue lie at least one whole
/// window apart.
proof fn lemma_residue_gap(a: int, b: int, w: int)
    requires
        0 < w,
        a < b,
        a % w == b % w,
    ensures
        b - a >= w,
{
    vstd::arithmetic::div_mod::lemma_fundamental_div_mod(a, w);
    vstd::arithmetic::div_mod::lemma_fundamental_div_mod(b, w);
    vstd::arithmetic::div_mod::lemma_div_is_ordered(a, b, w);
    assert(b - a == w * (b / w) - w * (a / w));
    vstd::arithmetic::mul::lemma_mul_is_distributive_sub(w, b / w, a / w);
    assert(b - a == w * (b / w - a / w));
    if b / w == a / w {
        assert(b == a);
    }
    vstd::arithmetic::mul::lemma_mul_inequality(1, b / w - a / w, w);
    assert(w * 1 <= w * (b / w - a / w)) by (nonlinear_arith)
        requires
            1 <= b / w - a / w,
            0 < w,
    ;
}

/// The running invariant does not depend on the peer list: two sessions
/// that agree on everything else share it.
proof fn lemma_running_inv_peers_irrelevant(s1: Session, s2: Session)
    requires
        s1.running_inv(),
        s2.cfg_spec() == s1.cfg_spec(),
        s2.frame_spec() == s1.frame_spec(),
        s2.world_spec() == s1.world_spec(),
        s2.buffer_spec().wf(),
        s2.buffer_spec().window_spec() == s1.buffer_spec().window_spec(),
        s2.buffer_spec().latest_spec() == s1.buffer_spec().latest_spec(),
        s2.buffer_spec().contents() == s1.buffer_spec().contents(),
        s2.pending_spec() == s1.pending_spec(),
        s2.history_spec() == s1.history_spec(),
    ensures
        s2.running_inv(),
{
    assert(s2.buffer.contents() == s1.buffer.contents());
    assert(initial_world(&s2.cfg) == initial_world(&s1.cfg));
    assert(s2.hist_rows_ok()) by {
        assert forall|f: int|
            0 <= f < s2.frame as int implies (#[trigger] s2.history_spec()[f]).len()
            == s2.cfg.num_players by {
            assert(s1.history_spec()[f] == s2.history_spec()[f]);
        }
    }
    assert(s2.snaps_consistent()) by {
        assert forall|f: u64|
            (#[trigger] s2.buffer.contents().dom().contains(f)) implies f <= s2.frame
                && s2.buffer.contents()[f] == run_spec(
            initial_world(&s2.cfg),
            s2.history_spec().take(f as int),
            &s2.cfg,
        ) && wf_world(s2.buffer.contents()[f], &s2.cfg) by {
            assert(s1.buffer.contents().dom().contains(f));
            assert(s1.buffer.contents()[f] == s2.buffer.contents()[f]);
        }
    }
    assert(s2.window_retained()) by {
        assert forall|f: u64|
            f <= s2.frame && f as int + s2.cfg.window as int > s2.frame as int implies #[trigger] s2.buffer.contents().dom().contains(
            f,
        ) by {
            assert(s1.buffer.contents().dom().contains(f));
        }
    }
    assert(s2.running_inv());
}

/// What the handle scan returns: either -1 and no index at or after
/// `from` drives the handle, or the first such index.
proof fn lemma_peer_index_props(peers: Seq<PeerConnection>, handle: int, from: int)
    requires
        0 <= from,
    ensures
        peer_index(peers, handle, from) == -1 ==> forall|k: int|
            from <= k < peers.len() ==> (#[trigger] peers[k]).handle != handle,
        peer_index(peers, handle, from) != -1 ==> {
            let r = peer_index(peers, handle, from);
            &&& from <= r < peers.len()
            &&& peers[r].handle == handle
            &&& forall|k: int| from <= k < r ==> (#[trigger] peers[k]).handle != handle
        },
    decreases peers.len() - from,
{
    if from < peers.len() {
        lemma_peer_index_props(peers, handle, from + 1);
    }
}

} // verus!
