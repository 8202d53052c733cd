//! Per-volume state: an immutable root that readers take whole, and the sequenced updates that
//! replace it.
//!
//! Every update builds a new root with the next epoch and swaps it in; the old root is kept
//! until its last reader lets go. Beside the current root stands a poisoned copy of it, swapped
//! in when a publication fails. The tape stays the authority on what is committed; this is the
//! state that a running instance can rebuild.
use vstd::prelude::*;

use std::sync::Arc;

use crate::engine::tree;
use crate::engine::tree::{DirNode, FileVersion, PublishStats, TreeView};
use crate::idmap::IdMap;
use crate::strmap::{Dup, StrMap, StrSet};

verus! {

pub type Path = String;

pub type SessionId = u64;

pub type ReservationId = u64;

pub type BatchId = u64;

pub type InstanceId = u64;

#[derive(Clone, Copy, Debug, PartialEq, Eq, Structural)]
pub enum PendingState {
    InProgress,
    Ready,
}

/// A change on a path that no index covers yet.
#[derive(Clone, Copy, Debug, PartialEq, Eq, Structural)]
pub struct PendingEntry {
    pub session: SessionId,
    pub version: u64,
    pub state: PendingState,
    /// Logical length received so far.
    pub staged_len: u64,
    /// Length of the prefix that a reliable index covers.
    pub committed_prefix: u64,
    /// When the oldest uncommitted change was registered; publication does not reset it.
    pub earliest_registered: u64,
    pub reservation: ReservationId,
    /// Publication takes the path away instead of writing a version.
    pub removal: bool,
}

impl View for PendingEntry {
    type V = PendingEntry;

    open spec fn view(&self) -> PendingEntry {
        *self
    }
}

impl Dup for PendingEntry {
    fn dup(&self) -> (r: Self) {
        *self
    }
}

/// Space set aside for one change.
#[derive(Debug, PartialEq, Eq)]
pub struct Reservation {
    pub session: SessionId,
    pub path: Path,
    pub reserved: u64,
    pub consumed: u64,
    pub released: bool,
}

#[verifier::ext_equal]
pub struct ReservationView {
    pub session: SessionId,
    pub path: Seq<char>,
    pub reserved: u64,
    pub consumed: u64,
    pub released: bool,
}

impl View for Reservation {
    type V = ReservationView;

    open spec fn view(&self) -> ReservationView {
        ReservationView {
            session: self.session,
            path: self.path@,
            reserved: self.reserved,
            consumed: self.consumed,
            released: self.released,
        }
    }
}

impl Dup for Reservation {
    fn dup(&self) -> (r: Self) {
        Reservation {
            session: self.session,
            path: self.path.clone(),
            reserved: self.reserved,
            consumed: self.consumed,
            released: self.released,
        }
    }
}

impl ReservationView {
    /// What is set aside and not yet used.
    pub open spec fn unconsumed(self) -> nat {
        if self.reserved >= self.consumed {
            (self.reserved - self.consumed) as nat
        } else {
            0
        }
    }

    /// What the reservation holds back from others.
    pub open spec fn held(self) -> nat {
        if self.released {
            0
        } else {
            self.unconsumed()
        }
    }
}

impl Reservation {
    pub fn unconsumed(&self) -> (r: u64)
        ensures
            r == self@.unconsumed(),
    {
        if self.reserved >= self.consumed {
            self.reserved - self.consumed
        } else {
            0
        }
    }
}

/// The sum of what a set of reservations holds back.
pub open spec fn held_total(m: Map<u64, ReservationView>) -> nat
    decreases m.dom().len(),
    when m.dom().finite()
{
    if m.dom().len() == 0 {
        0
    } else {
        let k = m.dom().choose();
        m[k].held() + held_total(m.remove(k))
    }
}

/// Any reservation can be counted first.
pub proof fn lemma_held_remove(m: Map<u64, ReservationView>, k: u64)
    requires
        m.dom().finite(),
        m.contains_key(k),
    ensures
        held_total(m) == m[k].held() + held_total(m.remove(k)),
    decreases m.dom().len(),
{
    let c = m.dom().choose();
    assert(m.dom().contains(k));
    if c != k {
        assert(m.remove(c).dom() =~= m.dom().remove(c));
        assert(m.remove(k).dom() =~= m.dom().remove(k));
        lemma_held_remove(m.remove(c), k);
        lemma_held_remove(m.remove(k), c);
        assert(m.remove(c).remove(k) =~= m.remove(k).remove(c));
    }
}

/// Adding a reservation under a new number adds what it holds.
pub proof fn lemma_held_insert(m: Map<u64, ReservationView>, k: u64, r: ReservationView)
    requires
        m.dom().finite(),
    ensures
        held_total(m.insert(k, r)) == r.held() + held_total(m.remove(k)),
        m.contains_key(k) ==> held_total(m) == m[k].held() + held_total(m.remove(k)),
        !m.contains_key(k) ==> held_total(m.remove(k)) == held_total(m),
{
    let n = m.insert(k, r);
    assert(n.dom() =~= m.dom().insert(k));
    lemma_held_remove(n, k);
    assert(n.remove(k) =~= m.remove(k));
    if m.contains_key(k) {
        lemma_held_remove(m, k);
    } else {
        assert(m.remove(k) =~= m);
    }
}

/// The capacity account: what may still be promised is the measured free space less what is held
/// back and less what was used since the measurement.
#[derive(Debug, PartialEq, Eq)]
pub struct Ledger {
    pub baseline_free: u64,
    /// Epoch of the measurement.
    pub calibration_epoch: u64,
    pub consumed_since_cut: u64,
    pub reservations: IdMap<Reservation>,
}

#[verifier::ext_equal]
pub struct LedgerView {
    pub baseline_free: u64,
    pub calibration_epoch: u64,
    pub consumed_since_cut: u64,
    pub reservations: Map<u64, ReservationView>,
}

impl View for Ledger {
    type V = LedgerView;

    open spec fn view(&self) -> LedgerView {
        LedgerView {
            baseline_free: self.baseline_free,
            calibration_epoch: self.calibration_epoch,
            consumed_since_cut: self.consumed_since_cut,
            reservations: self.reservations@,
        }
    }
}

impl Dup for Ledger {
    fn dup(&self) -> (r: Self) {
        Ledger {
            baseline_free: self.baseline_free,
            calibration_epoch: self.calibration_epoch,
            consumed_since_cut: self.consumed_since_cut,
            reservations: self.reservations.dup(),
        }
    }
}

impl LedgerView {
    /// What may still be promised.
    pub open spec fn available(self) -> nat {
        let taken = held_total(self.reservations) + self.consumed_since_cut;
        if self.baseline_free >= taken {
            (self.baseline_free - taken) as nat
        } else {
            0
        }
    }
}

impl Ledger {
    pub fn reserved_unconsumed(&self) -> (r: u64)
        requires
            held_total(self@.reservations) <= u64::MAX,
        ensures
            r == held_total(self@.reservations),
    {
        let keys = self.reservations.keys();
let n = keys.len();
        let ghost m = self@.reservations;
        let ghost ks = crate::idmap::sorted_keys(m);
        let mut sum: u64 = 0;
        let mut i: usize = 0;
        let ghost mut rest = m;
        let ghost mut seen = Set::<u64>::empty();
        while i < n
            invariant
                n == ks.len(),
                i <= n,
                m == self@.reservations,
                ks == crate::idmap::sorted_keys(m),
                keys@ == ks,
                ks.no_duplicates(),
                crate::idmap::listing(ks, m.dom()),
                rest.dom().finite(),
                forall|j: int| i <= j < n ==> rest.contains_key(#[trigger] ks[j]) && rest[ks[j]]
                    == m[ks[j]],
                rest.dom().len() == n - i,
                sum + held_total(rest) == held_total(m),
                held_total(m) <= u64::MAX,
            decreases n - i,
        {
            assert(ks.contains(ks[i as int]));
            let r = self.reservations.value(keys[i]);
            let ghost k = ks[i as int];
            proof {
                lemma_held_remove(rest, k);
                assert(rest.remove(k).dom() =~= rest.dom().remove(k));
                rest = rest.remove(k);
            }
            if !r.released {
                sum = sum + r.unconsumed();
            }
            i += 1;
        }
        sum
    }

    pub fn available(&self) -> (r: u64)
        requires
            held_total(self@.reservations) <= u64::MAX,
        ensures
            r == self@.available(),
    {
        self.baseline_free.saturating_sub(self.reserved_unconsumed()).saturating_sub(
            self.consumed_since_cut,
        )
    }
}

#[derive(Clone, Copy, Debug, PartialEq, Eq, Structural)]
pub enum SessionState {
    Active,
    /// Expired or cancelled, but a batch under way still refers to it.
    Closing,
    Expired,
}

#[derive(Clone, Copy, Debug, PartialEq, Eq, Structural)]
pub struct Session {
    pub deadline: u64,
    pub state: SessionState,
    /// Batches under way that refer to the session.
    pub refs: u32,
    /// Epoch of the last renewal; an expiry check older than this is void.
    pub renewed_at_epoch: u64,
}

impl View for Session {
    type V = Session;

    open spec fn view(&self) -> Session {
        *self
    }
}

impl Dup for Session {
    fn dup(&self) -> (r: Self) {
        *self
    }
}

#[derive(Clone, Copy, Debug, PartialEq, Eq, Structural)]
pub struct CoverEntry {
    pub version: u64,
    pub len: u64,
    /// The whole file is covered, not a prefix of an open one.
    pub complete: bool,
    /// Publication takes the path away.
    pub removal: bool,
}

impl View for CoverEntry {
    type V = CoverEntry;

    open spec fn view(&self) -> CoverEntry {
        *self
    }
}

impl Dup for CoverEntry {
    fn dup(&self) -> (r: Self) {
        *self
    }
}

/// What a batch will publish, fixed when it is frozen.
#[derive(Debug, PartialEq, Eq)]
pub struct FrozenBatch {
    pub batch_id: BatchId,
    pub instance: InstanceId,
    pub base_epoch: u64,
    pub generation: u64,
    pub cover: StrMap<CoverEntry>,
    pub sessions: Vec<SessionId>,
}

#[verifier::ext_equal]
pub struct BatchView {
    pub batch_id: BatchId,
    pub instance: InstanceId,
    pub base_epoch: u64,
    pub generation: u64,
    pub cover: Map<Seq<char>, CoverEntry>,
    pub sessions: Seq<SessionId>,
}

impl View for FrozenBatch {
    type V = BatchView;

    open spec fn view(&self) -> BatchView {
        BatchView {
            batch_id: self.batch_id,
            instance: self.instance,
            base_epoch: self.base_epoch,
            generation: self.generation,
            cover: self.cover@,
            sessions: self.sessions@,
        }
    }
}

#[derive(Debug, PartialEq, Eq)]
pub struct Capability {
    pub trusted: bool,
    pub readable: bool,
    pub writable: bool,
    pub reason: Option<String>,
}

#[verifier::ext_equal]
pub struct CapabilityView {
    pub trusted: bool,
    pub readable: bool,
    pub writable: bool,
    pub reason: Option<Seq<char>>,
}

impl View for Capability {
    type V = CapabilityView;

    open spec fn view(&self) -> CapabilityView {
        CapabilityView {
            trusted: self.trusted,
            readable: self.readable,
            writable: self.writable,
            reason: match self.reason {
                Some(s) => Some(s@),
                None => None,
            },
        }
    }
}

impl Dup for Capability {
    fn dup(&self) -> (r: Self) {
        Capability {
            trusted: self.trusted,
            readable: self.readable,
            writable: self.writable,
            reason: match &self.reason {
                Some(s) => Some(s.clone()),
                None => None,
            },
        }
    }
}

impl CapabilityView {
    /// The reason given, empty where there is none.
    pub open spec fn why(self) -> Seq<char> {
        match self.reason {
            Some(s) => s,
            None => Seq::empty(),
        }
    }
}

impl Capability {
    fn why(&self) -> (r: String)
        ensures
            r@ == self@.why(),
    {
        match &self.reason {
            Some(s) => s.clone(),
            None => String::new(),
        }
    }
}

/// One immutable state of a volume.
#[derive(Debug)]
pub struct VolumeRoot {
    pub epoch: u64,
    pub instance: InstanceId,
    pub committed: Arc<DirNode>,
    pub generation: u64,
    pub pending: Arc<StrMap<PendingEntry>>,
    pub ledger: Arc<Ledger>,
    pub sessions: Arc<IdMap<Session>>,
    pub commit_slot: Option<Arc<FrozenBatch>>,
    pub capability: Capability,
}

#[verifier::ext_equal]
pub struct RootView {
    pub epoch: u64,
    pub instance: InstanceId,
    pub committed: TreeView,
    pub generation: u64,
    pub pending: Map<Seq<char>, PendingEntry>,
    pub ledger: LedgerView,
    pub sessions: Map<u64, Session>,
    pub commit_slot: Option<BatchView>,
    pub capability: CapabilityView,
}

/// The batch under way, if there is one.
pub open spec fn slot_view(slot: Option<Arc<FrozenBatch>>) -> Option<BatchView> {
    match slot {
        Some(b) => Some(b@),
        None => None,
    }
}

impl View for VolumeRoot {
    type V = RootView;

    open spec fn view(&self) -> RootView {
        RootView {
            epoch: self.epoch,
            instance: self.instance,
            committed: self.committed.tree(),
            generation: self.generation,
            pending: self.pending@,
            ledger: self.ledger@,
            sessions: self.sessions@,
            commit_slot: slot_view(self.commit_slot),
            capability: self.capability@,
        }
    }
}

/// Why a poisoned root cannot be used.
pub open spec fn poison_reason() -> Seq<char> {
    "发布失败，视图不可信，需重建"@
}

impl RootView {
    /// The same state in the next epoch.
    pub open spec fn next(self) -> RootView {
        RootView { epoch: (self.epoch + 1) as u64, ..self }
    }

    /// The next epoch of the same state, marked as not to be trusted.
    pub open spec fn poisoned(self) -> RootView {
        RootView {
            capability: CapabilityView {
                trusted: false,
                readable: false,
                writable: false,
                reason: Some(poison_reason()),
            },
            ..self.next()
        }
    }

    /// The session exists and is active.
    pub open spec fn active(self, session: SessionId) -> bool {
        self.sessions.contains_key(session) && self.sessions[session].state == SessionState::Active
    }
}

impl VolumeRoot {
    fn next(&self) -> (r: VolumeRoot)
        requires
            self.epoch < u64::MAX,
        ensures
            r@ == self@.next(),
    {
        VolumeRoot {
            epoch: self.epoch + 1,
            instance: self.instance,
            committed: self.committed.clone(),
            generation: self.generation,
            pending: self.pending.clone(),
            ledger: self.ledger.clone(),
            sessions: self.sessions.clone(),
            commit_slot: match &self.commit_slot {
                Some(b) => Some(b.clone()),
                None => None,
            },
            capability: self.capability.dup(),
        }
    }

    fn is_active(&self, session: SessionId) -> (r: bool)
        ensures
            r == self@.active(session),
    {
        match self.sessions.get(session) {
            Some(s) => s.state == SessionState::Active,
            None => false,
        }
    }
}

fn build_poison(root: &VolumeRoot) -> (r: Arc<VolumeRoot>)
    requires
        root.epoch < u64::MAX,
    ensures
        r@ == root@.poisoned(),
{
    let mut p = root.next();
    p.capability = Capability {
        trusted: false,
        readable: false,
        writable: false,
        reason: Some("发布失败，视图不可信，需重建".to_owned()),
    };
    Arc::new(p)
}

/// Someone who waits until a length of a path is reliably committed.
#[derive(Clone, Debug, PartialEq, Eq)]
pub struct Waiter {
    pub id: u64,
    pub path: Path,
    pub len_required: u64,
    pub notified: bool,
}

#[verifier::ext_equal]
pub struct WaiterView {
    pub id: u64,
    pub path: Seq<char>,
    pub len_required: u64,
    pub notified: bool,
}

impl View for Waiter {
    type V = WaiterView;

    open spec fn view(&self) -> WaiterView {
        WaiterView {
            id: self.id,
            path: self.path@,
            len_required: self.len_required,
            notified: self.notified,
        }
    }
}

#[derive(Clone, Debug, PartialEq, Eq)]
pub enum StateError {
    NotWritable(String),
    InsufficientCapacity { requested: u64, available: u64 },
    SessionInvalid(SessionId),
    PathBusy(Path),
    NoSuchPending(Path),
    CommitSlotOccupied(BatchId),
    /// The batch comes from an instance that has been replaced.
    StaleInstance { batch: InstanceId, current: InstanceId },
    EvidenceMismatch { expected: BatchId, got: BatchId },
    /// The new root could not be published; the volume is no longer trusted.
    PublishFailed { notified: Vec<u64> },
}

#[verifier::ext_equal]
pub enum StateErrorView {
    NotWritable(Seq<char>),
    InsufficientCapacity { requested: u64, available: u64 },
    SessionInvalid(SessionId),
    PathBusy(Seq<char>),
    NoSuchPending(Seq<char>),
    CommitSlotOccupied(BatchId),
    StaleInstance { batch: InstanceId, current: InstanceId },
    EvidenceMismatch { expected: BatchId, got: BatchId },
    PublishFailed { notified: Seq<u64> },
}

impl View for StateError {
    type V = StateErrorView;

    open spec fn view(&self) -> StateErrorView {
        match *self {
            StateError::NotWritable(s) => StateErrorView::NotWritable(s@),
            StateError::InsufficientCapacity { requested, available } => {
                StateErrorView::InsufficientCapacity { requested, available }
            },
            StateError::SessionInvalid(s) => StateErrorView::SessionInvalid(s),
            StateError::PathBusy(p) => StateErrorView::PathBusy(p@),
            StateError::NoSuchPending(p) => StateErrorView::NoSuchPending(p@),
            StateError::CommitSlotOccupied(b) => StateErrorView::CommitSlotOccupied(b),
            StateError::StaleInstance { batch, current } => {
                StateErrorView::StaleInstance { batch, current }
            },
            StateError::EvidenceMismatch { expected, got } => {
                StateErrorView::EvidenceMismatch { expected, got }
            },
            StateError::PublishFailed { notified } => {
                StateErrorView::PublishFailed { notified: notified@ }
            },
        }
    }
}

/// What a publication did.
#[derive(Clone, Debug, PartialEq, Eq)]
pub struct PublishOutcome {
    pub epoch: u64,
    pub generation: u64,
    /// Waiters that this publication covered and notified.
    pub notified: Vec<u64>,
    /// The batch was settled before; the state did not change.
    pub duplicate: bool,
}

/// The caller's proof that a batch reached the tape.
#[derive(Clone, Copy, Debug, PartialEq, Eq, Structural)]
pub struct S4Evidence {
    pub batch_id: BatchId,
    pub generation: u64,
}

/// The sequenced state of one volume.
#[derive(Debug)]
pub struct VolumeState {
    current: Arc<VolumeRoot>,
    poison: Arc<VolumeRoot>,
    retired: Vec<Arc<VolumeRoot>>,
    waiters: Vec<Waiter>,
    next_batch: BatchId,
    next_version: u64,
    next_reservation: ReservationId,
    next_waiter: u64,
    fail_next_publish: bool,
    stats: PublishStats,
}

#[verifier::ext_equal]
pub struct VolumeView {
    pub current: RootView,
    pub poison: RootView,
    pub retired: Seq<RootView>,
    pub waiters: Seq<WaiterView>,
    pub next_batch: BatchId,
    pub next_version: u64,
    pub next_reservation: ReservationId,
    pub next_waiter: u64,
    pub fail_next_publish: bool,
    pub stats: PublishStats,
}

impl View for VolumeState {
    type V = VolumeView;

    closed spec fn view(&self) -> VolumeView {
        VolumeView {
            current: self.current@,
            poison: self.poison@,
            retired: Seq::new(self.retired@.len(), |i: int| self.retired@[i]@),
            waiters: Seq::new(self.waiters@.len(), |i: int| self.waiters@[i]@),
            next_batch: self.next_batch,
            next_version: self.next_version,
            next_reservation: self.next_reservation,
            next_waiter: self.next_waiter,
            fail_next_publish: self.fail_next_publish,
            stats: self.stats,
        }
    }
}

impl VolumeView {
    /// Holds of every state: each pending change has its reservation, reservation numbers are
    /// still to be handed out in order, what is held back can be summed, and the poisoned root
    /// stands ready, or is in use already: then nothing is trusted, readable or writable.
    pub open spec fn wf(self) -> bool {
        &&& self.current.wf(self.next_reservation)
        &&& self.poison == self.current.poisoned() || (self.poison == self.current
            && !self.current.capability.trusted && !self.current.capability.readable
            && !self.current.capability.writable)
    }

    /// The counters can take `n` more steps.
    pub open spec fn room(self, n: nat) -> bool {
        &&& self.current.epoch + n < u64::MAX
        &&& self.next_batch + n <= u64::MAX
        &&& self.next_version + n <= u64::MAX
        &&& self.next_reservation + n <= u64::MAX
        &&& self.next_waiter + n <= u64::MAX
    }

    /// `r` becomes the current root.
    pub open spec fn installed(self, r: RootView) -> VolumeView {
        VolumeView {
            current: r,
            poison: r.poisoned(),
            retired: self.retired.push(self.current),
            ..self
        }
    }

    /// The poisoned root becomes the current root.
    pub open spec fn poisoned_now(self) -> VolumeView {
        VolumeView {
            current: self.poison,
            retired: self.retired.push(self.current),
            stats: PublishStats { poisoned: (self.stats.poisoned + 1) as u64, ..self.stats },
            ..self
        }
    }
}

impl RootView {
    pub open spec fn wf(self, next_reservation: u64) -> bool {
        &&& self.ledger.reservations.dom().finite()
        &&& held_total(self.ledger.reservations) <= u64::MAX
        &&& forall|id: u64| #[trigger] self.ledger.reservations.contains_key(id) ==> id < next_reservation
        &&& forall|p: Seq<char>| #[trigger]
            self.pending.contains_key(p) ==> self.ledger.reservations.contains_key(
                self.pending[p].reservation,
            )
    }

    /// With a session opened, or reopened.
    pub open spec fn with_session(self, session: SessionId, deadline: u64) -> RootView {
        let next = self.next();
        RootView {
            sessions: self.sessions.insert(
                session,
                Session {
                    deadline,
                    state: SessionState::Active,
                    refs: 0,
                    renewed_at_epoch: next.epoch,
                },
            ),
            ..next
        }
    }

    /// With an active session's deadline put off.
    pub open spec fn with_renewal(self, session: SessionId, new_deadline: u64) -> RootView {
        let next = self.next();
        let s = self.sessions[session];
        RootView {
            sessions: self.sessions.insert(
                session,
                Session {
                    deadline: if s.deadline >= new_deadline {
                        s.deadline
                    } else {
                        new_deadline
                    },
                    renewed_at_epoch: next.epoch,
                    ..s
                },
            ),
            ..next
        }
    }

    /// With the free space measured anew.
    pub open spec fn with_calibration(self, device_free: u64) -> RootView {
        let next = self.next();
        RootView {
            ledger: LedgerView {
                baseline_free: device_free,
                calibration_epoch: next.epoch,
                consumed_since_cut: 0,
                ..self.ledger
            },
            ..next
        }
    }
}

impl VolumeState {
    /// The first root of an instance, over the committed view that recovery found.
    pub fn new(
        instance: InstanceId,
        committed: Arc<DirNode>,
        generation: u64,
        baseline_free: u64,
        writable: bool,
    ) -> (r: Self)
        ensures
            r@.wf(),
            r@.current == (RootView {
                epoch: 1,
                instance,
                committed: committed.tree(),
                generation,
                pending: Map::empty(),
                ledger: LedgerView {
                    baseline_free,
                    calibration_epoch: 1,
                    consumed_since_cut: 0,
                    reservations: Map::empty(),
                },
                sessions: Map::empty(),
                commit_slot: None,
                capability: CapabilityView { trusted: true, readable: true, writable, reason: None },
            }),
            r@ == (VolumeView {
                current: r@.current,
                poison: r@.current.poisoned(),
                retired: Seq::empty(),
                waiters: Seq::empty(),
                next_batch: 1,
                next_version: 1,
                next_reservation: 1,
                next_waiter: 1,
                fail_next_publish: false,
                stats: PublishStats {
                    nodes_copied: 0,
                    last_publish_nodes_copied: 0,
                    publishes: 0,
                    poisoned: 0,
                },
            }),
    {
        let root = Arc::new(
            VolumeRoot {
                epoch: 1,
                instance,
                committed,
                generation,
                pending: Arc::new(StrMap::new()),
                ledger: Arc::new(
                    Ledger {
                        baseline_free,
                        calibration_epoch: 1,
                        consumed_since_cut: 0,
                        reservations: IdMap::new(),
                    },
                ),
                sessions: Arc::new(IdMap::new()),
                commit_slot: None,
                capability: Capability { trusted: true, readable: true, writable, reason: None },
            },
        );
        let poison = build_poison(&root);
        VolumeState {
            current: root,
            poison,
            retired: Vec::new(),
            waiters: Vec::new(),
            next_batch: 1,
            next_version: 1,
            next_reservation: 1,
            next_waiter: 1,
            fail_next_publish: false,
            stats: PublishStats::default(),
        }
    }

    /// Whether the counters can take `n` more steps.
    pub fn has_room(&self, n: u64) -> (r: bool)
        ensures
            r == self@.room(n as nat),
    {
        self.current.epoch < u64::MAX - n && self.next_batch <= u64::MAX - n && self.next_version
            <= u64::MAX - n && self.next_reservation <= u64::MAX - n && self.next_waiter <= u64::MAX
            - n
    }

    /// The current root, whole. What it holds never changes.
    pub fn load(&self) -> (r: Arc<VolumeRoot>)
        ensures
            r@ == self@.current,
    {
        self.current.clone()
    }

    pub fn stats(&self) -> (r: PublishStats)
        ensures
            r == self@.stats,
    {
        self.stats
    }

    pub fn retired_count(&self) -> (r: usize)
        ensures
            r == self@.retired.len(),
    {
        self.retired.len()
    }

    /// Makes the next publication fail just before it would be swapped in.
    pub fn fail_next_publish(&mut self)
        ensures
            final(self)@ == (VolumeView { fail_next_publish: true, ..old(self)@ }),
    {
        self.fail_next_publish = true;
    }

    fn swap(&mut self, new_root: VolumeRoot) -> (r: Arc<VolumeRoot>)
        requires
            new_root.epoch < u64::MAX,
        ensures
            final(self)@ == old(self)@.installed(new_root@),
            r@ == new_root@,
    {
        let poison = build_poison(&new_root);
        let new_root = Arc::new(new_root);
        let mut slot = new_root.clone();
        std::mem::swap(&mut slot, &mut self.current);
        self.retired.push(slot);
        self.poison = poison;
        assert(self@.retired =~= old(self)@.retired.push(old(self)@.current));
        new_root
    }

    /// Swaps the poisoned root in.
    pub fn poison(&mut self) -> (r: Arc<VolumeRoot>)
        requires
            old(self)@.wf(),
            old(self)@.stats.poisoned < u64::MAX,
        ensures
            final(self)@ == old(self)@.poisoned_now(),
            final(self)@.wf(),
            r@ == old(self)@.poison,
    {
        let p = self.poison.clone();
        let mut slot = p.clone();
        std::mem::swap(&mut slot, &mut self.current);
        self.retired.push(slot);
        self.stats.poisoned = self.stats.poisoned + 1;
        assert(self@.retired =~= old(self)@.retired.push(old(self)@.current));
        p
    }

    /// Opens a session, or reopens it; returns the new epoch.
    pub fn open_session(&mut self, session: SessionId, deadline: u64) -> (r: u64)
        requires
            old(self)@.wf(),
            old(self)@.room(1),
        ensures
            final(self)@ == old(self)@.installed(
                old(self)@.current.with_session(session, deadline),
            ),
            final(self)@.wf(),
            r == final(self)@.current.epoch,
    {
        let mut root = self.current.next();
        let mut sessions = (*root.sessions).dup();
        sessions.insert(
            session,
            Session {
                deadline,
                state: SessionState::Active,
                refs: 0,
                renewed_at_epoch: root.epoch,
            },
        );
        root.sessions = Arc::new(sessions);
        self.swap(root).epoch
    }

    /// Puts an active session's deadline off, never earlier.
    pub fn renew(&mut self, session: SessionId, new_deadline: u64) -> (r: Result<u64, StateError>)
        requires
            old(self)@.wf(),
            old(self)@.room(1),
        ensures
            final(self)@.wf(),
            if old(self)@.current.active(session) {
                &&& final(self)@ == old(self)@.installed(
                    old(self)@.current.with_renewal(session, new_deadline),
                )
                &&& r == Ok::<u64, StateError>(final(self)@.current.epoch)
            } else {
                &&& final(self)@ == old(self)@
                &&& r is Err && r->Err_0@ == StateErrorView::SessionInvalid(session)
            },
    {
        let mut root = self.current.next();
        let mut sessions = (*root.sessions).dup();
        let s: Session = match sessions.get(session) {
            Some(s) => *s,
            None => {
                return Err(StateError::SessionInvalid(session));
            },
        };
        if s.state != SessionState::Active {
            return Err(StateError::SessionInvalid(session));
        }
        let deadline: u64 = if s.deadline >= new_deadline {
            s.deadline
        } else {
            new_deadline
        };
        sessions.insert(
            session,
            Session { deadline, state: s.state, refs: s.refs, renewed_at_epoch: root.epoch },
        );
        root.sessions = Arc::new(sessions);
        Ok(self.swap(root).epoch)
    }

    /// Replaces the free-space baseline by a device reading; returns the new epoch.
    pub fn calibrate(&mut self, device_free: u64) -> (r: u64)
        requires
            old(self)@.wf(),
            old(self)@.room(1),
        ensures
            final(self)@ == old(self)@.installed(old(self)@.current.with_calibration(device_free)),
            final(self)@.wf(),
            r == final(self)@.current.epoch,
    {
        let mut root = self.current.next();
        let mut ledger = (*root.ledger).dup();
        ledger.baseline_free = device_free;
        ledger.calibration_epoch = root.epoch;
        ledger.consumed_since_cut = 0;
        root.ledger = Arc::new(ledger);
        self.swap(root).epoch
    }
}

/// Releasing and consuming never raise what is held back.
pub proof fn lemma_held_le(a: Map<u64, ReservationView>, b: Map<u64, ReservationView>)
    requires
        a.dom().finite(),
        b.dom() == a.dom(),
        forall|k: u64| #[trigger] a.contains_key(k) ==> b[k].held() <= a[k].held(),
    ensures
        held_total(b) <= held_total(a),
    decreases a.dom().len(),
{
    if a.dom().len() > 0 {
        let k = a.dom().choose();
        assert(a.contains_key(k));
        lemma_held_remove(a, k);
        lemma_held_remove(b, k);
        assert(a.remove(k).dom() =~= a.dom().remove(k));
        assert(b.remove(k).dom() =~= a.remove(k).dom());
        assert forall|j: u64| #[trigger] a.remove(k).contains_key(j) implies b.remove(k)[j].held()
            <= a.remove(k)[j].held() by {
            assert(a.contains_key(j));
        }
        lemma_held_le(a.remove(k), b.remove(k));
    } else {
        assert(b.dom().len() == 0);
    }
}

impl ReservationView {
    pub open spec fn release_if(self, yes: bool) -> ReservationView {
        ReservationView { released: self.released || yes, ..self }
    }
}

/// Ends the sessions in `ids`: those without a batch under way expire and give back what they
/// hold, the others close. Changes of theirs that are still open, that are in no batch and of
/// which nothing has been committed end with them; what is frozen or ready stays, and its
/// publication decides.
pub open spec fn ended_sessions(m: Map<u64, Session>, ids: Set<u64>) -> Map<u64, Session> {
    Map::new(
        |id: u64| m.contains_key(id),
        |id: u64|
            if ids.contains(id) {
                Session {
                    state: if m[id].refs == 0 {
                        SessionState::Expired
                    } else {
                        SessionState::Closing
                    },
                    ..m[id]
                }
            } else {
                m[id]
            },
    )
}

/// The batch under way holds this change.
pub open spec fn frozen_in(slot: Option<BatchView>, path: Seq<char>, e: PendingEntry) -> bool {
    slot matches Some(b) && b.cover.contains_key(path) && b.cover[path].version == e.version
}

/// A change that ends with its session.
pub open spec fn dropped(
    path: Seq<char>,
    e: PendingEntry,
    ids: Set<u64>,
    slot: Option<BatchView>,
) -> bool {
    &&& ids.contains(e.session)
    &&& e.state == PendingState::InProgress
    &&& e.committed_prefix == 0
    &&& !frozen_in(slot, path, e)
}

pub open spec fn ended_pending(
    m: Map<Seq<char>, PendingEntry>,
    ids: Set<u64>,
    slot: Option<BatchView>,
) -> Map<Seq<char>, PendingEntry> {
    Map::new(
        |p: Seq<char>| m.contains_key(p) && !dropped(p, m[p], ids, slot),
        |p: Seq<char>| m[p],
    )
}

pub open spec fn ended_reservations(
    m: Map<u64, ReservationView>,
    sessions: Map<u64, Session>,
    ids: Set<u64>,
) -> Map<u64, ReservationView> {
    Map::new(
        |id: u64| m.contains_key(id),
        |id: u64|
            m[id].release_if(ids.contains(m[id].session) && sessions[m[id].session].refs == 0),
    )
}

impl RootView {
    pub open spec fn with_ended(self, ids: Set<u64>) -> RootView {
        RootView {
            sessions: ended_sessions(self.sessions, ids),
            pending: ended_pending(self.pending, ids, self.commit_slot),
            ledger: LedgerView {
                reservations: ended_reservations(self.ledger.reservations, self.sessions, ids),
                ..self.ledger
            },
            ..self.next()
        }
    }

    /// The session has run out at `now`, as far as someone who last looked at `observed_epoch`
    /// can tell.
    pub open spec fn lapsed(self, id: u64, now: u64, observed_epoch: u64) -> bool {
        &&& self.active(id)
        &&& self.sessions[id].renewed_at_epoch <= observed_epoch
        &&& self.sessions[id].deadline <= now
    }

    proof fn lemma_ended_wf(self, ids: Set<u64>, next_reservation: u64)
        requires
            self.wf(next_reservation),
        ensures
            self.with_ended(ids).wf(next_reservation),
    {
        let a = self.ledger.reservations;
        let b = self.with_ended(ids).ledger.reservations;
        assert(b.dom() =~= a.dom());
        lemma_held_le(a, b);
    }
}

fn listed(ids: &Vec<u64>, id: u64) -> (r: bool)
    ensures
        r == ids@.contains(id),
{
    let mut i: usize = 0;
    while i < ids.len()
        invariant
            i <= ids@.len(),
            forall|j: int| 0 <= j < i ==> ids@[j] != id,
        decreases ids@.len() - i,
    {
        if ids[i] == id {
            return true;
        }
        i += 1;
    }
    false
}

fn end_sessions(sessions: &IdMap<Session>, ids: &Vec<u64>) -> (r: IdMap<Session>)
    ensures
        r@ == ended_sessions(sessions@, ids@.to_set()),
{
    let mut out: IdMap<Session> = IdMap::new();
    let keys = sessions.keys();
    let n = keys.len();
    let ghost m = sessions@;
    let ghost ks = crate::idmap::sorted_keys(m);
    let mut i: usize = 0;
    while i < n
        invariant
            i <= n == ks.len(),
            m == sessions@,
            ks == crate::idmap::sorted_keys(m),
            keys@ == ks,
            crate::idmap::listing(ks, m.dom()),
            forall|j: int| 0 <= j < n ==> m.contains_key(#[trigger] ks[j]),
            forall|k: u64| #[trigger]
                out@.contains_key(k) <==> exists|j: int| 0 <= j < i && ks[j] == k,
            forall|k: u64| #[trigger]
                out@.contains_key(k) ==> out@[k] == ended_sessions(m, ids@.to_set())[k],
        decreases n - i,
    {
        let id: u64 = keys[i];
        let mut s: Session = *sessions.value(keys[i]);
        if listed(ids, id) {
            s.state = if s.refs == 0 {
                SessionState::Expired
            } else {
                SessionState::Closing
            };
        }
        out.insert(id, s);
        i += 1;
    }
    assert forall|k: u64| #[trigger] m.contains_key(k) implies out@.contains_key(k) by {
        assert(ks.contains(k));
    }
    assert(out@ =~= ended_sessions(m, ids@.to_set()));
    out
}

fn is_frozen_in(slot: &Option<Arc<FrozenBatch>>, path: &str, e: &PendingEntry) -> (r: bool)
    ensures
        r == frozen_in(slot_view(*slot), path@, *e),
{
    match slot {
        Some(b) => match b.cover.get(path) {
            Some(c) => c.version == e.version,
            None => false,
        },
        None => false,
    }
}

fn end_pending(
    pending: &StrMap<PendingEntry>,
    ids: &Vec<u64>,
    slot: &Option<Arc<FrozenBatch>>,
) -> (r: StrMap<PendingEntry>)
    ensures
        r@ == ended_pending(pending@, ids@.to_set(), slot_view(*slot)),
{
    let ghost under_way = slot_view(*slot);
    let mut out: StrMap<PendingEntry> = StrMap::new();
    let n = pending.len();
    let ghost m = pending@;
    let ghost ks = crate::strmap::sorted_keys(m);
    let mut i: usize = 0;
    while i < n
        invariant
            i <= n == ks.len(),
            m == pending@,
            under_way == slot_view(*slot),
            ks == crate::strmap::sorted_keys(m),
            ks.no_duplicates(),
            crate::strmap::listing(ks, m.dom()),
            forall|j: int| 0 <= j < n ==> m.contains_key(#[trigger] ks[j]),
            forall|k: Seq<char>| #[trigger]
                out@.contains_key(k) <==> !dropped(k, m[k], ids@.to_set(), under_way)
                    && exists|j: int| 0 <= j < i && ks[j] == k,
            forall|k: Seq<char>| #[trigger] out@.contains_key(k) ==> out@[k] == m[k],
        decreases n - i,
    {
        let e: PendingEntry = *pending.value_at(i);
        let gone = e.state == PendingState::InProgress && e.committed_prefix == 0 && listed(
            ids,
            e.session,
        ) && !is_frozen_in(slot, pending.key_at(i).as_str(), &e);
        if !gone {
            out.insert(pending.key_at(i).clone(), e);
        }
        i += 1;
    }
    assert forall|k: Seq<char>| #[trigger]
        m.contains_key(k) && !dropped(k, m[k], ids@.to_set(), under_way) implies out@.contains_key(
        k,
    ) by {
        assert(ks.contains(k));
    }
    assert(out@ =~= ended_pending(m, ids@.to_set(), under_way));
    out
}

fn end_reservations(
    reservations: &IdMap<Reservation>,
    sessions: &IdMap<Session>,
    ids: &Vec<u64>,
) -> (r: IdMap<Reservation>)
    requires
        forall|id: u64| ids@.contains(id) ==> sessions@.contains_key(id),
    ensures
        r@ == ended_reservations(reservations@, sessions@, ids@.to_set()),
{
    let mut out: IdMap<Reservation> = IdMap::new();
    let keys = reservations.keys();
    let n = keys.len();
    let ghost m = reservations@;
    let ghost want = ended_reservations(m, sessions@, ids@.to_set());
    let ghost ks = crate::idmap::sorted_keys(m);
    let mut i: usize = 0;
    while i < n
        invariant
            i <= n == ks.len(),
            m == reservations@,
            want == ended_reservations(m, sessions@, ids@.to_set()),
            ks == crate::idmap::sorted_keys(m),
            keys@ == ks,
            crate::idmap::listing(ks, m.dom()),
            forall|id: u64| ids@.contains(id) ==> sessions@.contains_key(id),
            forall|j: int| 0 <= j < n ==> m.contains_key(#[trigger] ks[j]),
            forall|k: u64| #[trigger]
                out@.contains_key(k) <==> exists|j: int| 0 <= j < i && ks[j] == k,
            forall|k: u64| #[trigger] out@.contains_key(k) ==> out@[k] == want[k],
        decreases n - i,
    {
        let id: u64 = keys[i];
        let mut r = reservations.value(keys[i]).dup();
        if listed(ids, r.session) {
            match sessions.get(r.session) {
                Some(s) => {
                    if s.refs == 0 {
                        r.released = true;
                    }
                },
                None => {},
            }
        }
        out.insert(id, r);
        i += 1;
    }
    assert forall|k: u64| #[trigger] m.contains_key(k) implies out@.contains_key(k) by {
        assert(ks.contains(k));
    }
    assert(out@ =~= want);
    out
}

impl VolumeState {
    /// Ends the sessions that have run out; returns them in ascending order. Nothing changes
    /// where there are none.
    pub fn tick(&mut self, now: u64, observed_epoch: u64) -> (r: Vec<SessionId>)
        requires
            old(self)@.wf(),
            old(self)@.room(1),
        ensures
            final(self)@.wf(),
            crate::idmap::ascending(r@),
            forall|id: u64| #[trigger]
                r@.contains(id) <==> old(self)@.current.lapsed(id, now, observed_epoch),
            final(self)@ == (if r@.len() == 0 {
                old(self)@
            } else {
                old(self)@.installed(old(self)@.current.with_ended(r@.to_set()))
            }),
    {
        let cur = self.current.clone();
        let keys = cur.sessions.keys();
let n = keys.len();
        let ghost m = cur.sessions@;
        let ghost ks = crate::idmap::sorted_keys(m);
        let mut changed: Vec<u64> = Vec::new();
        let mut i: usize = 0;
        while i < n
            invariant
                i <= n == ks.len(),
                m == cur.sessions@,
                ks == crate::idmap::sorted_keys(m),
                keys@ == ks,
                crate::idmap::listing(ks, m.dom()),
                forall|j: int| 0 <= j < n ==> m.contains_key(#[trigger] ks[j]),
                crate::idmap::ascending(changed@),
                forall|a: int, b: int|
                    0 <= a < changed@.len() && i <= b < n ==> #[trigger] changed@[a] < #[trigger] ks[b],
                forall|id: u64| #[trigger]
                    changed@.contains(id) <==> cur@.lapsed(id, now, observed_epoch) && exists|j: int|
                        0 <= j < i && ks[j] == id,
            decreases n - i,
        {
            let id: u64 = keys[i];
            let s: Session = *cur.sessions.value(keys[i]);
            let ghost was = changed@;
            if s.state == SessionState::Active && s.renewed_at_epoch <= observed_epoch && s.deadline
                <= now {
                changed.push(id);
                proof {
                    assert(changed@[was.len() as int] == id);
                    assert forall|x: u64| #[trigger] changed@.contains(x) <==> was.contains(x) || x
                        == id by {
                        if was.contains(x) {
                            let a = choose|a: int| 0 <= a < was.len() && was[a] == x;
                            assert(changed@[a] == x);
                        }
                    }
                }
            }
            i += 1;
        }
        proof {
            assert forall|id: u64| #[trigger] changed@.contains(id) <==> cur@.lapsed(
                id,
                now,
                observed_epoch,
            ) by {
                if m.contains_key(id) {
                    assert(ks.contains(id));
                }
            }
        }
        if changed.len() == 0 {
            return changed;
        }
        let mut root = cur.next();
        let reservations = end_reservations(&cur.ledger.reservations, &cur.sessions, &changed);
        root.ledger = Arc::new(
            Ledger {
                baseline_free: cur.ledger.baseline_free,
                calibration_epoch: cur.ledger.calibration_epoch,
                consumed_since_cut: cur.ledger.consumed_since_cut,
                reservations,
            },
        );
        root.pending = Arc::new(end_pending(&cur.pending, &changed, &cur.commit_slot));
        root.sessions = Arc::new(end_sessions(&cur.sessions, &changed));
        proof {
            cur@.lemma_ended_wf(changed@.to_set(), self.next_reservation);
        }
        self.swap(root);
        changed
    }

    /// Ends a session; one that has ended already stays as it is. Returns the new epoch.
    pub fn cancel(&mut self, session: SessionId) -> (r: Result<u64, StateError>)
        requires
            old(self)@.wf(),
            old(self)@.room(1),
        ensures
            final(self)@.wf(),
            if old(self)@.current.sessions.contains_key(session) {
                &&& final(self)@ == old(self)@.installed(
                    if old(self)@.current.active(session) {
                        old(self)@.current.with_ended(set![session])
                    } else {
                        old(self)@.current.next()
                    },
                )
                &&& r == Ok::<u64, StateError>(final(self)@.current.epoch)
            } else {
                &&& final(self)@ == old(self)@
                &&& r is Err && r->Err_0@ == StateErrorView::SessionInvalid(session)
            },
    {
        let cur = self.current.clone();
        let mut root = cur.next();
        match cur.sessions.get(session) {
            Some(s) => {
                if s.state == SessionState::Active {
                    let mut ids: Vec<u64> = Vec::new();
                    ids.push(session);
                    proof {
                        assert(ids@.to_set() =~= set![session]) by {
                            assert(ids@[0] == session);
                            assert forall|x: u64| #[trigger] ids@.to_set().contains(x) implies x
                                == session by {
                                assert(ids@.contains(x));
                            }
                            assert(ids@.contains(session));
                        }
                        cur@.lemma_ended_wf(set![session], self.next_reservation);
                    }
                    let reservations = end_reservations(
                        &cur.ledger.reservations,
                        &cur.sessions,
                        &ids,
                    );
                    root.ledger = Arc::new(
                        Ledger {
                            baseline_free: cur.ledger.baseline_free,
                            calibration_epoch: cur.ledger.calibration_epoch,
                            consumed_since_cut: cur.ledger.consumed_since_cut,
                            reservations,
                        },
                    );
                    root.pending = Arc::new(end_pending(&cur.pending, &ids, &cur.commit_slot));
                    root.sessions = Arc::new(end_sessions(&cur.sessions, &ids));
                }
            },
            None => {
                return Err(StateError::SessionInvalid(session));
            },
        }
        Ok(self.swap(root).epoch)
    }
}

impl VolumeView {
    /// Why a change on `path` cannot be let in, if it cannot.
    pub open spec fn admission_refusal(self, session: SessionId, path: Seq<char>, reserve: u64) -> Option<
        StateErrorView,
    > {
        let cur = self.current;
        if !cur.capability.writable {
            Some(StateErrorView::NotWritable(cur.capability.why()))
        } else if !cur.active(session) {
            Some(StateErrorView::SessionInvalid(session))
        } else if cur.pending.contains_key(path) {
            Some(StateErrorView::PathBusy(path))
        } else if reserve > cur.ledger.available() {
            Some(
                StateErrorView::InsufficientCapacity {
                    requested: reserve,
                    available: cur.ledger.available() as u64,
                },
            )
        } else {
            None
        }
    }

    /// With a change on `path` let in: a version number and a reservation are handed out.
    pub open spec fn admitted(
        self,
        session: SessionId,
        path: Seq<char>,
        reserve: u64,
        now: u64,
        removal: bool,
    ) -> VolumeView {
        let rid = self.next_reservation;
        let root = RootView {
            pending: self.current.pending.insert(
                path,
                PendingEntry {
                    session,
                    version: self.next_version,
                    state: PendingState::InProgress,
                    staged_len: 0,
                    committed_prefix: 0,
                    earliest_registered: now,
                    reservation: rid,
                    removal,
                },
            ),
            ledger: LedgerView {
                reservations: self.current.ledger.reservations.insert(
                    rid,
                    ReservationView {
                        session,
                        path,
                        reserved: reserve,
                        consumed: 0,
                        released: false,
                    },
                ),
                ..self.current.ledger
            },
            ..self.current.next()
        };
        VolumeView {
            next_version: (self.next_version + 1) as u64,
            next_reservation: (rid + 1) as u64,
            ..self.installed(root)
        }
    }

    /// Why `bytes` more cannot be taken in on `path`, if they cannot.
    pub open spec fn ingest_refusal(self, path: Seq<char>, bytes: u64) -> Option<StateErrorView> {
        let cur = self.current;
        if !cur.pending.contains_key(path) {
            Some(StateErrorView::NoSuchPending(path))
        } else {
            let e = cur.pending[path];
            let r = cur.ledger.reservations[e.reservation];
            if e.state != PendingState::InProgress {
                Some(StateErrorView::PathBusy(path))
            } else if !cur.active(e.session) {
                Some(StateErrorView::SessionInvalid(e.session))
            } else if bytes > r.unconsumed() {
                Some(
                    StateErrorView::InsufficientCapacity {
                        requested: bytes,
                        available: r.unconsumed() as u64,
                    },
                )
            } else {
                None
            }
        }
    }

    /// With `bytes` more taken in on `path`, out of its reservation.
    pub open spec fn ingested(self, path: Seq<char>, bytes: u64) -> VolumeView {
        let e = self.current.pending[path];
        let r = self.current.ledger.reservations[e.reservation];
        self.installed(
            RootView {
                pending: self.current.pending.insert(
                    path,
                    PendingEntry { staged_len: (e.staged_len + bytes) as u64, ..e },
                ),
                ledger: LedgerView {
                    consumed_since_cut: (self.current.ledger.consumed_since_cut + bytes) as u64,
                    reservations: self.current.ledger.reservations.insert(
                        e.reservation,
                        ReservationView { consumed: (r.consumed + bytes) as u64, ..r },
                    ),
                    ..self.current.ledger
                },
                ..self.current.next()
            },
        )
    }

    /// With the pending change on `path` replaced by `e`.
    pub open spec fn with_pending(self, path: Seq<char>, e: PendingEntry) -> VolumeView {
        self.installed(
            RootView {
                pending: self.current.pending.insert(path, e),
                ..self.current.next()
            },
        )
    }
}

impl VolumeState {
    /// Lets a write on `path` in: sets `reserve` bytes aside and registers the change.
    pub fn admit_write(&mut self, session: SessionId, path: &str, reserve: u64, now: u64) -> (r: Result<
        ReservationId,
        StateError,
    >)
        requires
            old(self)@.wf(),
            old(self)@.room(1),
        ensures
            final(self)@.wf(),
            match old(self)@.admission_refusal(session, path@, reserve) {
                Some(e) => r is Err && r->Err_0@ == e && final(self)@ == old(self)@,
                None => {
                    &&& r == Ok::<u64, StateError>(old(self)@.next_reservation)
                    &&& final(self)@ == old(self)@.admitted(session, path@, reserve, now, false)
                },
            },
    {
        self.admit_entry(session, path, reserve, now, false)
    }

    /// Lets a removal of `path` in. It sets nothing aside and holds the path like a write.
    pub fn admit_removal(&mut self, session: SessionId, path: &str, now: u64) -> (r: Result<
        ReservationId,
        StateError,
    >)
        requires
            old(self)@.wf(),
            old(self)@.room(1),
        ensures
            final(self)@.wf(),
            match old(self)@.admission_refusal(session, path@, 0) {
                Some(e) => r is Err && r->Err_0@ == e && final(self)@ == old(self)@,
                None => {
                    &&& r == Ok::<u64, StateError>(old(self)@.next_reservation)
                    &&& final(self)@ == old(self)@.admitted(session, path@, 0, now, true)
                },
            },
    {
        self.admit_entry(session, path, 0, now, true)
    }

    fn admit_entry(
        &mut self,
        session: SessionId,
        path: &str,
        reserve: u64,
        now: u64,
        removal: bool,
    ) -> (r: Result<ReservationId, StateError>)
        requires
            old(self)@.wf(),
            old(self)@.room(1),
        ensures
            final(self)@.wf(),
            match old(self)@.admission_refusal(session, path@, reserve) {
                Some(e) => r is Err && r->Err_0@ == e && final(self)@ == old(self)@,
                None => {
                    &&& r == Ok::<u64, StateError>(old(self)@.next_reservation)
                    &&& final(self)@ == old(self)@.admitted(session, path@, reserve, now, removal)
                },
            },
    {
        let cur = self.current.clone();
        if !cur.capability.writable {
            return Err(StateError::NotWritable(cur.capability.why()));
        }
        if !cur.is_active(session) {
            return Err(StateError::SessionInvalid(session));
        }
        if cur.pending.contains_key(path) {
            return Err(StateError::PathBusy(path.to_owned()));
        }
        let available: u64 = cur.ledger.available();
        if reserve > available {
            return Err(StateError::InsufficientCapacity { requested: reserve, available });
        }
        let rid: u64 = self.next_reservation;
        self.next_reservation = rid + 1;
        let version: u64 = self.next_version;
        self.next_version = version + 1;
        let mut root = cur.next();
        let mut ledger = (*root.ledger).dup();
        ledger.reservations.insert(
            rid,
            Reservation {
                session,
                path: path.to_owned(),
                reserved: reserve,
                consumed: 0,
                released: false,
            },
        );
        let mut pending = (*root.pending).dup();
        pending.insert(
            path.to_owned(),
            PendingEntry {
                session,
                version,
                state: PendingState::InProgress,
                staged_len: 0,
                committed_prefix: 0,
                earliest_registered: now,
                reservation: rid,
                removal,
            },
        );
        proof {
            let m = cur@.ledger.reservations;
            assert(!m.contains_key(rid));
            lemma_held_insert(m, rid, ledger@.reservations[rid]);
            assert(ledger@.reservations.dom() =~= m.dom().insert(rid));
        }
        root.ledger = Arc::new(ledger);
        root.pending = Arc::new(pending);
        self.swap(root);
        Ok(rid)
    }

    /// Takes `bytes` more in on `path`; returns the new epoch.
    pub fn ingest(&mut self, path: &str, bytes: u64) -> (r: Result<u64, StateError>)
        requires
            old(self)@.wf(),
            old(self)@.room(1),
            old(self)@.current.ledger.consumed_since_cut + bytes <= u64::MAX,
            old(self)@.current.pending.contains_key(path@)
                ==> old(self)@.current.pending[path@].staged_len + bytes <= u64::MAX,
        ensures
            final(self)@.wf(),
            match old(self)@.ingest_refusal(path@, bytes) {
                Some(e) => r is Err && r->Err_0@ == e && final(self)@ == old(self)@,
                None => {
                    &&& r == Ok::<u64, StateError>(final(self)@.current.epoch)
                    &&& final(self)@ == old(self)@.ingested(path@, bytes)
                },
            },
    {
        let cur = self.current.clone();
        let mut e: PendingEntry = match cur.pending.get(path) {
            Some(e) => *e,
            None => {
                return Err(StateError::NoSuchPending(path.to_owned()));
            },
        };
        if e.state != PendingState::InProgress {
            return Err(StateError::PathBusy(path.to_owned()));
        }
        if !cur.is_active(e.session) {
            return Err(StateError::SessionInvalid(e.session));
        }
        let mut ledger = (*cur.ledger).dup();
        let ghost m = ledger@.reservations;
        let rid: u64 = e.reservation;
        assert(m.contains_key(rid));
        let mut r = match ledger.reservations.get(rid) {
            Some(r) => r.dup(),
            None => {
                return Err(StateError::NoSuchPending(path.to_owned()));
            },
        };
        if bytes > r.unconsumed() {
            return Err(
                StateError::InsufficientCapacity { requested: bytes, available: r.unconsumed() },
            );
        }
        if bytes > 0 {
            r.consumed = r.consumed + bytes;
        }
        proof {
            lemma_held_insert(m, rid, r@);
            assert(m.insert(rid, r@).dom() =~= m.dom());
        }
        ledger.reservations.insert(rid, r);
        ledger.consumed_since_cut = ledger.consumed_since_cut + bytes;
        let mut pending = (*cur.pending).dup();
        e.staged_len = e.staged_len + bytes;
        pending.insert(path.to_owned(), e);
        let mut root = cur.next();
        root.ledger = Arc::new(ledger);
        root.pending = Arc::new(pending);
        Ok(self.swap(root).epoch)
    }

    /// Gives a change on `path` the length of data that is on the volume already, which uses no
    /// further space.
    pub fn stage_reference(&mut self, path: &str, len: u64) -> (r: Result<(), StateError>)
        requires
            old(self)@.wf(),
            old(self)@.room(1),
        ensures
            final(self)@.wf(),
            ({
                let pending = old(self)@.current.pending;
                let e = pending[path@];
                if !pending.contains_key(path@) {
                    r is Err && r->Err_0@ == StateErrorView::NoSuchPending(path@) && final(self)@
                        == old(self)@
                } else if e.state != PendingState::InProgress || e.removal {
                    r is Err && r->Err_0@ == StateErrorView::PathBusy(path@) && final(self)@
                        == old(self)@
                } else {
                    r is Ok && final(self)@ == old(self)@.with_pending(
                        path@,
                        PendingEntry { staged_len: len, ..e },
                    )
                }
            }),
    {
        let cur = self.current.clone();
        let mut e: PendingEntry = match cur.pending.get(path) {
            Some(e) => *e,
            None => {
                return Err(StateError::NoSuchPending(path.to_owned()));
            },
        };
        if e.state != PendingState::InProgress || e.removal {
            return Err(StateError::PathBusy(path.to_owned()));
        }
        e.staged_len = len;
        let mut pending = (*cur.pending).dup();
        pending.insert(path.to_owned(), e);
        let mut root = cur.next();
        root.pending = Arc::new(pending);
        self.swap(root);
        Ok(())
    }

    /// Marks the change on `path` as ready for the next batch; returns the new epoch.
    pub fn complete(&mut self, path: &str) -> (r: Result<u64, StateError>)
        requires
            old(self)@.wf(),
            old(self)@.room(1),
        ensures
            final(self)@.wf(),
            if old(self)@.current.pending.contains_key(path@) {
                &&& r == Ok::<u64, StateError>(final(self)@.current.epoch)
                &&& final(self)@ == old(self)@.with_pending(
                    path@,
                    PendingEntry {
                        state: PendingState::Ready,
                        ..old(self)@.current.pending[path@]
                    },
                )
            } else {
                &&& r is Err && r->Err_0@ == StateErrorView::NoSuchPending(path@)
                &&& final(self)@ == old(self)@
            },
    {
        let cur = self.current.clone();
        let mut e: PendingEntry = match cur.pending.get(path) {
            Some(e) => *e,
            None => {
                return Err(StateError::NoSuchPending(path.to_owned()));
            },
        };
        e.state = PendingState::Ready;
        let mut pending = (*cur.pending).dup();
        pending.insert(path.to_owned(), e);
        let mut root = cur.next();
        root.pending = Arc::new(pending);
        Ok(self.swap(root).epoch)
    }

    /// Registers someone who waits until `len_required` bytes of `path` are reliably committed.
    pub fn wait_for(&mut self, path: &str, len_required: u64) -> (r: u64)
        requires
            old(self)@.room(1),
        ensures
            r == old(self)@.next_waiter,
            final(self)@ == (VolumeView {
                next_waiter: (old(self)@.next_waiter + 1) as u64,
                waiters: old(self)@.waiters.push(
                    WaiterView { id: r, path: path@, len_required, notified: false },
                ),
                ..old(self)@
            }),
    {
        let id: u64 = self.next_waiter;
        self.next_waiter = id + 1;
        self.waiters.push(Waiter { id, path: path.to_owned(), len_required, notified: false });
        assert(self@.waiters =~= old(self)@.waiters.push(
            WaiterView { id, path: path@, len_required, notified: false },
        ));
        id
    }

    /// The first waiter with this number.
    pub fn waiter(&self, id: u64) -> (r: Option<Waiter>)
        ensures
            match r {
                Some(w) => exists|i: int|
                    0 <= i < self@.waiters.len() && #[trigger] self@.waiters[i] == w@ && w.id == id && (
                    forall|j: int| 0 <= j < i ==> (#[trigger] self@.waiters[j]).id != id),
                None => forall|j: int|
                    0 <= j < self@.waiters.len() ==> (#[trigger] self@.waiters[j]).id != id,
            },
    {
        let mut i: usize = 0;
        while i < self.waiters.len()
            invariant
                i <= self.waiters@.len(),
                forall|j: int| 0 <= j < i ==> (#[trigger] self@.waiters[j]).id != id,
            decreases self.waiters@.len() - i,
        {
            let w = &self.waiters[i];
            if w.id == id {
                assert(self@.waiters[i as int] == w@);
                return Some(
                    Waiter {
                        id: w.id,
                        path: w.path.clone(),
                        len_required: w.len_required,
                        notified: w.notified,
                    },
                );
            }
            i += 1;
        }
        None
    }
}

/// A frozen batch takes this change up: it is ready, or it is open, asked for by `snap`, and
/// has grown since the last index.
pub open spec fn covered(path: Seq<char>, e: PendingEntry, snap: Set<Seq<char>>) -> bool {
    e.state == PendingState::Ready || (snap.contains(path) && e.staged_len > e.committed_prefix)
}

/// What a batch frozen now covers.
pub open spec fn frozen_cover(m: Map<Seq<char>, PendingEntry>, snap: Set<Seq<char>>) -> Map<
    Seq<char>,
    CoverEntry,
> {
    Map::new(
        |p: Seq<char>| m.contains_key(p) && covered(p, m[p], snap),
        |p: Seq<char>|
            CoverEntry {
                version: m[p].version,
                len: m[p].staged_len,
                complete: m[p].state == PendingState::Ready,
                removal: m[p].removal,
            },
    )
}

/// The sessions whose changes a batch takes up, in the order of the paths, each once.
pub open spec fn frozen_sessions(
    keys: Seq<Seq<char>>,
    m: Map<Seq<char>, PendingEntry>,
    snap: Set<Seq<char>>,
) -> Seq<u64>
    decreases keys.len(),
{
    if keys.len() == 0 {
        Seq::empty()
    } else {
        let r = frozen_sessions(keys.drop_last(), m, snap);
        let p = keys.last();
        if covered(p, m[p], snap) && !r.contains(m[p].session) {
            r.push(m[p].session)
        } else {
            r
        }
    }
}

/// A batch names each session once.
pub proof fn lemma_frozen_sessions_once(
    keys: Seq<Seq<char>>,
    m: Map<Seq<char>, PendingEntry>,
    snap: Set<Seq<char>>,
)
    ensures
        frozen_sessions(keys, m, snap).no_duplicates(),
    decreases keys.len(),
{
    if keys.len() > 0 {
        lemma_frozen_sessions_once(keys.drop_last(), m, snap);
    }
}

/// One more batch under way for each session in `ids`.
pub open spec fn referred(m: Map<u64, Session>, ids: Seq<u64>) -> Map<u64, Session> {
    Map::new(
        |id: u64| m.contains_key(id),
        |id: u64|
            if ids.contains(id) {
                Session { refs: (m[id].refs + 1) as u32, ..m[id] }
            } else {
                m[id]
            },
    )
}

impl VolumeView {
    /// Why no batch can be frozen now, if none can.
    pub open spec fn freeze_refusal(self) -> Option<StateErrorView> {
        match self.current.commit_slot {
            Some(slot) => Some(StateErrorView::CommitSlotOccupied(slot.batch_id)),
            None => if !self.current.capability.writable {
                Some(StateErrorView::NotWritable(self.current.capability.why()))
            } else {
                None
            },
        }
    }

    /// The batch that freezing now makes.
    pub open spec fn next_frozen(self, snap: Set<Seq<char>>) -> BatchView {
        let cur = self.current;
        BatchView {
            batch_id: self.next_batch,
            instance: cur.instance,
            base_epoch: cur.epoch,
            generation: (cur.generation + 1) as u64,
            cover: frozen_cover(cur.pending, snap),
            sessions: frozen_sessions(crate::strmap::sorted_keys(cur.pending), cur.pending, snap),
        }
    }

    /// With that batch in the commit slot.
    pub open spec fn frozen(self, snap: Set<Seq<char>>) -> VolumeView {
        let b = self.next_frozen(snap);
        VolumeView {
            next_batch: (self.next_batch + 1) as u64,
            ..self.installed(
                RootView {
                    sessions: referred(self.current.sessions, b.sessions),
                    commit_slot: Some(b),
                    ..self.current.next()
                },
            )
        }
    }
}

fn refer(sessions: &IdMap<Session>, ids: &Vec<u64>) -> (r: IdMap<Session>)
    requires
        forall|id: u64| #[trigger] sessions@.contains_key(id) ==> sessions@[id].refs < u32::MAX,
    ensures
        r@ == referred(sessions@, ids@),
{
    let mut out: IdMap<Session> = IdMap::new();
    let keys = sessions.keys();
    let n = keys.len();
    let ghost m = sessions@;
    let ghost ks = crate::idmap::sorted_keys(m);
    let mut i: usize = 0;
    while i < n
        invariant
            i <= n == ks.len(),
            m == sessions@,
            ks == crate::idmap::sorted_keys(m),
            keys@ == ks,
            crate::idmap::listing(ks, m.dom()),
            forall|id: u64| #[trigger] m.contains_key(id) ==> m[id].refs < u32::MAX,
            forall|j: int| 0 <= j < n ==> m.contains_key(#[trigger] ks[j]),
            forall|k: u64| #[trigger]
                out@.contains_key(k) <==> exists|j: int| 0 <= j < i && ks[j] == k,
            forall|k: u64| #[trigger] out@.contains_key(k) ==> out@[k] == referred(m, ids@)[k],
        decreases n - i,
    {
        let id: u64 = keys[i];
        let mut s: Session = *sessions.value(keys[i]);
        if listed(ids, id) {
            s.refs = s.refs + 1;
        }
        out.insert(id, s);
        i += 1;
    }
    assert forall|k: u64| #[trigger] m.contains_key(k) implies out@.contains_key(k) by {
        assert(ks.contains(k));
    }
    assert(out@ =~= referred(m, ids@));
    out
}

impl VolumeState {
    /// Fixes a batch: every ready change in full, and the open changes in `snapshot_open` as far
    /// as they have come. One batch at a time is under way.
    pub fn freeze(&mut self, snapshot_open: &[&str]) -> (r: Result<Arc<FrozenBatch>, StateError>)
        requires
            old(self)@.wf(),
            old(self)@.room(1),
            old(self)@.current.generation < u64::MAX,
            forall|id: u64| #[trigger]
                old(self)@.current.sessions.contains_key(id)
                    ==> old(self)@.current.sessions[id].refs < u32::MAX,
        ensures
            final(self)@.wf(),
            match old(self)@.freeze_refusal() {
                Some(e) => r is Err && r->Err_0@ == e && final(self)@ == old(self)@,
                None => {
                    let snap = crate::text::views(snapshot_open@).to_set();
                    &&& r is Ok
                    &&& r->Ok_0@ == old(self)@.next_frozen(snap)
                    &&& final(self)@ == old(self)@.frozen(snap)
                },
            },
    {
        let cur = self.current.clone();
        match &cur.commit_slot {
            Some(slot) => {
                return Err(StateError::CommitSlotOccupied(slot.batch_id));
            },
            None => {},
        }
        if !cur.capability.writable {
            return Err(StateError::NotWritable(cur.capability.why()));
        }
        let ghost snap = crate::text::views(snapshot_open@).to_set();
        let snaps = StrSet::of(snapshot_open);
        let mut cover: StrMap<CoverEntry> = StrMap::new();
        let mut ids: Vec<u64> = Vec::new();
        let n = cur.pending.len();
        let ghost m = cur.pending@;
        let ghost ks = crate::strmap::sorted_keys(m);
        let mut i: usize = 0;
        assert(ids@ =~= frozen_sessions(ks.take(0), m, snap));
        while i < n
            invariant
                i <= n == ks.len(),
                m == cur.pending@,
                ks == crate::strmap::sorted_keys(m),
                ks.no_duplicates(),
                crate::strmap::listing(ks, m.dom()),
                forall|j: int| 0 <= j < n ==> m.contains_key(#[trigger] ks[j]),
                forall|k: Seq<char>| #[trigger] snaps@.contains(k) <==> snap.contains(k),
                forall|k: Seq<char>| #[trigger]
                    cover@.contains_key(k) <==> covered(k, m[k], snap) && exists|j: int|
                        0 <= j < i && ks[j] == k,
                forall|k: Seq<char>| #[trigger]
                    cover@.contains_key(k) ==> cover@[k] == frozen_cover(m, snap)[k],
                ids@ == frozen_sessions(ks.take(i as int), m, snap),
            decreases n - i,
        {
            let path = cur.pending.key_at(i);
            let e: PendingEntry = *cur.pending.value_at(i);
            let complete = e.state == PendingState::Ready;
            proof {
                assert(ks.take(i + 1).drop_last() =~= ks.take(i as int));
                assert(ks.take(i + 1).last() == ks[i as int]);
            }
            if complete || (e.staged_len > e.committed_prefix && snaps.contains(path.as_str())) {
                cover.insert(
                    path.clone(),
                    CoverEntry {
                        version: e.version,
                        len: e.staged_len,
                        complete,
                        removal: e.removal,
                    },
                );
                if !listed(&ids, e.session) {
                    ids.push(e.session);
                }
            }
            i += 1;
        }
        proof {
            assert(ks.take(i as int) =~= ks);
            assert forall|k: Seq<char>| #[trigger] m.contains_key(k) && covered(k, m[k], snap) implies cover@.contains_key(
                k,
            ) by {
                assert(ks.contains(k));
            }
            assert(cover@ =~= frozen_cover(m, snap));
        }
        let batch_id: u64 = self.next_batch;
        self.next_batch = batch_id + 1;
        let mut root = cur.next();
        root.sessions = Arc::new(refer(&cur.sessions, &ids));
        let batch = Arc::new(
            FrozenBatch {
                batch_id,
                instance: cur.instance,
                base_epoch: cur.epoch,
                generation: cur.generation + 1,
                cover,
                sessions: ids,
            },
        );
        root.commit_slot = Some(batch.clone());
        self.swap(root);
        Ok(batch)
    }
}

/// The waiter is satisfied by this cover and has not been told yet.
pub open spec fn newly_covered(w: WaiterView, cover: Map<Seq<char>, CoverEntry>) -> bool {
    !w.notified && cover.contains_key(w.path) && cover[w.path].len >= w.len_required
}

/// The waiters after those that `cover` satisfies have been told.
pub open spec fn told(ws: Seq<WaiterView>, cover: Map<Seq<char>, CoverEntry>) -> Seq<WaiterView> {
    ws.map_values(
        |w: WaiterView| WaiterView { notified: w.notified || newly_covered(w, cover), ..w },
    )
}

/// The waiters that `cover` satisfies and that are told now.
pub open spec fn told_ids(ws: Seq<WaiterView>, cover: Map<Seq<char>, CoverEntry>) -> Seq<u64> {
    ws.filter(|w: WaiterView| newly_covered(w, cover)).map_values(|w: WaiterView| w.id)
}

/// The waiters on covered paths that have been told.
pub open spec fn retold_ids(ws: Seq<WaiterView>, cover: Map<Seq<char>, CoverEntry>) -> Seq<u64> {
    ws.filter(|w: WaiterView| w.notified && cover.contains_key(w.path)).map_values(
        |w: WaiterView| w.id,
    )
}

/// What publishing builds up, path by path.
#[verifier::ext_equal]
pub struct Draft {
    pub committed: TreeView,
    pub pending: Map<Seq<char>, PendingEntry>,
    pub reservations: Map<u64, ReservationView>,
    pub copied: nat,
}

impl Draft {
    /// The tree after the change `c` on the path with components `p`.
    pub open spec fn committed_after(self, p: tree::Parts, c: CoverEntry, directory: bool) -> TreeView {
        if directory {
            if c.removal {
                self.committed.drop_dir(p)
            } else {
                self.committed.put_dir(p)
            }
        } else if c.removal {
            self.committed.drop_file(p)
        } else {
            self.committed.put_file(
                p,
                FileVersion { version: c.version, len: c.len, partial: !c.complete },
            )
        }
    }

    /// The pending change is the one that `c` froze, and nothing has been added to it since.
    pub open spec fn settled(self, path: Seq<char>, c: CoverEntry) -> bool {
        &&& self.pending.contains_key(path)
        &&& self.pending[path].version == c.version
        &&& c.complete
        &&& self.pending[path].staged_len == c.len
    }

    /// With `c` published on `path`. A settled change leaves and gives back what it holds; one
    /// that only a prefix of is covered stays, as does one that came after the freeze.
    pub open spec fn step(self, path: Seq<char>, c: CoverEntry, directory: bool) -> Draft {
        let p = tree::parts(path);
        if p.len() == 0 {
            self
        } else {
            Draft {
                committed: self.committed_after(p, c, directory),
                pending: if self.settled(path, c) {
                    self.pending.remove(path)
                } else if self.pending.contains_key(path) && self.pending[path].version
                    == c.version {
                    self.pending.insert(
                        path,
                        PendingEntry { committed_prefix: c.len, ..self.pending[path] },
                    )
                } else {
                    self.pending
                },
                reservations: if self.settled(path, c) {
                    let rid = self.pending[path].reservation;
                    if self.reservations.contains_key(rid) {
                        self.reservations.insert(rid, self.reservations[rid].release_if(true))
                    } else {
                        self.reservations
                    }
                } else {
                    self.reservations
                },
                copied: self.copied + self.committed.copies(p, !c.removal),
            }
        }
    }

    /// With the whole cover published, in the order of `keys`.
    pub open spec fn run(
        self,
        keys: Seq<Seq<char>>,
        cover: Map<Seq<char>, CoverEntry>,
        directories: Set<Seq<char>>,
    ) -> Draft
        decreases keys.len(),
    {
        if keys.len() == 0 {
            self
        } else {
            let p = keys.last();
            self.run(keys.drop_last(), cover, directories).step(
                p,
                cover[p],
                directories.contains(p),
            )
        }
    }

    spec fn wf(self, next_reservation: u64) -> bool {
        &&& self.reservations.dom().finite()
        &&& held_total(self.reservations) <= u64::MAX
        &&& forall|id: u64| #[trigger] self.reservations.contains_key(id) ==> id < next_reservation
        &&& forall|p: Seq<char>| #[trigger]
            self.pending.contains_key(p) ==> self.reservations.contains_key(
                self.pending[p].reservation,
            )
    }

    proof fn lemma_step_wf(
        self,
        path: Seq<char>,
        c: CoverEntry,
        directory: bool,
        next_reservation: u64,
    )
        requires
            self.wf(next_reservation),
        ensures
            self.step(path, c, directory).wf(next_reservation),
    {
        let d = self.step(path, c, directory);
        if tree::parts(path).len() > 0 && self.settled(path, c) {
            let rid = self.pending[path].reservation;
            assert(self.pending.contains_key(path));
            assert(d.reservations.dom() =~= self.reservations.dom());
            lemma_held_le(self.reservations, d.reservations);
        }
    }
}

/// One batch fewer for each session in `ids`; a closing session without any left expires and
/// gives back what it holds.
pub open spec fn settle_sessions(
    ids: Seq<u64>,
    sessions: Map<u64, Session>,
    reservations: Map<u64, ReservationView>,
) -> (Map<u64, Session>, Map<u64, ReservationView>)
    decreases ids.len(),
{
    if ids.len() == 0 {
        (sessions, reservations)
    } else {
        let (s, r) = settle_sessions(ids.drop_last(), sessions, reservations);
        let id = ids.last();
        if !s.contains_key(id) {
            (s, r)
        } else {
            let refs = if s[id].refs == 0 {
                0
            } else {
                (s[id].refs - 1) as u32
            };
            let ends = s[id].state == SessionState::Closing && refs == 0;
            (
                s.insert(
                    id,
                    Session {
                        refs,
                        state: if ends {
                            SessionState::Expired
                        } else {
                            s[id].state
                        },
                        ..s[id]
                    },
                ),
                Map::new(
                    |k: u64| r.contains_key(k),
                    |k: u64| r[k].release_if(ends && r[k].session == id),
                ),
            )
        }
    }
}

/// The number of components of all the paths in `keys`.
pub open spec fn total_depth(keys: Seq<Seq<char>>) -> nat
    decreases keys.len(),
{
    if keys.len() == 0 {
        0
    } else {
        total_depth(keys.drop_last()) + tree::parts(keys.last()).len()
    }
}

proof fn lemma_total_depth_take(keys: Seq<Seq<char>>, i: int)
    requires
        0 <= i <= keys.len(),
    ensures
        total_depth(keys.take(i)) <= total_depth(keys),
    decreases keys.len() - i,
{
    if i == keys.len() {
        assert(keys.take(i) =~= keys);
    } else {
        lemma_total_depth_take(keys, i + 1);
        assert(keys.take(i + 1).drop_last() =~= keys.take(i));
    }
}

impl VolumeView {
    /// The evidence or the batch does not belong here.
    pub open spec fn publish_refusal(self, b: BatchView, ev: S4Evidence) -> Option<StateErrorView> {
        if ev.batch_id != b.batch_id {
            Some(StateErrorView::EvidenceMismatch { expected: b.batch_id, got: ev.batch_id })
        } else if self.current.instance != b.instance {
            Some(
                StateErrorView::StaleInstance {
                    batch: b.instance,
                    current: self.current.instance,
                },
            )
        } else {
            None
        }
    }

    /// The batch is the one under way.
    pub open spec fn under_way(self, b: BatchView) -> bool {
        self.current.commit_slot is Some && self.current.commit_slot->0.batch_id == b.batch_id
    }

    /// With the satisfied waiters told.
    pub open spec fn with_told(self, b: BatchView) -> VolumeView {
        VolumeView { waiters: told(self.waiters, b.cover), ..self }
    }

    /// What publishing `b` builds.
    pub open spec fn draft(self, b: BatchView, directories: Set<Seq<char>>) -> Draft {
        Draft {
            committed: self.current.committed,
            pending: self.current.pending,
            reservations: self.current.ledger.reservations,
            copied: 0,
        }.run(crate::strmap::sorted_keys(b.cover), b.cover, directories)
    }

    /// The root that publishing `b` swaps in.
    pub open spec fn published_root(
        self,
        b: BatchView,
        generation: u64,
        directories: Set<Seq<char>>,
    ) -> RootView {
        let d = self.draft(b, directories);
        let (sessions, reservations) = settle_sessions(
            b.sessions,
            self.current.sessions,
            d.reservations,
        );
        RootView {
            committed: d.committed,
            generation,
            pending: d.pending,
            ledger: LedgerView { reservations, ..self.current.ledger },
            sessions,
            commit_slot: None,
            ..self.current.next()
        }
    }

    /// The state after publishing `b`.
    pub open spec fn published(
        self,
        b: BatchView,
        generation: u64,
        directories: Set<Seq<char>>,
    ) -> VolumeView {
        let n = self.draft(b, directories).copied;
        VolumeView {
            stats: PublishStats {
                nodes_copied: (self.stats.nodes_copied + n) as usize,
                last_publish_nodes_copied: n as usize,
                publishes: (self.stats.publishes + 1) as u64,
                ..self.stats
            },
            ..self.with_told(b).installed(self.published_root(b, generation, directories))
        }
    }

    /// The state after a publication of `b` that failed at the last moment.
    pub open spec fn failed(self, b: BatchView) -> VolumeView {
        VolumeView { fail_next_publish: false, ..self.with_told(b) }.poisoned_now()
    }
}

/// Releases the reservations of `session`.
fn release_of(reservations: &IdMap<Reservation>, session: u64) -> (r: IdMap<Reservation>)
    ensures
        r@ == Map::new(
            |k: u64| reservations@.contains_key(k),
            |k: u64| reservations@[k].release_if(reservations@[k].session == session),
        ),
{
    let mut out: IdMap<Reservation> = IdMap::new();
    let keys = reservations.keys();
    let n = keys.len();
    let ghost m = reservations@;
    let ghost want = Map::new(
        |k: u64| m.contains_key(k),
        |k: u64| m[k].release_if(m[k].session == session),
    );
    let ghost ks = crate::idmap::sorted_keys(m);
    let mut i: usize = 0;
    while i < n
        invariant
            i <= n == ks.len(),
            m == reservations@,
            want == Map::new(
                |k: u64| m.contains_key(k),
                |k: u64| m[k].release_if(m[k].session == session),
            ),
            ks == crate::idmap::sorted_keys(m),
            keys@ == ks,
            crate::idmap::listing(ks, m.dom()),
            forall|j: int| 0 <= j < n ==> m.contains_key(#[trigger] ks[j]),
            forall|k: u64| #[trigger]
                out@.contains_key(k) <==> exists|j: int| 0 <= j < i && ks[j] == k,
            forall|k: u64| #[trigger] out@.contains_key(k) ==> out@[k] == want[k],
        decreases n - i,
    {
        let id: u64 = keys[i];
        let mut r = reservations.value(keys[i]).dup();
        if r.session == session {
            r.released = true;
        }
        out.insert(id, r);
        i += 1;
    }
    assert forall|k: u64| #[trigger] m.contains_key(k) implies out@.contains_key(k) by {
        assert(ks.contains(k));
    }
    assert(out@ =~= want);
    out
}

fn settle(ids: &Vec<u64>, sessions: &mut IdMap<Session>, ledger: &mut Ledger)
    ensures
        (final(sessions)@, final(ledger)@.reservations) == settle_sessions(
            ids@,
            old(sessions)@,
            old(ledger)@.reservations,
        ),
        final(ledger)@ == (LedgerView {
            reservations: final(ledger)@.reservations,
            ..old(ledger)@
        }),
{
    let ghost s0 = sessions@;
    let ghost r0 = ledger@.reservations;
    let ghost l0 = ledger@;
    let mut i: usize = 0;
    assert(ids@.take(0) =~= Seq::<u64>::empty());
    while i < ids.len()
        invariant
            i <= ids@.len(),
            (sessions@, ledger@.reservations) == settle_sessions(ids@.take(i as int), s0, r0),
            ledger@ == (LedgerView { reservations: ledger@.reservations, ..l0 }),
        decreases ids@.len() - i,
    {
        let id: u64 = ids[i];
        let ghost s = sessions@;
        let ghost r = ledger@.reservations;
        proof {
            assert(ids@.take(i + 1).drop_last() =~= ids@.take(i as int));
            assert(ids@.take(i + 1).last() == id);
        }
        let found: Option<Session> = match sessions.get(id) {
            Some(s) => Some(*s),
            None => None,
        };
        if let Some(mut it) = found {
            it.refs = it.refs.saturating_sub(1);
            let ends = it.state == SessionState::Closing && it.refs == 0;
            if ends {
                it.state = SessionState::Expired;
                let reservations = release_of(&ledger.reservations, id);
                ledger.reservations = reservations;
            }
            sessions.insert(id, it);
            proof {
                let want = Map::new(
                    |k: u64| r.contains_key(k),
                    |k: u64| r[k].release_if(ends && r[k].session == id),
                );
                assert(ledger@.reservations =~= want);
            }
        }
        i += 1;
    }
    assert(ids@.take(i as int) =~= ids@);
}

proof fn lemma_settle_wf(
    ids: Seq<u64>,
    sessions: Map<u64, Session>,
    reservations: Map<u64, ReservationView>,
)
    requires
        reservations.dom().finite(),
    ensures
        settle_sessions(ids, sessions, reservations).1.dom() == reservations.dom(),
        held_total(settle_sessions(ids, sessions, reservations).1) <= held_total(reservations),
    decreases ids.len(),
{
    if ids.len() > 0 {
        lemma_settle_wf(ids.drop_last(), sessions, reservations);
        let a = settle_sessions(ids.drop_last(), sessions, reservations).1;
        let b = settle_sessions(ids, sessions, reservations).1;
        assert(b.dom() =~= a.dom());
        lemma_held_le(a, b);
    }
}

impl VolumeState {
    fn notify(&mut self, batch: &FrozenBatch) -> (r: Vec<u64>)
        ensures
            r@ == told_ids(old(self)@.waiters, batch@.cover),
            final(self)@ == old(self)@.with_told(batch@),
    {
        let ghost ws = self@.waiters;
        let ghost cover = batch@.cover;
        let ghost f = |w: WaiterView| newly_covered(w, cover);
        let ghost g = |w: WaiterView| w.id;
        let mut out: Vec<u64> = Vec::new();
        let mut next: Vec<Waiter> = Vec::new();
        let mut i: usize = 0;
        proof {
            reveal(Seq::filter);
            assert(ws.take(0).filter(f).map_values(g) =~= Seq::<u64>::empty());
        }
        while i < self.waiters.len()
            invariant
                i <= self.waiters@.len() == ws.len(),
                *self == *old(self),
                ws == self@.waiters,
                cover == batch@.cover,
                f == (|w: WaiterView| newly_covered(w, cover)),
                g == (|w: WaiterView| w.id),
                next@.len() == i,
                forall|j: int| 0 <= j < i ==> (#[trigger] next@[j])@ == told(ws, cover)[j],
                out@ == ws.take(i as int).filter(f).map_values(g),
            decreases ws.len() - i,
        {
            let w = &self.waiters[i];
            let mut notified = w.notified;
            assert(ws[i as int] == w@);
            proof {
                reveal(Seq::filter);
                assert(ws.take(i + 1).drop_last() =~= ws.take(i as int));
                assert(ws.take(i + 1).last() == w@);
            }
            let ghost was = ws.take(i as int).filter(f);
            if !w.notified {
                match batch.cover.get(w.path.as_str()) {
                    Some(c) => {
                        if c.len >= w.len_required {
                            notified = true;
                            out.push(w.id);
                            assert(was.push(w@).map_values(g) =~= was.map_values(g).push(w.id));
                        }
                    },
                    None => {},
                }
            }
            next.push(
                Waiter {
                    id: w.id,
                    path: w.path.clone(),
                    len_required: w.len_required,
                    notified,
                },
            );
            i += 1;
        }
        assert(ws.take(i as int) =~= ws);
        self.waiters = next;
        assert(self@.waiters =~= told(ws, cover));
        out
    }

    /// The waiters on paths of the batch that have been told; tells no one.
    pub fn renotify(&self, batch: &FrozenBatch) -> (r: Vec<u64>)
        ensures
            r@ == retold_ids(self@.waiters, batch@.cover),
    {
        let ghost ws = self@.waiters;
        let ghost cover = batch@.cover;
        let ghost f = |w: WaiterView| w.notified && cover.contains_key(w.path);
        let ghost g = |w: WaiterView| w.id;
        let mut out: Vec<u64> = Vec::new();
        let mut i: usize = 0;
        proof {
            reveal(Seq::filter);
            assert(ws.take(0).filter(f).map_values(g) =~= Seq::<u64>::empty());
        }
        while i < self.waiters.len()
            invariant
                i <= self.waiters@.len() == ws.len(),
                ws == self@.waiters,
                cover == batch@.cover,
                f == (|w: WaiterView| w.notified && cover.contains_key(w.path)),
                g == (|w: WaiterView| w.id),
                out@ == ws.take(i as int).filter(f).map_values(g),
            decreases ws.len() - i,
        {
            let w = &self.waiters[i];
            assert(ws[i as int] == w@);
            proof {
                reveal(Seq::filter);
                assert(ws.take(i + 1).drop_last() =~= ws.take(i as int));
                assert(ws.take(i + 1).last() == w@);
            }
            let ghost was = ws.take(i as int).filter(f);
            if w.notified && batch.cover.contains_key(w.path.as_str()) {
                out.push(w.id);
                assert(was.push(w@).map_values(g) =~= was.map_values(g).push(w.id));
            }
            i += 1;
        }
        assert(ws.take(i as int) =~= ws);
        out
    }

    /// Publishes a batch that holds no directories.
    pub fn publish(&mut self, batch: &FrozenBatch, evidence: S4Evidence) -> (r: Result<
        PublishOutcome,
        StateError,
    >)
        requires
            old(self)@.wf(),
            old(self)@.room(1),
            old(self)@.stats.poisoned < u64::MAX,
            old(self)@.stats.publishes < u64::MAX,
            old(self)@.stats.nodes_copied + total_depth(crate::strmap::sorted_keys(batch@.cover))
                <= usize::MAX,
        ensures
            final(self)@.wf(),
            publish_done(
                old(self)@,
                final(self)@,
                batch@,
                evidence,
                Set::empty(),
                r,
            ),
    {
        self.publish_namespace(batch, evidence, &StrSet::new())
    }

    /// Publishes a batch on the caller's evidence that it reached the tape: its changes enter
    /// the committed view together, or the volume is poisoned. Paths in `directories` are
    /// directories. A batch that is not under way changes nothing but who has been told.
    pub fn publish_namespace(
        &mut self,
        batch: &FrozenBatch,
        evidence: S4Evidence,
        directories: &StrSet,
    ) -> (r: Result<PublishOutcome, StateError>)
        requires
            old(self)@.wf(),
            old(self)@.room(1),
            old(self)@.stats.poisoned < u64::MAX,
            old(self)@.stats.publishes < u64::MAX,
            old(self)@.stats.nodes_copied + total_depth(crate::strmap::sorted_keys(batch@.cover))
                <= usize::MAX,
        ensures
            final(self)@.wf(),
            publish_done(old(self)@, final(self)@, batch@, evidence, directories@, r),
    {
        if evidence.batch_id != batch.batch_id {
            return Err(
                StateError::EvidenceMismatch { expected: batch.batch_id, got: evidence.batch_id },
            );
        }
        let cur = self.current.clone();
        if cur.instance != batch.instance {
            return Err(
                StateError::StaleInstance { batch: batch.instance, current: cur.instance },
            );
        }
        let notified = self.notify(batch);
        let under_way = match &cur.commit_slot {
            Some(slot) => slot.batch_id == batch.batch_id,
            None => false,
        };
        if !under_way {
            return Ok(
                PublishOutcome {
                    epoch: cur.epoch,
                    generation: cur.generation,
                    notified,
                    duplicate: true,
                },
            );
        }
        let mut delta = PublishStats::default();
        let mut root = cur.next();
        let mut sessions = (*cur.sessions).dup();
        let (committed, pending, mut ledger) = publish_cover(
            &cur,
            batch,
            directories,
            &mut delta,
            Ghost(self.next_reservation),
        );
        proof {
            let d = old(self)@.draft(batch@, directories@);
            lemma_settle_wf(batch@.sessions, cur@.sessions, d.reservations);
        }
        settle(&batch.sessions, &mut sessions, &mut ledger);
        root.committed = committed;
        root.generation = evidence.generation;
        root.pending = Arc::new(pending);
        root.ledger = Arc::new(ledger);
        root.sessions = Arc::new(sessions);
        root.commit_slot = None;
        if self.fail_next_publish {
            self.fail_next_publish = false;
            self.poison();
            return Err(StateError::PublishFailed { notified });
        }
        let new_root = self.swap(root);
        self.stats.nodes_copied = self.stats.nodes_copied + delta.nodes_copied;
        self.stats.last_publish_nodes_copied = delta.nodes_copied;
        self.stats.publishes = self.stats.publishes + 1;
        Ok(
            PublishOutcome {
                epoch: new_root.epoch,
                generation: new_root.generation,
                notified,
                duplicate: false,
            },
        )
    }
}

/// The changes of a batch, path by path, over the current root.
fn publish_cover(
    cur: &VolumeRoot,
    batch: &FrozenBatch,
    directories: &StrSet,
    delta: &mut PublishStats,
    Ghost(next_reservation): Ghost<u64>,
) -> (r: (Arc<DirNode>, StrMap<PendingEntry>, Ledger))
    requires
        cur@.wf(next_reservation),
        old(delta).nodes_copied == 0,
        total_depth(crate::strmap::sorted_keys(batch@.cover)) <= usize::MAX,
    ensures
        ({
            let d = Draft {
                committed: cur@.committed,
                pending: cur@.pending,
                reservations: cur@.ledger.reservations,
                copied: 0,
            }.run(crate::strmap::sorted_keys(batch@.cover), batch@.cover, directories@);
            &&& r.0.tree() == d.committed
            &&& r.1@ == d.pending
            &&& r.2@ == (LedgerView { reservations: d.reservations, ..cur@.ledger })
            &&& final(delta).nodes_copied == d.copied
            &&& d.copied <= total_depth(crate::strmap::sorted_keys(batch@.cover))
            &&& d.wf(next_reservation)
        }),
{
    let n = batch.cover.len();
    let ghost cover = batch@.cover;
    let ghost ks = crate::strmap::sorted_keys(cover);
    let ghost d0 = Draft {
        committed: cur@.committed,
        pending: cur@.pending,
        reservations: cur@.ledger.reservations,
        copied: 0,
    };
    let mut committed = cur.committed.clone();
    let mut pending = (*cur.pending).dup();
    let mut ledger = (*cur.ledger).dup();
    let mut i: usize = 0;
    assert(ks.take(0) =~= Seq::<Seq<char>>::empty());
    while i < n
        invariant
            i <= n == ks.len(),
            cover == batch@.cover,
            ks == crate::strmap::sorted_keys(cover),
            forall|j: int| 0 <= j < n ==> cover.contains_key(#[trigger] ks[j]),
            total_depth(ks) <= usize::MAX,
            d0.run(ks.take(i as int), cover, directories@).wf(next_reservation),
            committed.tree() == d0.run(ks.take(i as int), cover, directories@).committed,
            pending@ == d0.run(ks.take(i as int), cover, directories@).pending,
            ledger@ == (LedgerView {
                reservations: d0.run(ks.take(i as int), cover, directories@).reservations,
                ..cur@.ledger
            }),
            delta.nodes_copied == d0.run(ks.take(i as int), cover, directories@).copied,
            delta.nodes_copied <= total_depth(ks.take(i as int)),
        decreases n - i,
    {
        let path = batch.cover.key_at(i);
        let c: CoverEntry = *batch.cover.value_at(i);
        let ghost d = d0.run(ks.take(i as int), cover, directories@);
        proof {
            assert(ks.take(i + 1).drop_last() =~= ks.take(i as int));
            assert(ks.take(i + 1).last() == ks[i as int]);
            lemma_total_depth_take(ks, i + 1);
            d.lemma_step_wf(path@, c, directories@.contains(path@), next_reservation);
        }
        match tree::split_path(path.as_str()) {
            None => {},
            Some((dirs, name)) => {
                if directories.contains(path.as_str()) {
                    let mut parts = dirs;
                    let ghost was = parts@;
                    parts.push(name);
                    assert(crate::text::views(parts@) =~= crate::text::views(was).push(name@));
                    committed = committed.with_directory(parts.as_slice(), c.removal, delta);
                } else {
                    let file = if c.removal {
                        None
                    } else {
                        Some(
                            Arc::new(
                                FileVersion {
                                    version: c.version,
                                    len: c.len,
                                    partial: !c.complete,
                                },
                            ),
                        )
                    };
                    committed = committed.with_file(dirs.as_slice(), name, file, delta);
                }
                let found: Option<PendingEntry> = match pending.get(path.as_str()) {
                    Some(e) => Some(*e),
                    None => None,
                };
                if let Some(mut e) = found {
                    if e.version == c.version {
                        if c.complete && e.staged_len == c.len {
                            let rid: u64 = e.reservation;
                            pending.remove(path.as_str());
                            let held: Option<Reservation> = match ledger.reservations.get(rid) {
                                Some(r) => Some(r.dup()),
                                None => None,
                            };
                            if let Some(mut r) = held {
                                r.released = true;
                                ledger.reservations.insert(rid, r);
                            }
                        } else {
                            e.committed_prefix = c.len;
                            pending.insert(path.clone(), e);
                        }
                    }
                }
            },
        }
        i += 1;
    }
    assert(ks.take(i as int) =~= ks);
    (committed, pending, ledger)
}

/// What publishing `b` on the evidence `ev` does to a volume, and what it answers.
pub open spec fn publish_done(
    old_v: VolumeView,
    new_v: VolumeView,
    b: BatchView,
    ev: S4Evidence,
    directories: Set<Seq<char>>,
    r: Result<PublishOutcome, StateError>,
) -> bool {
    let told = told_ids(old_v.waiters, b.cover);
    match old_v.publish_refusal(b, ev) {
        Some(e) => r is Err && r->Err_0@ == e && new_v == old_v,
        None => if !old_v.under_way(b) {
            &&& new_v == old_v.with_told(b)
            &&& r matches Ok(o) && o.duplicate && o.notified@ == told && o.epoch
                == old_v.current.epoch && o.generation == old_v.current.generation
        } else if old_v.fail_next_publish {
            &&& new_v == old_v.failed(b)
            &&& r is Err && r->Err_0@ == (StateErrorView::PublishFailed { notified: told })
        } else {
            &&& new_v == old_v.published(b, ev.generation, directories)
            &&& r matches Ok(o) && !o.duplicate && o.notified@ == told && o.epoch
                == new_v.current.epoch && o.generation == ev.generation
        },
    }
}

/// The roots that someone still reads, going by the number of holders of each.
pub open spec fn still_read(roots: Seq<RootView>, counts: Seq<usize>) -> Seq<RootView>
    decreases roots.len(),
{
    if roots.len() == 0 {
        Seq::empty()
    } else {
        let r = still_read(roots.drop_last(), counts);
        if counts[roots.len() - 1] > 1 {
            r.push(roots.last())
        } else {
            r
        }
    }
}

/// `Arc::strong_count`: how many holders the root has at this moment. Other holders come and go,
/// so nothing is claimed of the number.
#[verifier::external_body]
fn holders(root: &Arc<VolumeRoot>) -> (n: usize) {
    Arc::strong_count(root)
}

impl VolumeState {
    /// Lets go of the retired roots that no one reads any more; returns how many.
    pub fn reclaim(&mut self) -> (r: usize)
        ensures
            exists|counts: Seq<usize>|
                counts.len() == old(self)@.retired.len() && final(self)@ == (VolumeView {
                    retired: #[trigger] still_read(old(self)@.retired, counts),
                    ..old(self)@
                }),
            r == old(self)@.retired.len() - final(self)@.retired.len(),
    {
        let mut counts: Vec<usize> = Vec::new();
        let mut i: usize = 0;
        while i < self.retired.len()
            invariant
                i <= self.retired@.len(),
                counts@.len() == i,
            decreases self.retired@.len() - i,
        {
            counts.push(holders(&self.retired[i]));
            i += 1;
        }
        self.reclaim_counted(counts.as_slice())
    }

    /// Lets go of the retired roots with at most one holder, going by `counts`; returns how many.
    pub fn reclaim_counted(&mut self, counts: &[usize]) -> (r: usize)
        requires
            counts@.len() == old(self)@.retired.len(),
        ensures
            final(self)@ == (VolumeView {
                retired: still_read(old(self)@.retired, counts@),
                ..old(self)@
            }),
            r == old(self)@.retired.len() - final(self)@.retired.len(),
    {
        let mut kept: Vec<Arc<VolumeRoot>> = Vec::new();
        let ghost roots = self@.retired;
        let mut gone: usize = 0;
        let mut i: usize = 0;
        assert(roots.take(0) =~= Seq::<RootView>::empty());
        assert(Seq::new(kept@.len(), |j: int| kept@[j]@) =~= Seq::<RootView>::empty());
        while i < self.retired.len()
            invariant
                i <= self.retired@.len() == counts@.len(),
                self.retired@.len() == roots.len(),
                roots == self@.retired,
                *self == *old(self),
                gone + kept@.len() == i,
                Seq::new(kept@.len(), |j: int| kept@[j]@) == still_read(
                    roots.take(i as int),
                    counts@,
                ),
            decreases self.retired@.len() - i,
        {
            proof {
                assert(roots.take(i + 1).drop_last() =~= roots.take(i as int));
                assert(roots.take(i + 1).last() == self.retired@[i as int]@);
            }
            let ghost was = Seq::new(kept@.len(), |j: int| kept@[j]@);
            if counts[i] > 1 {
                kept.push(self.retired[i].clone());
                assert(Seq::new(kept@.len(), |j: int| kept@[j]@) =~= was.push(roots[i as int]));
            } else {
                gone = gone + 1;
            }
            i += 1;
        }
        assert(roots.take(i as int) =~= roots);
        self.retired = kept;
        gone
    }
}

} // verus!
