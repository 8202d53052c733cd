//! What holds of the engine state across calls.
use vstd::prelude::*;

use crate::engine::tree;
use crate::engine::tree::{FileVersion, Parts, TreeView};
use crate::engine::volume_state;
use crate::engine::volume_state::{
    BatchView, CoverEntry, Draft, PendingEntry, PendingState, ReservationView, RootView,
    SessionState, StateErrorView, VolumeView, WaiterView,
};
use crate::strmap;

verus! {

/// A file put at a path is there; paths that are neither above nor below keep what they had.
pub proof fn law_put_file_then_read(t: TreeView, p: Parts, f: FileVersion, q: Parts)
    ensures
        t.put_file(p, f).files.contains_key(p) && t.put_file(p, f).files[p] == f,
        !tree::within(p, q) && !tree::within(q, p) ==> {
            &&& t.put_file(p, f).files.contains_key(q) == t.files.contains_key(q)
            &&& t.files.contains_key(q) ==> t.put_file(p, f).files[q] == t.files[q]
            &&& t.put_file(p, f).dirs.contains(q) == t.dirs.contains(q)
        },
{
    assert(p.take(p.len() as int) =~= p);
}

/// Removing makes no directory: what lies above a removed path is not recreated.
pub proof fn law_removal_makes_no_directory(t: TreeView, p: Parts, q: Parts)
    ensures
        t.drop_file(p).dirs.contains(q) ==> t.dirs.contains(q),
        t.drop_dir(p).dirs.contains(q) ==> t.dirs.contains(q),
        !t.drop_dir(p).dirs.contains(p),
        !t.drop_file(p).files.contains_key(p),
        !t.drop_dir(p).files.contains_key(p),
{
    assert(p.take(p.len() as int) =~= p);
}

/// A published directory is a directory and adds no file.
pub proof fn law_directory_is_no_file(t: TreeView, p: Parts, q: Parts)
    ensures
        t.put_dir(p).dirs.contains(p),
        !t.put_dir(p).files.contains_key(p),
        t.put_dir(p).files.contains_key(q) ==> t.files.contains_key(q) && t.put_dir(p).files[q]
            == t.files[q],
{
}

/// Letting a change in lowers what may be promised by what it reserves, and no more.
pub proof fn law_admission_takes_its_reserve(
    v: VolumeView,
    session: u64,
    path: Seq<char>,
    reserve: u64,
    now: u64,
    removal: bool,
)
    requires
        v.wf(),
        v.admission_refusal(session, path, reserve) is None,
    ensures
        v.admitted(session, path, reserve, now, removal).current.ledger.available()
            == v.current.ledger.available() - reserve,
{
    let m = v.current.ledger.reservations;
    let rid = v.next_reservation;
    assert(!m.contains_key(rid));
    volume_state::lemma_held_insert(
        m,
        rid,
        ReservationView { session, path, reserved: reserve, consumed: 0, released: false },
    );
}

/// Taking bytes in uses the change's own reservation: what may be promised to others stays.
pub proof fn law_ingest_keeps_available(v: VolumeView, path: Seq<char>, bytes: u64)
    requires
        v.wf(),
        v.ingest_refusal(path, bytes) is None,
        v.current.ledger.consumed_since_cut + bytes <= u64::MAX,
        !v.current.ledger.reservations[v.current.pending[path].reservation].released,
    ensures
        v.ingested(path, bytes).current.ledger.available() == v.current.ledger.available(),
{
    let e = v.current.pending[path];
    let m = v.current.ledger.reservations;
    let r = m[e.reservation];
    assert(v.current.pending.contains_key(path));
    volume_state::lemma_held_insert(
        m,
        e.reservation,
        ReservationView { consumed: (r.consumed + bytes) as u64, ..r },
    );
}

/// A change that refers to data already on the volume uses no space.
pub proof fn law_reference_uses_no_space(v: VolumeView, path: Seq<char>, e: PendingEntry)
    ensures
        v.with_pending(path, e).current.ledger == v.current.ledger,
{
}

/// Whoever holds a root keeps it: an update only adds a root and retires the old one unchanged.
pub proof fn law_readers_keep_their_root(v: VolumeView, r: RootView, i: int)
    requires
        0 <= i < v.retired.len(),
    ensures
        v.installed(r).retired[i] == v.retired[i],
        v.installed(r).retired.last() == v.current,
        v.poisoned_now().retired[i] == v.retired[i],
        v.poisoned_now().retired.last() == v.current,
{
}

/// Every update that gets through moves the epoch on by one.
pub proof fn law_epoch_moves_by_one(
    v: VolumeView,
    b: BatchView,
    generation: u64,
    directories: Set<Seq<char>>,
    session: u64,
    path: Seq<char>,
    n: u64,
    ids: Set<u64>,
    snap: Set<Seq<char>>,
    e: PendingEntry,
)
    requires
        v.room(1),
    ensures
        v.published(b, generation, directories).current.epoch == v.current.epoch + 1,
        v.admitted(session, path, n, n, false).current.epoch == v.current.epoch + 1,
        v.ingested(path, n).current.epoch == v.current.epoch + 1,
        v.with_pending(path, e).current.epoch == v.current.epoch + 1,
        v.frozen(snap).current.epoch == v.current.epoch + 1,
        v.current.with_session(session, n).epoch == v.current.epoch + 1,
        v.current.with_renewal(session, n).epoch == v.current.epoch + 1,
        v.current.with_calibration(n).epoch == v.current.epoch + 1,
        v.current.with_ended(ids).epoch == v.current.epoch + 1,
        v.current.poisoned().epoch == v.current.epoch + 1,
{
}

/// A failed publication leaves the committed view, the pending changes, the account and the sessions
/// as they were, nothing is trusted, readable or writable, and no write gets in any more.
pub proof fn law_failed_publication_keeps_the_view(
    v: VolumeView,
    b: BatchView,
    session: u64,
    path: Seq<char>,
    reserve: u64,
)
    requires
        v.wf(),
    ensures
        v.failed(b).current.committed == v.current.committed,
        v.failed(b).current.pending == v.current.pending,
        v.failed(b).current.ledger == v.current.ledger,
        v.failed(b).current.generation == v.current.generation,
        v.failed(b).current.sessions == v.current.sessions,
        !v.failed(b).current.capability.trusted,
        !v.failed(b).current.capability.readable,
        !v.failed(b).current.capability.writable,
        v.failed(b).admission_refusal(session, path, reserve) is Some,
        v.failed(b).admission_refusal(session, path, reserve)->0 is NotWritable,
        v.failed(b).wf(),
        v.failed(b).freeze_refusal() is Some,
{
}

/// While a batch is under way no other can be frozen.
pub proof fn law_one_batch_at_a_time(v: VolumeView, snap: Set<Seq<char>>)
    ensures
        v.frozen(snap).freeze_refusal() == Some(StateErrorView::CommitSlotOccupied(v.next_batch)),
        v.frozen(snap).under_way(v.next_frozen(snap)),
{
}

/// Publishing a batch again changes nothing and tells no one twice.
pub proof fn law_publishing_again_changes_nothing(
    v: VolumeView,
    b: BatchView,
    generation: u64,
    directories: Set<Seq<char>>,
)
    ensures
        ({
            let w = v.published(b, generation, directories);
            &&& !w.under_way(b)
            &&& w.with_told(b) == w
            &&& volume_state::told_ids(w.waiters, b.cover) == Seq::<u64>::empty()
        }),
{
    let w = v.published(b, generation, directories);
    law_told_once(v.waiters, b.cover);
    assert(w.with_told(b) =~= w);
}

/// A waiter is told once.
pub proof fn law_told_once(ws: Seq<WaiterView>, cover: Map<Seq<char>, CoverEntry>)
    ensures
        volume_state::told(volume_state::told(ws, cover), cover) == volume_state::told(ws, cover),
        volume_state::told_ids(volume_state::told(ws, cover), cover) == Seq::<u64>::empty(),
{
    let t = volume_state::told(ws, cover);
    assert(volume_state::told(t, cover) =~= t);
    let f = |w: WaiterView| volume_state::newly_covered(w, cover);
    assert forall|i: int| 0 <= i < t.len() implies !f(#[trigger] t[i]) by {
        assert(t[i].notified || !f(t[i]));
    }
    lemma_filter_none(t, f);
    assert(t.filter(f).map_values(|w: WaiterView| w.id) =~= Seq::<u64>::empty());
}

proof fn lemma_filter_none(s: Seq<WaiterView>, f: spec_fn(WaiterView) -> bool)
    requires
        forall|i: int| 0 <= i < s.len() ==> !f(#[trigger] s[i]),
    ensures
        s.filter(f) == Seq::<WaiterView>::empty(),
    decreases s.len(),
{
    reveal(Seq::filter);
    if s.len() > 0 {
        assert forall|i: int| 0 <= i < s.drop_last().len() implies !f(
            #[trigger] s.drop_last()[i],
        ) by {
            assert(s.drop_last()[i] == s[i]);
        }
        assert(!f(s[s.len() - 1]));
        lemma_filter_none(s.drop_last(), f);
    }
}

/// An expiry check that looked before a renewal does not end the session.
pub proof fn law_renewal_voids_older_checks(
    r: RootView,
    session: u64,
    new_deadline: u64,
    now: u64,
    observed_epoch: u64,
)
    requires
        r.epoch < u64::MAX,
        r.active(session),
        observed_epoch <= r.epoch,
    ensures
        !r.with_renewal(session, new_deadline).lapsed(session, now, observed_epoch),
{
}

/// Renewal never brings a deadline forward.
pub proof fn law_renewal_never_shortens(r: RootView, session: u64, new_deadline: u64)
    ensures
        r.with_renewal(session, new_deadline).sessions[session].deadline
            >= r.sessions[session].deadline,
        r.with_renewal(session, new_deadline).sessions[session].deadline >= new_deadline,
{
}

/// Ending sessions never lowers what may be promised.
pub proof fn law_ending_gives_back(r: RootView, ids: Set<u64>, next_reservation: u64)
    requires
        r.wf(next_reservation),
    ensures
        r.with_ended(ids).ledger.available() >= r.ledger.available(),
{
    let a = r.ledger.reservations;
    let b = r.with_ended(ids).ledger.reservations;
    assert(b.dom() =~= a.dom());
    volume_state::lemma_held_le(a, b);
}

/// Ending sessions keeps every change that is ready, that has been committed in part or that the
/// batch under way holds.
pub proof fn law_ending_keeps_what_is_in_a_batch(r: RootView, ids: Set<u64>, path: Seq<char>)
    requires
        r.pending.contains_key(path),
        r.pending[path].state == PendingState::Ready || r.pending[path].committed_prefix > 0
            || volume_state::frozen_in(r.commit_slot, path, r.pending[path]),
    ensures
        r.with_ended(ids).pending.contains_key(path),
        r.with_ended(ids).pending[path] == r.pending[path],
{
}

/// A batch names the sessions of all that it covers.
proof fn lemma_frozen_sessions_hold(
    keys: Seq<Seq<char>>,
    m: Map<Seq<char>, PendingEntry>,
    snap: Set<Seq<char>>,
    path: Seq<char>,
)
    requires
        keys.contains(path),
        volume_state::covered(path, m[path], snap),
    ensures
        volume_state::frozen_sessions(keys, m, snap).contains(m[path].session),
    decreases keys.len(),
{
    let rest = keys.drop_last();
    let r = volume_state::frozen_sessions(rest, m, snap);
    let all = volume_state::frozen_sessions(keys, m, snap);
    let x = m[path].session;
    if keys.last() != path {
        let i = choose|i: int| 0 <= i < keys.len() && keys[i] == path;
        assert(rest[i] == path);
        lemma_frozen_sessions_hold(rest, m, snap, path);
    }
    if r.contains(x) {
        let i = choose|i: int| 0 <= i < r.len() && r[i] == x;
        assert(all[i] == x);
    } else {
        assert(all[r.len() as int] == x);
    }
}

/// A change that has been frozen outlives its session: when the session ends while the batch is
/// under way, the change stays as it is, and the session closes but does not expire.
pub proof fn law_frozen_change_outlives_its_session(
    v: VolumeView,
    snap: Set<Seq<char>>,
    ids: Set<u64>,
    path: Seq<char>,
)
    requires
        v.current.pending.dom().finite(),
        v.next_frozen(snap).cover.contains_key(path),
        ids.contains(v.current.pending[path].session),
        v.current.sessions.contains_key(v.current.pending[path].session),
        v.current.sessions[v.current.pending[path].session].refs < u32::MAX,
    ensures
        ({
            let after = v.frozen(snap).current.with_ended(ids);
            &&& after.pending.contains_key(path)
            &&& after.pending[path] == v.current.pending[path]
            &&& after.sessions[v.current.pending[path].session].state == SessionState::Closing
        }),
{
    let m = v.current.pending;
    strmap::lemma_sorted_keys_list(m);
    assert(strmap::sorted_keys(m).contains(path));
    lemma_frozen_sessions_hold(strmap::sorted_keys(m), m, snap, path);
}

/// What is ready when a batch is frozen is in it, in full.
pub proof fn law_ready_is_covered(v: VolumeView, snap: Set<Seq<char>>, path: Seq<char>)
    requires
        v.current.pending.contains_key(path),
        v.current.pending[path].state == PendingState::Ready,
    ensures
        v.next_frozen(snap).cover.contains_key(path),
        v.next_frozen(snap).cover[path].complete,
        v.next_frozen(snap).cover[path].len == v.current.pending[path].staged_len,
{
}

/// A change that has not moved since the freeze leaves the pending set when its batch is
/// published; a change that came after the freeze stays as it is.
pub proof fn law_settled_changes_leave(
    d: Draft,
    keys: Seq<Seq<char>>,
    cover: Map<Seq<char>, CoverEntry>,
    directories: Set<Seq<char>>,
    path: Seq<char>,
)
    requires
        keys.no_duplicates(),
    ensures
        keys.contains(path) && tree::parts(path).len() > 0 && d.settled(path, cover[path])
            ==> !d.run(keys, cover, directories).pending.contains_key(path),
        d.pending.contains_key(path) && (!keys.contains(path) || d.pending[path].version
            != cover[path].version) ==> {
            &&& d.run(keys, cover, directories).pending.contains_key(path)
            &&& d.run(keys, cover, directories).pending[path] == d.pending[path]
        },
        !keys.contains(path) ==> d.run(keys, cover, directories).pending.contains_key(path)
            == d.pending.contains_key(path),
    decreases keys.len(),
{
    if keys.len() > 0 {
        let k0 = keys.drop_last();
        law_settled_changes_leave(d, k0, cover, directories, path);
        assert(keys.contains(path) ==> k0.contains(path) || path == keys.last()) by {
            if keys.contains(path) && path != keys.last() {
                let i = choose|i: int| 0 <= i < keys.len() && keys[i] == path;
                assert(k0[i] == path);
            }
        }
        assert(!(k0.contains(path) && path == keys.last())) by {
            if k0.contains(path) {
                let i = choose|i: int| 0 <= i < k0.len() && k0[i] == path;
                assert(keys[i] == path);
            }
        }
        assert(path == keys.last() ==> keys.contains(path)) by {
            assert(keys[keys.len() - 1] == keys.last());
        }
        assert(k0.contains(path) ==> keys.contains(path)) by {
            if k0.contains(path) {
                let i = choose|i: int| 0 <= i < k0.len() && k0[i] == path;
                assert(keys[i] == path);
            }
        }
    }
}

proof fn lemma_reach(t: TreeView, p: Parts)
    ensures
        t.reach(p) <= p.len(),
    decreases p.len(),
{
    if p.len() > 0 {
        lemma_reach(t, p.drop_last());
    }
}

proof fn lemma_run_copies(
    d: Draft,
    keys: Seq<Seq<char>>,
    cover: Map<Seq<char>, CoverEntry>,
    directories: Set<Seq<char>>,
)
    ensures
        d.run(keys, cover, directories).copied <= d.copied + volume_state::total_depth(keys),
    decreases keys.len(),
{
    if keys.len() > 0 {
        lemma_run_copies(d, keys.drop_last(), cover, directories);
        let before = d.run(keys.drop_last(), cover, directories);
        lemma_reach(before.committed, tree::parts(keys.last()).drop_last());
    }
}

/// A publication copies the directories on the way to what it changes, and no others: their number
/// is bounded by the depth of the changed paths, however large the tree is.
pub proof fn law_publication_copies_only_the_changed_ways(
    v: VolumeView,
    b: BatchView,
    generation: u64,
    directories: Set<Seq<char>>,
)
    requires
        volume_state::total_depth(strmap::sorted_keys(b.cover)) <= usize::MAX,
    ensures
        v.published(b, generation, directories).stats.last_publish_nodes_copied
            <= volume_state::total_depth(strmap::sorted_keys(b.cover)),
{
    lemma_run_copies(
        Draft {
            committed: v.current.committed,
            pending: v.current.pending,
            reservations: v.current.ledger.reservations,
            copied: 0,
        },
        strmap::sorted_keys(b.cover),
        b.cover,
        directories,
    );
}

/// The tree tells of `p` what the change `c` on it says.
pub open spec fn tells(t: TreeView, p: Parts, c: CoverEntry, directory: bool) -> bool {
    if directory {
        t.dirs.contains(p) == !c.removal && !t.files.contains_key(p)
    } else if c.removal {
        !t.files.contains_key(p)
    } else {
        &&& !t.dirs.contains(p)
        &&& t.files.contains_key(p)
        &&& t.files[p] == (FileVersion { version: c.version, len: c.len, partial: !c.complete })
    }
}

/// A change on `q` leaves a change on `p` as it is: it is elsewhere, and where it puts something
/// under `p`, a directory is put at `p`.
pub open spec fn leaves(p: Parts, c: CoverEntry, directory: bool, q: Parts, other: CoverEntry) -> bool {
    p != q && (tree::above(p, q) ==> other.removal || (directory && !c.removal))
}

/// No change of the batch undoes another.
pub open spec fn consistent(cover: Map<Seq<char>, CoverEntry>, directories: Set<Seq<char>>) -> bool {
    forall|p: Seq<char>, q: Seq<char>|
        #![trigger cover.contains_key(p), cover.contains_key(q)]
        cover.contains_key(p) && cover.contains_key(q) && p != q ==> leaves(
            tree::parts(p),
            cover[p],
            directories.contains(p),
            tree::parts(q),
            cover[q],
        )
}

/// A change touches a place: it is made there, above it or below it.
pub open spec fn touches(p: Parts, x: Parts) -> bool {
    tree::within(p, x) || tree::within(x, p)
}

proof fn lemma_change_tells(d: Draft, p: Parts, c: CoverEntry, directory: bool)
    ensures
        tells(d.committed_after(p, c, directory), p, c, directory),
{
    assert(p.take(p.len() as int) =~= p);
}

proof fn lemma_change_leaves(
    d: Draft,
    p: Parts,
    c: CoverEntry,
    directory: bool,
    q: Parts,
    other: CoverEntry,
    q_directory: bool,
)
    requires
        tells(d.committed, p, c, directory),
        leaves(p, c, directory, q, other),
        leaves(q, other, q_directory, p, c),
    ensures
        tells(d.committed_after(q, other, q_directory), p, c, directory),
{
    if tree::within(q, p) {
        if q.len() == p.len() {
            assert(p.take(q.len() as int) =~= p);
        }
        assert(tree::above(q, p));
    }
    if tree::above(p, q) {
        assert(!tree::within(q, p));
    }
}

proof fn lemma_untouched(d: Draft, q: Parts, c: CoverEntry, directory: bool, x: Parts)
    requires
        !touches(q, x),
    ensures
        d.committed_after(q, c, directory).files.contains_key(x) == d.committed.files.contains_key(x),
        d.committed.files.contains_key(x) ==> d.committed_after(q, c, directory).files[x]
            == d.committed.files[x],
        d.committed_after(q, c, directory).dirs.contains(x) == d.committed.dirs.contains(x),
{
    assert(x.take(x.len() as int) =~= x);
    if tree::above(x, q) {
        assert(tree::within(x, q));
    }
}

proof fn lemma_run_tells(
    d: Draft,
    keys: Seq<Seq<char>>,
    cover: Map<Seq<char>, CoverEntry>,
    directories: Set<Seq<char>>,
    path: Seq<char>,
)
    requires
        consistent(cover, directories),
        forall|i: int| 0 <= i < keys.len() ==> cover.contains_key(#[trigger] keys[i]),
        keys.contains(path),
        tree::parts(path).len() > 0,
    ensures
        tells(
            d.run(keys, cover, directories).committed,
            tree::parts(path),
            cover[path],
            directories.contains(path),
        ),
    decreases keys.len(),
{
    let k = keys.last();
    let rest = keys.drop_last();
    let at = d.run(rest, cover, directories);
    assert(keys[keys.len() - 1] == k);
    assert(cover.contains_key(k));
    if k == path {
        lemma_change_tells(at, tree::parts(path), cover[path], directories.contains(path));
    } else {
        let i = choose|i: int| 0 <= i < keys.len() && keys[i] == path;
        assert(rest[i] == path);
        assert(cover.contains_key(path));
        assert forall|i: int| 0 <= i < rest.len() implies cover.contains_key(#[trigger] rest[i]) by {
            assert(keys[i] == rest[i]);
        }
        lemma_run_tells(d, rest, cover, directories, path);
        lemma_change_leaves(
            at,
            tree::parts(path),
            cover[path],
            directories.contains(path),
            tree::parts(k),
            cover[k],
            directories.contains(k),
        );
    }
}

proof fn lemma_run_untouched(
    d: Draft,
    keys: Seq<Seq<char>>,
    cover: Map<Seq<char>, CoverEntry>,
    directories: Set<Seq<char>>,
    x: Parts,
)
    requires
        forall|i: int| 0 <= i < keys.len() ==> !touches(tree::parts(#[trigger] keys[i]), x),
    ensures
        ({
            let t = d.run(keys, cover, directories).committed;
            &&& t.files.contains_key(x) == d.committed.files.contains_key(x)
            &&& t.files.contains_key(x) ==> t.files[x] == d.committed.files[x]
            &&& t.dirs.contains(x) == d.committed.dirs.contains(x)
        }),
    decreases keys.len(),
{
    if keys.len() > 0 {
        let k = keys.last();
        let rest = keys.drop_last();
        assert(keys[keys.len() - 1] == k);
        assert forall|i: int| 0 <= i < rest.len() implies !touches(
            tree::parts(#[trigger] rest[i]),
            x,
        ) by {
            assert(keys[i] == rest[i]);
        }
        lemma_run_untouched(d, rest, cover, directories, x);
        let at = d.run(rest, cover, directories);
        lemma_untouched(at, tree::parts(k), cover[k], directories.contains(k), x);
    }
}

/// A whole publication is read back: at every path of the batch the published view has what the
/// batch says, as long as no change of it undoes another.
pub proof fn law_publication_is_read_back(
    v: VolumeView,
    b: BatchView,
    generation: u64,
    directories: Set<Seq<char>>,
    path: Seq<char>,
)
    requires
        b.cover.dom().finite(),
        consistent(b.cover, directories),
        b.cover.contains_key(path),
        tree::parts(path).len() > 0,
    ensures
        tells(
            v.published(b, generation, directories).current.committed,
            tree::parts(path),
            b.cover[path],
            directories.contains(path),
        ),
{
    let keys = strmap::sorted_keys(b.cover);
    strmap::lemma_sorted_keys_list(b.cover);
    assert(b.cover.dom().contains(path));
    assert forall|i: int| 0 <= i < keys.len() implies b.cover.contains_key(#[trigger] keys[i]) by {
        assert(keys.contains(keys[i]));
    }
    lemma_run_tells(
        Draft {
            committed: v.current.committed,
            pending: v.current.pending,
            reservations: v.current.ledger.reservations,
            copied: 0,
        },
        keys,
        b.cover,
        directories,
        path,
    );
}

/// A publication leaves alone what it does not touch: a place that is neither on the way to a path
/// of the batch nor under one has what it had.
pub proof fn law_publication_leaves_the_rest(
    v: VolumeView,
    b: BatchView,
    generation: u64,
    directories: Set<Seq<char>>,
    x: Parts,
)
    requires
        b.cover.dom().finite(),
        forall|p: Seq<char>| #[trigger]
            b.cover.contains_key(p) ==> !touches(tree::parts(p), x),
    ensures
        ({
            let t = v.published(b, generation, directories).current.committed;
            &&& t.files.contains_key(x) == v.current.committed.files.contains_key(x)
            &&& t.files.contains_key(x) ==> t.files[x] == v.current.committed.files[x]
            &&& t.dirs.contains(x) == v.current.committed.dirs.contains(x)
        }),
{
    let keys = strmap::sorted_keys(b.cover);
    strmap::lemma_sorted_keys_list(b.cover);
    assert forall|i: int| 0 <= i < keys.len() implies !touches(tree::parts(#[trigger] keys[i]), x) by {
        assert(keys.contains(keys[i]));
        assert(b.cover.contains_key(keys[i]));
    }
    lemma_run_untouched(
        Draft {
            committed: v.current.committed,
            pending: v.current.pending,
            reservations: v.current.ledger.reservations,
            copied: 0,
        },
        keys,
        b.cover,
        directories,
        x,
    );
}

} // verus!
