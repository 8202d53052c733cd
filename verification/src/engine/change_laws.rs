//! What each step of a change does to the state, from its admission to its publication, and what it
//! leaves alone.
use vstd::prelude::*;

use crate::engine::volume_state;
use crate::engine::volume_state::{
    BatchView, CoverEntry, Draft, LedgerView, PendingEntry, PendingState, ReservationView, RootView,
    Session, SessionState, VolumeView, WaiterView,
};
use crate::strmap;

verus! {

/// Two states differ in nothing but the pending changes and the account, the epoch, the roots that
/// were replaced and the numbers handed out.
pub open spec fn same_view(v: VolumeView, w: VolumeView) -> bool {
    &&& w.current.committed == v.current.committed
    &&& w.current.generation == v.current.generation
    &&& w.current.instance == v.current.instance
    &&& w.current.sessions == v.current.sessions
    &&& w.current.commit_slot == v.current.commit_slot
    &&& w.current.capability == v.current.capability
    &&& w.waiters == v.waiters
}

/// Bytes are taken in on a path just where a change is open there, its session is active and its
/// reservation has that much left.
pub proof fn law_when_bytes_are_taken_in(v: VolumeView, path: Seq<char>, bytes: u64)
    ensures
        v.ingest_refusal(path, bytes) is None <==> {
            let e = v.current.pending[path];
            let r = v.current.ledger.reservations[e.reservation];
            &&& v.current.pending.contains_key(path)
            &&& e.state == PendingState::InProgress
            &&& v.current.sessions.contains_key(e.session)
            &&& v.current.sessions[e.session].state == SessionState::Active
            &&& bytes == 0 || r.consumed + bytes <= r.reserved
        },
{
}

/// Taking bytes in makes the staged length of the change longer by that many, and its reservation
/// more consumed by that many. The rest of the change and of the reservation, every other change,
/// every other reservation and what is published stay.
pub proof fn law_ingest_adds_the_bytes(v: VolumeView, path: Seq<char>, bytes: u64)
    requires
        v.ingest_refusal(path, bytes) is None,
        v.current.pending[path].staged_len + bytes <= u64::MAX,
        v.current.ledger.consumed_since_cut + bytes <= u64::MAX,
    ensures
        ({
            let w = v.ingested(path, bytes);
            let e = v.current.pending[path];
            let f = w.current.pending[path];
            let r = v.current.ledger.reservations[e.reservation];
            let s = w.current.ledger.reservations[e.reservation];
            &&& w.current.pending.contains_key(path)
            &&& f.staged_len == e.staged_len + bytes
            &&& f == (PendingEntry { staged_len: f.staged_len, ..e })
            &&& w.current.ledger.reservations.contains_key(e.reservation)
            &&& bytes > 0 || r.consumed <= r.reserved ==> s.consumed == r.consumed + bytes
            &&& s.reserved == r.reserved && s.session == r.session && s.path == r.path
                && s.released == r.released
            &&& w.current.ledger.consumed_since_cut == v.current.ledger.consumed_since_cut + bytes
            &&& w.current.ledger.baseline_free == v.current.ledger.baseline_free
            &&& w.current.pending.remove(path) == v.current.pending.remove(path)
            &&& w.current.ledger.reservations.remove(e.reservation)
                == v.current.ledger.reservations.remove(e.reservation)
            &&& same_view(v, w)
            &&& w.next_version == v.next_version && w.next_reservation == v.next_reservation
        }),
{
    let w = v.ingested(path, bytes);
    let e = v.current.pending[path];
    assert(w.current.pending.remove(path) =~= v.current.pending.remove(path));
    assert(w.current.ledger.reservations.remove(e.reservation)
        =~= v.current.ledger.reservations.remove(e.reservation));
}

/// The sum of some pieces.
pub open spec fn sum(pieces: Seq<u64>) -> nat
    decreases pieces.len(),
{
    if pieces.len() == 0 {
        0
    } else {
        sum(pieces.drop_last()) + pieces.last() as nat
    }
}

/// The state after the pieces of an upload, one after the other.
pub open spec fn after_pieces(v: VolumeView, path: Seq<char>, pieces: Seq<u64>) -> VolumeView
    decreases pieces.len(),
{
    if pieces.len() == 0 {
        v
    } else {
        after_pieces(v, path, pieces.drop_last()).ingested(path, pieces.last())
    }
}

/// None of the pieces is refused when its turn comes.
pub open spec fn all_taken(v: VolumeView, path: Seq<char>, pieces: Seq<u64>) -> bool
    decreases pieces.len(),
{
    pieces.len() > 0 ==> {
        &&& all_taken(v, path, pieces.drop_last())
        &&& after_pieces(v, path, pieces.drop_last()).ingest_refusal(path, pieces.last()) is None
    }
}

/// An upload that arrives in pieces has the length of all of them together: a change that has just
/// been let in has the sum of its pieces staged, and its reservation has consumed that much, which
/// is never more than it reserved.
pub proof fn law_pieces_add_up(
    v: VolumeView,
    session: u64,
    path: Seq<char>,
    reserve: u64,
    now: u64,
    pieces: Seq<u64>,
)
    requires
        v.room(1),
        all_taken(v.admitted(session, path, reserve, now, false), path, pieces),
        v.current.ledger.consumed_since_cut + sum(pieces) <= u64::MAX,
    ensures
        ({
            let w = after_pieces(v.admitted(session, path, reserve, now, false), path, pieces);
            let e = w.current.pending[path];
            let r = w.current.ledger.reservations[e.reservation];
            &&& w.current.pending.contains_key(path)
            &&& e.staged_len == sum(pieces)
            &&& e.reservation == v.next_reservation
            &&& r.consumed == sum(pieces)
            &&& r.reserved == reserve
            &&& sum(pieces) <= reserve
            &&& e.session == session && !e.removal
            &&& w.current.ledger.consumed_since_cut == v.current.ledger.consumed_since_cut + sum(
                pieces,
            )
        }),
    decreases pieces.len(),
{
    if pieces.len() > 0 {
        law_pieces_add_up(v, session, path, reserve, now, pieces.drop_last());
        let u = after_pieces(
            v.admitted(session, path, reserve, now, false),
            path,
            pieces.drop_last(),
        );
        law_when_bytes_are_taken_in(u, path, pieces.last());
        law_ingest_adds_the_bytes(u, path, pieces.last());
    }
}

/// What was staged for a completed upload is what its batch covers, and in full.
pub proof fn law_batch_covers_all_that_was_staged(
    v: VolumeView,
    path: Seq<char>,
    snap: Set<Seq<char>>,
)
    requires
        v.current.pending.contains_key(path),
    ensures
        ({
            let e = v.current.pending[path];
            let w = v.with_pending(path, PendingEntry { state: PendingState::Ready, ..e });
            let b = w.next_frozen(snap);
            &&& b.cover.contains_key(path)
            &&& b.cover[path].len == e.staged_len
            &&& b.cover[path].version == e.version
            &&& b.cover[path].complete
            &&& b.cover[path].removal == e.removal
        }),
{
}

/// A change is let in just where the volume can be written, its session is active, no other change
/// is on the path, and what it reserves can still be promised.
pub proof fn law_when_a_change_is_let_in(
    v: VolumeView,
    session: u64,
    path: Seq<char>,
    reserve: u64,
)
    ensures
        v.admission_refusal(session, path, reserve) is None <==> {
            &&& v.current.capability.writable
            &&& v.current.sessions.contains_key(session)
            &&& v.current.sessions[session].state == SessionState::Active
            &&& !v.current.pending.contains_key(path)
            &&& reserve == 0 || volume_state::held_total(v.current.ledger.reservations)
                + v.current.ledger.consumed_since_cut + reserve <= v.current.ledger.baseline_free
        },
{
}

/// A change that is let in is open, with nothing staged or committed, under a version and a
/// reservation that no change had before; the reservation is for just this path, session and
/// length. Every other change and reservation stays, and so does what is published.
pub proof fn law_admission_registers_the_change(
    v: VolumeView,
    session: u64,
    path: Seq<char>,
    reserve: u64,
    now: u64,
    removal: bool,
)
    requires
        v.wf(),
        v.room(1),
        v.admission_refusal(session, path, reserve) is None,
    ensures
        ({
            let w = v.admitted(session, path, reserve, now, removal);
            let e = w.current.pending[path];
            let r = w.current.ledger.reservations[e.reservation];
            &&& w.current.pending.contains_key(path)
            &&& e.session == session && e.removal == removal
            &&& e.state == PendingState::InProgress
            &&& e.staged_len == 0 && e.committed_prefix == 0
            &&& e.earliest_registered == now
            &&& e.version == v.next_version && w.next_version == v.next_version + 1
            &&& !v.current.ledger.reservations.contains_key(e.reservation)
            &&& w.current.ledger.reservations.contains_key(e.reservation)
            &&& w.next_reservation > e.reservation
            &&& r.session == session && r.path == path && r.reserved == reserve
            &&& r.consumed == 0 && !r.released
            &&& w.current.pending.remove(path) == v.current.pending
            &&& w.current.ledger.reservations.remove(e.reservation)
                == v.current.ledger.reservations
            &&& w.current.ledger.consumed_since_cut == v.current.ledger.consumed_since_cut
            &&& w.current.ledger.baseline_free == v.current.ledger.baseline_free
            &&& same_view(v, w)
        }),
{
    let w = v.admitted(session, path, reserve, now, removal);
    let e = w.current.pending[path];
    assert(w.current.pending.remove(path) =~= v.current.pending);
    assert(!v.current.ledger.reservations.contains_key(v.next_reservation));
    assert(w.current.ledger.reservations.remove(e.reservation)
        =~= v.current.ledger.reservations);
}

/// Replacing the change on a path touches no other change, no reservation and nothing published.
pub proof fn law_update_is_of_one_path(v: VolumeView, path: Seq<char>, e: PendingEntry)
    ensures
        ({
            let w = v.with_pending(path, e);
            &&& w.current.pending.contains_key(path) && w.current.pending[path] == e
            &&& w.current.pending.remove(path) == v.current.pending.remove(path)
            &&& w.current.ledger == v.current.ledger
            &&& same_view(v, w)
        }),
{
    assert(v.with_pending(path, e).current.pending.remove(path)
        =~= v.current.pending.remove(path));
}

/// What may still be promised and what has been held back or used make up the free space that was
/// measured; where more is taken than that, nothing may be promised.
pub proof fn law_account_balances(l: LedgerView)
    ensures
        ({
            let taken = volume_state::held_total(l.reservations) + l.consumed_since_cut;
            &&& taken <= l.baseline_free ==> l.available() + taken == l.baseline_free
            &&& taken > l.baseline_free ==> l.available() == 0
        }),
{
}

/// Measuring the free space anew counts the use from there on; what was reserved stays held back.
pub proof fn law_calibration_starts_the_count(r: RootView, device_free: u64)
    ensures
        ({
            let q = r.with_calibration(device_free);
            &&& q.ledger.baseline_free == device_free
            &&& q.ledger.consumed_since_cut == 0
            &&& q.ledger.reservations == r.ledger.reservations
            &&& q.pending == r.pending && q.sessions == r.sessions
            &&& q.committed == r.committed && q.commit_slot == r.commit_slot
            &&& q.generation == r.generation && q.capability == r.capability
        }),
{
}

/// A session that is opened is active up to its deadline, and every other one stays as it was.
pub proof fn law_open_session_is_active(r: RootView, session: u64, deadline: u64, now: u64)
    requires
        r.epoch < u64::MAX,
    ensures
        ({
            let q = r.with_session(session, deadline);
            &&& q.active(session)
            &&& q.sessions[session].deadline == deadline
            &&& q.sessions[session].refs == 0
            &&& q.lapsed(session, now, q.epoch) <==> deadline <= now
            &&& !q.lapsed(session, now, r.epoch)
            &&& q.sessions.remove(session) == r.sessions.remove(session)
            &&& q.pending == r.pending && q.ledger == r.ledger
            &&& q.committed == r.committed && q.commit_slot == r.commit_slot
        }),
{
    let q = r.with_session(session, deadline);
    assert(q.sessions.remove(session) =~= r.sessions.remove(session));
}

/// A renewal sets the deadline to the later of the two and changes nothing else of the session;
/// every other one stays.
pub proof fn law_renewal_is_of_one_session(r: RootView, session: u64, new_deadline: u64)
    requires
        r.active(session),
        r.epoch < u64::MAX,
    ensures
        ({
            let q = r.with_renewal(session, new_deadline);
            let s = r.sessions[session];
            let t = q.sessions[session];
            &&& q.active(session)
            &&& t.deadline == s.deadline || t.deadline == new_deadline
            &&& t.deadline >= s.deadline && t.deadline >= new_deadline
            &&& t.refs == s.refs
            &&& t.renewed_at_epoch == r.epoch + 1
            &&& q.sessions.remove(session) == r.sessions.remove(session)
            &&& q.pending == r.pending && q.ledger == r.ledger
            &&& q.committed == r.committed && q.commit_slot == r.commit_slot
        }),
{
    let q = r.with_renewal(session, new_deadline);
    assert(q.sessions.remove(session) =~= r.sessions.remove(session));
}

/// When sessions end, each of them expires, or closes where a batch under way refers to it. One that
/// expires gives back all that it holds; no other reservation changes. Of its changes just those go
/// that are open, not in the batch under way and committed in no part; all other changes stay as
/// they are, and so does what is published.
pub proof fn law_ending_ends_just_these(
    r: RootView,
    ids: Set<u64>,
    id: u64,
    rid: u64,
    path: Seq<char>,
)
    ensures
        ({
            let q = r.with_ended(ids);
            let s = r.sessions[id];
            let h = r.ledger.reservations[rid];
            let e = r.pending[path];
            &&& q.sessions.contains_key(id) <==> r.sessions.contains_key(id)
            &&& r.sessions.contains_key(id) ==> {
                &&& q.sessions[id].deadline == s.deadline && q.sessions[id].refs == s.refs
                &&& ids.contains(id) && s.refs == 0 ==> q.sessions[id].state
                    == SessionState::Expired
                &&& ids.contains(id) && s.refs > 0 ==> q.sessions[id].state
                    == SessionState::Closing
                &&& !ids.contains(id) ==> q.sessions[id] == s
            }
            &&& q.ledger.reservations.contains_key(rid) <==> r.ledger.reservations.contains_key(rid)
            &&& r.ledger.reservations.contains_key(rid) ==> {
                let g = q.ledger.reservations[rid];
                &&& g == (ReservationView { released: g.released, ..h })
                &&& g.released <==> h.released || (ids.contains(h.session)
                    && r.sessions[h.session].refs == 0)
            }
            &&& q.pending.contains_key(path) <==> r.pending.contains_key(path) && !(ids.contains(
                e.session,
            ) && e.state == PendingState::InProgress && e.committed_prefix == 0 && !(
            r.commit_slot matches Some(b) && b.cover.contains_key(path) && b.cover[path].version
                == e.version))
            &&& q.pending.contains_key(path) ==> q.pending[path] == e
            &&& q.committed == r.committed && q.commit_slot == r.commit_slot
            &&& q.ledger.consumed_since_cut == r.ledger.consumed_since_cut
            &&& q.ledger.baseline_free == r.ledger.baseline_free
        }),
{
}

proof fn lemma_frozen_sessions_are(
    keys: Seq<Seq<char>>,
    m: Map<Seq<char>, PendingEntry>,
    snap: Set<Seq<char>>,
    id: u64,
)
    ensures
        volume_state::frozen_sessions(keys, m, snap).contains(id) <==> exists|i: int|
            0 <= i < keys.len() && m[#[trigger] keys[i]].session == id && volume_state::covered(
                keys[i],
                m[keys[i]],
                snap,
            ),
    decreases keys.len(),
{
    let all = volume_state::frozen_sessions(keys, m, snap);
    if keys.len() > 0 {
        let rest = keys.drop_last();
        let r = volume_state::frozen_sessions(rest, m, snap);
        let p = keys.last();
        lemma_frozen_sessions_are(rest, m, snap, id);
        assert(keys[keys.len() - 1] == p);
        if r.contains(id) {
            let i = choose|i: int| 0 <= i < r.len() && r[i] == id;
            assert(all[i] == id);
            let j = choose|j: int|
                0 <= j < rest.len() && m[#[trigger] rest[j]].session == id && volume_state::covered(
                    rest[j],
                    m[rest[j]],
                    snap,
                );
            assert(keys[j] == rest[j]);
        } else {
            assert(all.len() > r.len() ==> all[r.len() as int] == m[p].session);
            if all.contains(id) {
                let i = choose|i: int| 0 <= i < all.len() && all[i] == id;
                assert(i == r.len()) by {
                    if i < r.len() {
                        assert(r[i] == id);
                    }
                }
            }
            if exists|i: int|
                0 <= i < keys.len() && m[#[trigger] keys[i]].session == id && volume_state::covered(
                    keys[i],
                    m[keys[i]],
                    snap,
                ) {
                let i = choose|i: int|
                    0 <= i < keys.len() && m[#[trigger] keys[i]].session == id
                        && volume_state::covered(keys[i], m[keys[i]], snap);
                if i < rest.len() {
                    assert(rest[i] == keys[i]);
                }
                assert(all[r.len() as int] == id);
            }
        }
    }
}

/// A batch that is frozen takes up just the changes that are ready, and of the open ones those that
/// are asked for and have grown since they were last committed; each with the version, the length
/// and the kind that it has at that moment. It is the next generation. It refers to the sessions of
/// these changes, each once, and to no others. No change and no reservation is touched.
pub proof fn law_freeze_takes_up_the_changes(
    v: VolumeView,
    snap: Set<Seq<char>>,
    path: Seq<char>,
    id: u64,
)
    requires
        v.room(1),
        v.current.generation < u64::MAX,
        v.current.pending.dom().finite(),
        v.current.sessions.contains_key(id),
        v.current.sessions[id].refs < u32::MAX,
    ensures
        ({
            let b = v.next_frozen(snap);
            let w = v.frozen(snap);
            let e = v.current.pending[path];
            let named = exists|p: Seq<char>|
                b.cover.contains_key(p) && (#[trigger] v.current.pending[p]).session == id;
            &&& b.cover.contains_key(path) <==> v.current.pending.contains_key(path) && (e.state
                == PendingState::Ready || (snap.contains(path) && e.staged_len
                > e.committed_prefix))
            &&& b.cover.contains_key(path) ==> {
                &&& b.cover[path].version == e.version
                &&& b.cover[path].len == e.staged_len
                &&& b.cover[path].removal == e.removal
                &&& b.cover[path].complete <==> e.state == PendingState::Ready
            }
            &&& b.generation == v.current.generation + 1
            &&& b.instance == v.current.instance
            &&& b.batch_id == v.next_batch && w.next_batch == v.next_batch + 1
            &&& w.current.commit_slot == Some(b)
            &&& b.sessions.contains(id) <==> named
            &&& b.sessions.no_duplicates()
            &&& w.current.sessions[id] == (Session {
                refs: if named {
                    (v.current.sessions[id].refs + 1) as u32
                } else {
                    v.current.sessions[id].refs
                },
                ..v.current.sessions[id]
            })
            &&& w.current.pending == v.current.pending
            &&& w.current.ledger == v.current.ledger
            &&& w.current.committed == v.current.committed
            &&& w.current.generation == v.current.generation
        }),
{
    let m = v.current.pending;
    let keys = strmap::sorted_keys(m);
    let b = v.next_frozen(snap);
    strmap::lemma_sorted_keys_list(m);
    lemma_frozen_sessions_are(keys, m, snap, id);
    volume_state::lemma_frozen_sessions_once(keys, m, snap);
    if b.sessions.contains(id) {
        let i = choose|i: int|
            0 <= i < keys.len() && m[#[trigger] keys[i]].session == id && volume_state::covered(
                keys[i],
                m[keys[i]],
                snap,
            );
        assert(keys.contains(keys[i]));
        assert(b.cover.contains_key(keys[i]) && m[keys[i]].session == id);
    }
    if exists|p: Seq<char>|
        b.cover.contains_key(p) && (#[trigger] v.current.pending[p]).session == id {
        let p = choose|p: Seq<char>|
            b.cover.contains_key(p) && (#[trigger] v.current.pending[p]).session == id;
        assert(m.dom().contains(p));
        assert(keys.contains(p));
        let i = choose|i: int| 0 <= i < keys.len() && keys[i] == p;
        assert(m[keys[i]].session == id);
    }
}

/// Each waiter keeps its place, its path and what it waits for. It is told just where it was told
/// before or the batch covers its path up to at least the length that it waits for.
pub proof fn law_waiters_are_told(ws: Seq<WaiterView>, cover: Map<Seq<char>, CoverEntry>, i: int)
    requires
        0 <= i < ws.len(),
    ensures
        ({
            let t = volume_state::told(ws, cover);
            &&& t.len() == ws.len()
            &&& t[i].id == ws[i].id && t[i].path == ws[i].path && t[i].len_required
                == ws[i].len_required
            &&& t[i].notified <==> ws[i].notified || (cover.contains_key(ws[i].path)
                && cover[ws[i].path].len >= ws[i].len_required)
        }),
{
}

proof fn lemma_filtered(s: Seq<WaiterView>, f: spec_fn(WaiterView) -> bool, x: WaiterView)
    ensures
        s.filter(f).contains(x) <==> s.contains(x) && f(x),
    decreases s.len(),
{
    reveal(Seq::filter);
    if s.len() > 0 {
        let rest = s.drop_last();
        let kept = rest.filter(f);
        lemma_filtered(rest, f, x);
        assert(s[s.len() - 1] == s.last());
        assert(s.contains(x) <==> rest.contains(x) || x == s.last()) by {
            if rest.contains(x) {
                let i = choose|i: int| 0 <= i < rest.len() && rest[i] == x;
                assert(s[i] == x);
            }
            if s.contains(x) && x != s.last() {
                let i = choose|i: int| 0 <= i < s.len() && s[i] == x;
                assert(rest[i] == x);
            }
        }
        assert(kept.push(s.last()).contains(x) <==> kept.contains(x) || x == s.last()) by {
            assert(kept.push(s.last())[kept.len() as int] == s.last());
            if kept.contains(x) {
                let i = choose|i: int| 0 <= i < kept.len() && kept[i] == x;
                assert(kept.push(s.last())[i] == x);
            }
        }
    }
}

/// The waiters that are named as told are just those that were not told before and are now.
pub proof fn law_named_waiters(ws: Seq<WaiterView>, cover: Map<Seq<char>, CoverEntry>, id: u64)
    ensures
        volume_state::told_ids(ws, cover).contains(id) <==> exists|i: int|
            0 <= i < ws.len() && (#[trigger] ws[i]).id == id && !ws[i].notified
                && volume_state::told(ws, cover)[i].notified,
{
    let f = |w: WaiterView| volume_state::newly_covered(w, cover);
    let kept = ws.filter(f);
    let ids = volume_state::told_ids(ws, cover);
    if ids.contains(id) {
        let j = choose|j: int| 0 <= j < ids.len() && ids[j] == id;
        lemma_filtered(ws, f, kept[j]);
        assert(kept.contains(kept[j]));
        let i = choose|i: int| 0 <= i < ws.len() && ws[i] == kept[j];
        assert(ws[i].id == id);
    }
    if exists|i: int|
        0 <= i < ws.len() && (#[trigger] ws[i]).id == id && !ws[i].notified && volume_state::told(
            ws,
            cover,
        )[i].notified {
        let i = choose|i: int|
            0 <= i < ws.len() && (#[trigger] ws[i]).id == id && !ws[i].notified
                && volume_state::told(ws, cover)[i].notified;
        assert(f(ws[i]));
        lemma_filtered(ws, f, ws[i]);
        assert(ws.contains(ws[i]));
        let j = choose|j: int| 0 <= j < kept.len() && kept[j] == ws[i];
        assert(ids[j] == id);
    }
}

/// What a publication makes of one pending change: it leaves where the batch covers it in full and
/// nothing was added since; where the batch covers a part of it, that part is marked as committed;
/// one that the batch does not know stays.
pub open spec fn change_after(
    m: Map<Seq<char>, PendingEntry>,
    cover: Map<Seq<char>, CoverEntry>,
    path: Seq<char>,
) -> Option<PendingEntry> {
    if !m.contains_key(path) {
        None
    } else if !cover.contains_key(path) || cover[path].version != m[path].version {
        Some(m[path])
    } else if cover[path].complete && cover[path].len == m[path].staged_len {
        None
    } else {
        Some(PendingEntry { committed_prefix: cover[path].len, ..m[path] })
    }
}

proof fn lemma_pending_after(
    d: Draft,
    keys: Seq<Seq<char>>,
    cover: Map<Seq<char>, CoverEntry>,
    directories: Set<Seq<char>>,
    path: Seq<char>,
)
    requires
        keys.no_duplicates(),
        crate::engine::tree::parts(path).len() > 0,
    ensures
        ({
            let e = d.run(keys, cover, directories);
            let c = if keys.contains(path) {
                map![path => cover[path]]
            } else {
                Map::empty()
            };
            match change_after(d.pending, c, path) {
                Some(x) => e.pending.contains_key(path) && e.pending[path] == x,
                None => !e.pending.contains_key(path),
            }
        }),
    decreases keys.len(),
{
    if keys.len() > 0 {
        let k0 = keys.drop_last();
        assert(k0.no_duplicates()) by {
            assert forall|i: int, j: int| 0 <= i < k0.len() && 0 <= j < k0.len() && i
                != j implies k0[i] != k0[j] by {
                assert(keys[i] != keys[j]);
            }
        }
        lemma_pending_after(d, k0, cover, directories, path);
        assert(keys[keys.len() - 1] == keys.last());
        if keys.last() == path {
            assert(!k0.contains(path)) by {
                if k0.contains(path) {
                    let i = choose|i: int| 0 <= i < k0.len() && k0[i] == path;
                    assert(keys[i] == path);
                }
            }
            assert(keys.contains(path));
        } else {
            assert(k0.contains(path) <==> keys.contains(path)) by {
                if keys.contains(path) {
                    let i = choose|i: int| 0 <= i < keys.len() && keys[i] == path;
                    assert(k0[i] == path);
                }
                if k0.contains(path) {
                    let i = choose|i: int| 0 <= i < k0.len() && k0[i] == path;
                    assert(keys[i] == path);
                }
            }
        }
    }
}

/// A publication settles the pending changes that its batch covers, each by itself, and leaves the
/// others. It ends the batch, takes its generation over and leaves the measured space as it was.
pub proof fn law_publication_settles_the_changes(
    v: VolumeView,
    b: BatchView,
    generation: u64,
    directories: Set<Seq<char>>,
    path: Seq<char>,
)
    requires
        b.cover.dom().finite(),
        crate::engine::tree::parts(path).len() > 0,
    ensures
        ({
            let w = v.published(b, generation, directories);
            &&& match change_after(v.current.pending, b.cover, path) {
                Some(x) => w.current.pending.contains_key(path) && w.current.pending[path] == x,
                None => !w.current.pending.contains_key(path),
            }
            &&& w.current.commit_slot is None
            &&& w.current.generation == generation
            &&& w.current.ledger.consumed_since_cut == v.current.ledger.consumed_since_cut
            &&& w.current.ledger.baseline_free == v.current.ledger.baseline_free
            &&& w.current.capability == v.current.capability
            &&& w.current.instance == v.current.instance
            &&& w.next_version == v.next_version && w.next_reservation == v.next_reservation
        }),
{
    let keys = strmap::sorted_keys(b.cover);
    strmap::lemma_sorted_keys_list(b.cover);
    strmap::lemma_listing_finite(keys, b.cover.dom());
    assert(keys.contains(path) <==> b.cover.contains_key(path));
    let d = Draft {
        committed: v.current.committed,
        pending: v.current.pending,
        reservations: v.current.ledger.reservations,
        copied: 0,
    };
    lemma_pending_after(d, keys, b.cover, directories, path);
}

} // verus!
