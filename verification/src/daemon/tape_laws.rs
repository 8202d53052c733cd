//! How the tape to write is found and opened, and how a node is copied to it.
use vstd::prelude::*;

use crate::daemon::copying;
use crate::daemon::copying::{CopyStartView, FileCopyView, TapeNodeView};
use crate::daemon::directory::PoolRowView;
use crate::daemon::files::{Nodes, ServiceView};
use crate::daemon::library;
use crate::daemon::library::{DriveView, InventoryView};
use crate::daemon::opening;
use crate::daemon::opening::{Capacity, MountFacts, OpenView, OpeningView, TailReport};
use crate::daemon::paths;
use crate::daemon::paths::ServiceError;
use crate::daemon::reclaim::{CopiedView, Located};
use crate::daemon::service_laws;
use crate::daemon::status::TapeRowView;
use crate::daemon::tape_state;
use crate::daemon::write_tape;
use crate::daemon::write_tape::{CandidateView, SearchStep, TapeSearchView};
use crate::engine::change_laws;
use crate::engine::volume_state::PendingState;
use crate::error::{TapeError, TapeErrorView};

verus! {

/// One of the candidates is this tape, in this pool.
pub open spec fn is_candidate(v: Seq<CandidateView>, p: PoolRowView, b: Seq<char>) -> bool {
    exists|i: int|
        0 <= i < v.len() && (#[trigger] v[i]).barcode == b && v[i].pool_uuid == p.uuid
            && v[i].pool_name == p.name && v[i].file_limit == p.file_limit
}

proof fn lemma_place(inv: InventoryView, v: Seq<CandidateView>, c: CandidateView)
    ensures
        write_tape::place(inv, v, c) <= v.len(),
    decreases v.len(),
{
    if v.len() > 0 && !write_tape::before(inv, c, v[0]) {
        lemma_place(inv, v.skip(1), c);
    }
}

proof fn lemma_placed(inv: InventoryView, v: Seq<CandidateView>, c: CandidateView)
    ensures
        ({
            let w = write_tape::placed(inv, v, c);
            let n = write_tape::place(inv, v, c) as int;
            &&& w.len() == v.len() + 1
            &&& 0 <= n <= v.len() && w[n] == c
            &&& forall|i: int| 0 <= i < v.len() ==> w[if i < n { i } else { i + 1 }] == #[trigger] v[i]
        }),
{
    lemma_place(inv, v, c);
}

proof fn lemma_with_tapes(
    inv: InventoryView,
    tapes: Map<Seq<char>, TapeRowView>,
    p: PoolRowView,
    bs: Seq<Seq<char>>,
    v: Seq<CandidateView>,
    q: PoolRowView,
    b: Seq<char>,
)
    requires
        is_candidate(v, q, b) || (q == p && bs.contains(b) && write_tape::takes_data(tapes, b)
            && write_tape::at_hand(inv, b)),
    ensures
        is_candidate(write_tape::with_tapes(inv, tapes, p, bs, v), q, b),
    decreases bs.len(),
{
    if bs.len() > 0 {
        let rest = bs.drop_last();
        let head = write_tape::with_tapes(inv, tapes, p, rest, v);
        let x = bs.last();
        let c = write_tape::candidate_of(p, tapes, x);
        lemma_placed(inv, head, c);
        let w = write_tape::placed(inv, head, c);
        let n = write_tape::place(inv, head, c) as int;
        if is_candidate(v, q, b) || rest.contains(b) {
            lemma_with_tapes(inv, tapes, p, rest, v, q, b);
            let i = choose|i: int|
                0 <= i < head.len() && (#[trigger] head[i]).barcode == b && head[i].pool_uuid
                    == q.uuid && head[i].pool_name == q.name && head[i].file_limit == q.file_limit;
            let j = if i < n {
                i
            } else {
                i + 1
            };
            assert(w[j] == head[i]);
            assert(w[j].barcode == b);
        } else {
            let i = choose|i: int| 0 <= i < bs.len() && bs[i] == b;
            if i < rest.len() {
                assert(rest[i] == b);
            }
            assert(w[n].barcode == b);
        }
    }
}

/// Every tape of a pool that is in the library and takes data is tried, for that pool.
pub proof fn law_every_writable_tape_is_tried(
    inv: InventoryView,
    tapes: Map<Seq<char>, TapeRowView>,
    pools: Seq<PoolRowView>,
    k: int,
    b: Seq<char>,
)
    requires
        0 <= k < pools.len(),
        pools[k].tapes.contains(b),
        !tapes.contains_key(b) || tapes[b].state == tape_state::APPENDABLE@,
        inv.in_drive(b) || inv.slots.contains_key(b),
    ensures
        is_candidate(write_tape::candidates_of(inv, tapes, pools), pools[k], b),
    decreases pools.len(),
{
    let rest = pools.drop_last();
    let v = write_tape::candidates_of(inv, tapes, rest);
    if k < rest.len() {
        assert(rest[k] == pools[k]);
        law_every_writable_tape_is_tried(inv, tapes, rest, k, b);
    }
    lemma_with_tapes(inv, tapes, pools.last(), pools.last().tapes, v, pools[k], b);
}

/// A tape is tried before another where it alone is in a drive, else where it is fuller, else by
/// its barcode.
pub proof fn law_order_of_trying(inv: InventoryView, x: CandidateView, y: CandidateView)
    ensures
        inv.in_drive(x.barcode) && !inv.in_drive(y.barcode) ==> write_tape::before(inv, x, y)
            && !write_tape::before(inv, y, x),
        inv.in_drive(x.barcode) == inv.in_drive(y.barcode) && x.bytes_used > y.bytes_used
            ==> write_tape::before(inv, x, y) && !write_tape::before(inv, y, x),
        !write_tape::before(inv, x, x),
{
    crate::text::lemma_lt_irreflexive(x.barcode);
}

/// The next candidate is opened in the drive that holds it, or moved from its own slot into an empty
/// drive. The search ends where no candidate or no drive is left.
pub proof fn law_next_candidate_is_opened_or_loaded(s: TapeSearchView)
    requires
        s.wf(),
    ensures
        ({
            let (t, step) = s.step();
            let b = s.cands[s.next].barcode;
            let held = exists|i: int| 0 <= i < s.inv.drives.len() && (#[trigger] s.inv.drives[i]).holds(b);
            let free = exists|i: int|
                0 <= i < s.inv.drives.len() && (#[trigger] s.inv.drives[i]).loaded is None;
            &&& step is Open <==> s.next < s.cands.len() && held
            &&& step is Load <==> s.next < s.cands.len() && !held && free
            &&& step matches SearchStep::Open { dev } ==> {
                &&& 0 <= t.slot < s.inv.drives.len() && s.inv.drives[t.slot].holds(b)
                &&& s.inv.drives[t.slot].dev == dev
            }
            &&& step matches SearchStep::Load { from, dev, addr } ==> {
                &&& s.inv.slots.contains_key(b) && from == s.inv.slots[b]
                &&& 0 <= t.slot < s.inv.drives.len() && s.inv.drives[t.slot].loaded is None
                &&& s.inv.drives[t.slot].dev == dev && s.inv.drives[t.slot].addr == addr
            }
            &&& !(step is Nothing) ==> t.next == s.next && t.cands == s.cands && t.inv == s.inv
        }),
{
    let b = s.cands[s.next].barcode;
    let f = |d: DriveView| d.holds(b);
    let g = |d: DriveView| d.loaded is None;
    library::lemma_first_drive(s.inv.drives, f);
    library::lemma_first_drive(s.inv.drives, g);
    let h = s.inv.drive_with(b) as int;
    let k = s.inv.free_drive() as int;
    if h < s.inv.drives.len() {
        assert(s.inv.drives[h].holds(b));
    } else {
        assert forall|i: int| 0 <= i < s.inv.drives.len() implies !(
        #[trigger] s.inv.drives[i]).holds(b) by {
            assert(!f(s.inv.drives[i]));
        }
    }
    if k < s.inv.drives.len() {
        assert(s.inv.drives[k].loaded is None);
    } else {
        assert forall|i: int| 0 <= i < s.inv.drives.len() implies (
        #[trigger] s.inv.drives[i]).loaded is Some by {
            assert(!g(s.inv.drives[i]));
        }
    }
    if s.next < s.cands.len() {
        assert(write_tape::at_hand(s.inv, s.cands[s.next].barcode));
    }
}

/// The room that is kept back is at least a fiftieth of the tape and at least four of its indexes,
/// and on top of that a twentieth of it or 1 GiB, whichever is less; and it is no more than that.
pub proof fn law_reserve_of_a_tape(total: u64, index_entries: u64)
    ensures
        ({
            let r = opening::reserve_of(total, index_entries);
            let spare = if total / 20 < 0x4000_0000 {
                total / 20
            } else {
                0x4000_0000
            };
            &&& r >= total / 50 + spare
            &&& r >= 4400 * index_entries + spare
            &&& r == total / 50 + spare || r == 4400 * index_entries + spare
        }),
{
}

/// A volume is written just where it can be mounted, is writable and bears the mark of its pool, or
/// none yet; a tail that is open is closed first, and all else is refused or ends the round.
pub proof fn law_only_a_sound_volume_is_opened(
    o: OpeningView,
    m: Result<MountFacts, TapeError>,
    salvage: bool,
    t: Result<TailReport, TapeError>,
    writable: bool,
    restricted: Option<String>,
    mark: Option<Seq<char>>,
)
    ensures
        o.after_mount(m, salvage).1 is Look <==> (m matches Ok(f) && f.writable),
        o.after_mount(m, salvage).1 is CloseTail <==> (m matches Ok(f) && !f.writable
            && f.open_tail),
        o.after_mount(m, salvage).1 matches OpenView::CloseTail { salvage: s } ==> s == salvage,
        o.after_tail(t, writable, restricted).1 is Look <==> t is Ok && writable,
        o.after_look(mark) is Measure <==> mark == Some(o.cand.pool_uuid),
        o.after_look(mark) is WriteMark <==> mark is None,
        o.after_look(mark) is Refuse <==> mark is Some && mark->0 != o.cand.pool_uuid,
{
}

/// A tape is served just where it has not reached its file limit and has more room than is kept
/// back; what may be promised is the room beyond that.
pub proof fn law_when_a_tape_is_served(
    o: OpeningView,
    files_now: u64,
    index_entries: u64,
    c: Capacity,
)
    ensures
        ({
            let step = o.after_measure(files_now, index_entries, Some(c)).1;
            let kept = opening::reserve_of(c.total, index_entries);
            &&& step is Serve <==> files_now < o.cand.file_limit && c.remaining > kept
            &&& step matches OpenView::Serve { usable, free } ==> {
                &&& free == c.remaining - kept
                &&& c.total > kept ==> usable == c.total - kept
                &&& c.total <= kept ==> usable == 0
            }
            &&& step matches OpenView::Refuse { note, state } ==> state == (if files_now
                >= o.cand.file_limit {
                tape_state::DATA_FULL@
            } else {
                tape_state::FULL@
            })
        }),
{
    reveal_strlit("data_full");
    reveal_strlit("full");
}

/// A file whose content was read whole is queued as an upload of its path: with that content, its
/// length and all its metadata. Where it could not be read nothing is queued.
pub proof fn law_copied_file_takes_all_along(
    svc: ServiceView,
    c: FileCopyView,
    spool: Seq<char>,
    read: Result<Seq<u8>, TapeErrorView>,
    now: u64,
)
    requires
        copying::takes_copy(svc, c),
    ensures
        ({
            let (v, r) = copying::copy_read(svc, c, spool, read, now);
            let s = svc.serving->0;
            let t = v.serving->0;
            let u = t.queue.last();
            &&& r is Ok ==> {
                &&& v.serving is Some && t.queue.drop_last() == s.queue
                &&& u.path == c.handle.path && u.task == c.handle.task
                &&& u.spool == spool && u.len == c.len && u.metadata == Some(c.metadata)
                &&& !u.delete && !u.directory && u.symlink_target is None
                &&& t.volume.current.pending[c.handle.path].state == PendingState::Ready
                &&& t.volume.current.pending[c.handle.path].staged_len
                    == s.volume.current.pending[c.handle.path].staged_len + c.len
            }
            &&& read is Err ==> r is Err
            &&& r is Err && svc.serving is Some ==> v.serving is Some && t.queue == s.queue
        }),
{
    match copying::taken_in(svc, c.handle, c.len) {
        Ok(w) => {
            change_laws::law_ingest_adds_the_bytes(
                svc.serving->0.volume,
                c.handle.path,
                c.len,
            );
            service_laws::law_finished_upload_is_queued(
                w,
                c.handle,
                spool,
                c.len,
                Some(c.metadata),
                now,
            );
        },
        Err(e) => {},
    }
}

/// A node without content that is copied is queued as what it is: a directory with its metadata, a
/// link with its target and its metadata, a tombstone as the removal of the path that it names. A
/// file is let in for its length before it is read.
pub proof fn law_copied_node_is_queued_as_it_is(
    svc: ServiceView,
    source: Seq<char>,
    path: Seq<char>,
    node: TapeNodeView,
    current: Result<Option<Located>, ServiceError>,
    seen: u64,
    live: Nodes,
    now: u64,
)
    requires
        svc.wf(),
        svc.room(2),
    ensures
        ({
            let (v, step) = copying::copy_begun(
                svc,
                source,
                path,
                node,
                current,
                seen,
                live,
                now,
            );
            let u = v.serving->0.queue.last();
            let queued = v.serving is Some && svc.serving is Some && v.serving->0.queue.len()
                == svc.serving->0.queue.len() + 1;
            &&& step matches CopyStartView::Settled(Ok(CopiedView::Moved(_))) ==> {
                &&& queued
                &&& node matches TapeNodeView::Directory { metadata } ==> u.path == paths::normal(
                    path,
                ) && u.directory && !u.delete && u.metadata == Some(metadata)
                &&& node matches TapeNodeView::Symlink { target, metadata } ==> u.path
                    == paths::normal(path) && u.symlink_target == Some(target) && !u.delete
                    && u.metadata == Some(metadata)
                &&& node matches TapeNodeView::Tombstone { target, directory } ==> target is Some
                    && u.path == paths::normal(target->0) && u.delete && u.directory == directory
                &&& !(node is File) && !(node is Nothing)
            }
            &&& step matches CopyStartView::Read(c) ==> {
                &&& node matches TapeNodeView::File { len, sha256, metadata } && c.len == len
                    && c.want == sha256 && c.metadata == metadata
                &&& c.path == path && c.source == source
                &&& c.handle.path == paths::normal(path)
                &&& v.serving is Some && v.serving->0.volume.current.pending.contains_key(
                    c.handle.path,
                )
            }
        }),
{
    service_laws::law_node_change_is_queued(
        svc,
        path,
        false,
        Some(node->Directory_metadata),
        None,
        seen,
        live,
        now,
    );
    service_laws::law_node_change_is_queued(
        svc,
        path,
        false,
        Some(node->Symlink_metadata),
        Some(node->Symlink_target),
        seen,
        live,
        now,
    );
}

} // verus!
