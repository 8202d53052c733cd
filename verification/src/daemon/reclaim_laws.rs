//! How a tape is emptied before it is formatted.
use vstd::prelude::*;

use crate::daemon::directory::PoolRowView;
use crate::daemon::paths::ServiceError;
use crate::daemon::reclaim;
use crate::daemon::reclaim::{
    ChunkView, CopiedView, CopyPlanView, DeskStepView, DeskView, GateView, Located, OnTapeView,
    ReclaimView, RECLAIM_GIVE_UP_GRACE, RECLAIM_MAX_PASSES, RECLAIM_MAX_WAITS,
    RECLAIM_START_ATTEMPTS,
};
use crate::daemon::files::BatchPolicy;
use crate::daemon::status::TapeRowView;
use crate::daemon::tape_state;
use crate::strmap;

verus! {

proof fn lemma_first_waiting(ks: Seq<Seq<char>>, tapes: Map<Seq<char>, TapeRowView>)
    ensures
        reclaim::first_waiting(ks, tapes) <= ks.len(),
        reclaim::first_waiting(ks, tapes) < ks.len() ==> tapes[ks[reclaim::first_waiting(
            ks,
            tapes,
        ) as int]].state == tape_state::RECLAIMING@,
        forall|i: int|
            0 <= i < reclaim::first_waiting(ks, tapes) ==> tapes[#[trigger] ks[i]].state
                != tape_state::RECLAIMING@,
    decreases ks.len(),
{
    if ks.len() > 0 && tapes[ks[0]].state != tape_state::RECLAIMING@ {
        let rest = ks.skip(1);
        let n = reclaim::first_waiting(rest, tapes) as int;
        lemma_first_waiting(rest, tapes);
        assert(n < rest.len() ==> rest[n] == ks[n + 1]);
        assert forall|i: int| 0 <= i < n + 1 implies tapes[#[trigger] ks[i]].state
            != tape_state::RECLAIMING@ by {
            if i > 0 {
                assert(rest[i - 1] == ks[i]);
            }
        }
    }
}

/// A reclamation begins just of a tape that is in reclamation, the first of them, and just while
/// none is under way; one that was given up rests first. Nothing begins where no tape waits.
pub proof fn law_reclamation_begins_in_order(
    d: DeskView,
    tapes: Map<Seq<char>, TapeRowView>,
    b: Seq<char>,
)
    requires
        tapes.dom().finite(),
    ensures
        ({
            let (e, step) = d.cycle(tapes);
            &&& step is Continue <==> d.current is Some
            &&& step matches DeskStepView::Start { barcode } ==> {
                &&& tapes.contains_key(barcode)
                &&& tapes[barcode].state == tape_state::RECLAIMING@
                &&& tapes.contains_key(b) && tapes[b].state == tape_state::RECLAIMING@ ==> b
                    == barcode || crate::text::lt(barcode, b)
                &&& e.given_up is None
            }
            &&& d.current is None && d.given_up is None && tapes.contains_key(b) && tapes[b].state
                == tape_state::RECLAIMING@ ==> step is Start
            &&& step is Rest && tapes.contains_key(b) && tapes[b].state == tape_state::RECLAIMING@
                ==> e.given_up is Some && e.given_up->0.cycles == d.given_up->0.cycles + 1
                && d.given_up->0.cycles < RECLAIM_GIVE_UP_GRACE
            &&& e.current == d.current && e.failures == d.failures
        }),
{
    let ks = strmap::sorted_keys(tapes);
    strmap::lemma_sorted_keys_list(tapes);
    lemma_first_waiting(ks, tapes);
    let n = reclaim::first_waiting(ks, tapes) as int;
    if n < ks.len() {
        assert(ks.contains(ks[n]));
    }
    if tapes.contains_key(b) && tapes[b].state == tape_state::RECLAIMING@ {
        assert(ks.contains(b));
        let i = choose|i: int| 0 <= i < ks.len() && ks[i] == b;
        assert(i >= n) by {
            if i < n {
                assert(tapes[ks[i]].state != tape_state::RECLAIMING@);
            }
        }
        if i > n {
            assert(crate::text::lt(ks[n], ks[i]));
        }
    }
}

/// A reclamation that could not begin is tried again, up to so many times and only with two drives;
/// else it is given up and the tape takes data again.
pub proof fn law_failed_starts_are_counted(
    d: DeskView,
    barcode: Seq<char>,
    e: Seq<char>,
    drives: nat,
)
    requires
        d.failures < u32::MAX,
    ensures
        ({
            let (f, out) = d.start_failed(barcode, e, drives);
            &&& out is Some <==> drives < 2 || d.failures + 1 >= RECLAIM_START_ATTEMPTS
            &&& out matches Some(a) ==> {
                &&& a.barcode == barcode && a.reason == e && a.state == tape_state::APPENDABLE@
                &&& f.failures == 0 && f.given_up is Some && f.given_up->0.barcode == barcode
                    && f.given_up->0.cycles == 0
            }
            &&& out is None ==> f.failures == d.failures + 1 && f.given_up == d.given_up
            &&& f.current == d.current
        }),
{
}

/// The work goes through every path once, then again through those that were in use, up to so many
/// times. It is done just where nothing is left; a path is looked at only once it is taken off the
/// list, and the rest of the list stays.
pub proof fn law_work_goes_through_the_list(
    r: ReclaimView,
    queued: Option<(usize, u64)>,
    p: BatchPolicy,
)
    requires
        r.passes < u32::MAX,
    ensures
        ({
            let (s, step) = r.next(queued, p);
            let full = queued matches Some(q) && (q.1 >= p.max_bytes || q.0 >= p.max_files);
            &&& step is More <==> full
            &&& step is Done <==> !full && r.todo.len() == 0 && r.retry.len() == 0
            &&& step is Look <==> !full && r.todo.len() > 0
            &&& step matches ChunkView::Look { path } ==> r.todo == s.todo.push(path) && s.retry
                == r.retry
            &&& step is GiveUp <==> !full && r.todo.len() == 0 && r.retry.len() > 0 && r.passes
                >= RECLAIM_MAX_PASSES
            &&& step is Later <==> !full && r.todo.len() == 0 && r.retry.len() > 0 && r.passes
                < RECLAIM_MAX_PASSES
            &&& step is Later ==> s.todo == r.retry && s.retry.len() == 0 && s.passes == r.passes
                + 1
            &&& s.copied == r.copied && s.bytes == r.bytes && s.barcode == r.barcode
        }),
{
    let (s, step) = r.next(queued, p);
    if step is Look {
        assert(r.todo =~= r.todo.drop_last().push(r.todo.last()));
    }
}

/// What became of a path is counted once: what was moved with its bytes, what was out of date, and
/// what was in use is kept for later; where the work halts the path is back on the list.
pub proof fn law_result_is_counted(r: ReclaimView, path: Seq<char>, c: CopiedView)
    requires
        r.copied < u64::MAX,
        r.superseded < u64::MAX,
        c matches CopiedView::Moved(n) ==> r.bytes + n <= u64::MAX,
    ensures
        ({
            let (s, on) = r.took(path, c);
            &&& on <==> !(c is Halt)
            &&& s.copied == r.copied + (if c is Moved { 1int } else { 0 })
            &&& s.bytes == r.bytes + (if c is Moved { c->Moved_0 as int } else { 0 })
            &&& s.superseded == r.superseded + (if c is Superseded { 1int } else { 0 })
            &&& s.retry == (if c is Retry { r.retry.push(path) } else { r.retry })
            &&& s.todo == (if c is Halt { r.todo.push(path) } else { r.todo })
        }),
{
}

/// A node is moved just where it is on the tape and the service either does not know the path or
/// has it on this very tape; a node that is not a tombstone just where it is not deleted either.
/// What is moved is moved as what it is. What the service has elsewhere is left behind.
pub proof fn law_only_current_nodes_are_moved(
    source: Seq<char>,
    on_tape: OnTapeView,
    current: Result<Option<Located>, ServiceError>,
)
    ensures
        ({
            let plan = reclaim::copy_plan(source, on_tape, current);
            let here = current matches Ok(c) && (c is None || c->0.barcode@ == source);
            let alive = current matches Ok(c) && (c is None || !c->0.deleted);
            &&& plan is CopyFile <==> on_tape is File && here && alive
            &&& plan is MoveSymlink <==> on_tape is Symlink && here && alive
            &&& plan is MoveDirectory <==> on_tape is Directory && here && alive
            &&& plan matches CopyPlanView::MoveTombstone { target, directory } ==> here && on_tape
                == (OnTapeView::Tombstone { target: Some(target), directory })
            &&& on_tape matches OnTapeView::Tombstone { target, .. } ==> (target is Some && here
                ==> plan is MoveTombstone)
            &&& current is Ok && !here ==> plan is Superseded
            &&& on_tape is Nothing ==> plan is Superseded
            &&& plan is Fail ==> current is Err
        }),
{
}

proof fn lemma_pool_at(pools: Seq<PoolRowView>, barcode: Seq<char>)
    ensures
        reclaim::pool_at(pools, barcode) <= pools.len(),
        reclaim::pool_at(pools, barcode) < pools.len() ==> pools[reclaim::pool_at(
            pools,
            barcode,
        ) as int].tapes.contains(barcode),
        forall|i: int|
            0 <= i < reclaim::pool_at(pools, barcode) ==> !(#[trigger] pools[i]).tapes.contains(
                barcode,
            ),
    decreases pools.len(),
{
    if pools.len() > 0 && !pools[0].tapes.contains(barcode) {
        let rest = pools.skip(1);
        let n = reclaim::pool_at(rest, barcode) as int;
        lemma_pool_at(rest, barcode);
        assert(n < rest.len() ==> rest[n] == pools[n + 1]);
        assert forall|i: int| 0 <= i < n + 1 implies !(#[trigger] pools[i]).tapes.contains(
            barcode,
        ) by {
            if i > 0 {
                assert(rest[i - 1] == pools[i]);
            }
        }
    }
}

proof fn lemma_orphans(
    v: Seq<Seq<char>>,
    placed: Map<Seq<char>, Seq<char>>,
    source: Seq<char>,
)
    ensures
        reclaim::orphans(v, placed, source).len() == 0 <==> forall|i: int|
            0 <= i < v.len() ==> placed.contains_key(#[trigger] v[i]) && placed[v[i]] != source,
    decreases v.len(),
{
    if v.len() > 0 {
        let rest = v.drop_last();
        lemma_orphans(rest, placed, source);
        assert(v[v.len() - 1] == v.last());
        assert(forall|i: int| 0 <= i < rest.len() ==> #[trigger] rest[i] == v[i]);
        if reclaim::orphans(rest, placed, source).len() == 0 && !reclaim::orphaned(
            placed,
            source,
            v.last(),
        ) {
            assert forall|i: int| 0 <= i < v.len() implies placed.contains_key(#[trigger] v[i])
                && placed[v[i]] != source by {
                if i < rest.len() {
                    assert(rest[i] == v[i]);
                }
            }
        }
        if forall|i: int|
            0 <= i < v.len() ==> placed.contains_key(#[trigger] v[i]) && placed[v[i]] != source {
            assert forall|i: int| 0 <= i < rest.len() implies placed.contains_key(
                #[trigger] rest[i],
            ) && placed[rest[i]] != source by {
                assert(v[i] == rest[i]);
            }
            assert(placed.contains_key(v[v.len() - 1]));
        }
    }
}

/// A tape is formatted just where the directory has no row on it, every path of its index has its
/// place on another tape, and it is in a pool; it is formatted for that pool.
pub proof fn law_when_a_tape_is_formatted(
    r: ReclaimView,
    live: Option<u64>,
    v: Seq<Seq<char>>,
    placed: Map<Seq<char>, Seq<char>>,
    pools: Seq<PoolRowView>,
)
    ensures
        ({
            let (s, step) = r.gate(live, v, placed, pools);
            let clear = !(live is Some && live->0 > 0);
            let all = forall|i: int|
                0 <= i < v.len() ==> placed.contains_key(#[trigger] v[i]) && placed[v[i]]
                    != r.barcode;
            let member = exists|k: int|
                0 <= k < pools.len() && (#[trigger] pools[k]).tapes.contains(r.barcode);
            &&& step is Format <==> clear && all && member
            &&& step matches GateView::Format { volume_id, pool_uuid, pool_name } ==> exists|k: int|
                0 <= k < pools.len() && (#[trigger] pools[k]).tapes.contains(r.barcode)
                    && pools[k].uuid == pool_uuid && pools[k].name == pool_name
            &&& step is Wait <==> !clear && r.waits + 1 <= RECLAIM_MAX_WAITS
            &&& clear ==> s == r
        }),
{
    lemma_pool_at(pools, r.barcode);
    lemma_orphans(v, placed, r.barcode);
    let n = reclaim::pool_at(pools, r.barcode) as int;
    if n < pools.len() {
        assert(pools[n].tapes.contains(r.barcode));
    } else {
        assert forall|k: int| 0 <= k < pools.len() implies !(#[trigger] pools[k]).tapes.contains(
            r.barcode,
        ) by {}
    }
}

/// What is to be looked at is all that the index has: each file, and each directory that is not
/// reserved.
pub proof fn law_work_is_the_whole_index(
    files: Seq<crate::daemon::nodes::IndexFileView>,
    dirs: Seq<crate::daemon::nodes::IndexDirectoryView>,
    i: int,
)
    ensures
        0 <= i < files.len() ==> reclaim::work_of(files, dirs).contains("/"@ + files[i].path),
        0 <= i < dirs.len() && !crate::daemon::nodes::reserved(dirs[i].path) ==> reclaim::work_of(
            files,
            dirs,
        ).contains("/"@ + dirs[i].path),
{
}

} // verus!
