//! What each command does to the control state, and when it is refused.
use vstd::prelude::*;

use crate::daemon::state::{
    AppliedView, CommandView, ControlView, SummaryView, HISTORY_KEPT,
};
use crate::daemon::tape_state;
use crate::strmap;

verus! {

/// The command is about this tape.
pub open spec fn about(cmd: CommandView, b: Seq<char>) -> bool {
    match cmd {
        CommandView::TapeAssign { barcode, .. } => barcode == b,
        CommandView::TapeUnassign { barcode } => barcode == b,
        CommandView::TapeState { barcode, .. } => barcode == b,
        CommandView::TapeReclaim { barcode } => barcode == b,
        CommandView::TapeReclaimed { barcode, .. } => barcode == b,
        CommandView::TapeCommitted { barcode, .. } => barcode == b,
        _ => false,
    }
}

pub open spec fn accepted(out: AppliedView) -> bool {
    out matches AppliedView::Admin(Ok(_))
}

pub open spec fn refused(out: AppliedView) -> bool {
    out matches AppliedView::Admin(Err(_))
}

/// A command touches no other tape than the one that it names, no pool but one that it makes, and
/// the executor only where it is about the executor.
pub proof fn law_command_touches_only_its_own(
    c: ControlView,
    index: u64,
    cmd: CommandView,
    b: Seq<char>,
    u: Seq<char>,
)
    ensures
        ({
            let d = c.applied(index, cmd).0;
            &&& d.applied_index == index
            &&& !about(cmd, b) ==> {
                &&& d.tapes.contains_key(b) == c.tapes.contains_key(b)
                &&& c.tapes.contains_key(b) ==> d.tapes[b] == c.tapes[b]
                &&& d.tape_state.contains_key(b) == c.tape_state.contains_key(b)
                &&& c.tape_state.contains_key(b) ==> d.tape_state[b] == c.tape_state[b]
                &&& d.tape_summary.contains_key(b) == c.tape_summary.contains_key(b)
                &&& c.tape_summary.contains_key(b) ==> d.tape_summary[b] == c.tape_summary[b]
            }
            &&& !(cmd matches CommandView::PoolCreate { uuid, .. } && uuid == u) ==> {
                &&& d.pools.contains_key(u) == c.pools.contains_key(u)
                &&& c.pools.contains_key(u) ==> d.pools[u] == c.pools[u]
            }
            &&& !(cmd is Takeover) && !(cmd is Fenced) && !(cmd is Abandoned) ==> d.executor
                == c.executor
            &&& !(cmd is Takeover) ==> d.history == c.history
        }),
{
}

/// A pool is made just where its name is fit and free, its identifier is free and it takes files;
/// it is there with its name and its limit.
pub proof fn law_pool_is_made(
    c: ControlView,
    index: u64,
    uuid: Seq<char>,
    name: Seq<char>,
    file_limit: u64,
)
    ensures
        ({
            let (d, out) = c.applied(index, CommandView::PoolCreate { uuid, name, file_limit });
            let fit = name.len() > 0 && !name.contains('/') && file_limit > 0
                && !c.pools.contains_key(uuid) && forall|u: Seq<char>|
                c.pools.contains_key(u) ==> (#[trigger] c.pools[u]).name != name;
            &&& out == AppliedView::Admin(Ok(uuid)) <==> fit
            &&& refused(out) <==> !fit
            &&& fit ==> d.pools.contains_key(uuid) && d.pools[uuid].name == name
                && d.pools[uuid].file_limit == file_limit
            &&& !fit ==> d.pools == c.pools
        }),
{
    if c.name_taken(name) {
        let u = choose|u: Seq<char>|
            c.pools.contains_key(u) && (#[trigger] c.pools[u]).name == name;
        assert(c.pools[u].name == name);
    }
}

proof fn lemma_named_from(c: ControlView, keys: Seq<Seq<char>>, name: Seq<char>)
    ensures
        match c.named_from(keys, name) {
            Some(u) => keys.contains(u) && c.pools[u].name == name,
            None => forall|i: int|
                0 <= i < keys.len() ==> (c.pools[#[trigger] keys[i]]).name != name,
        },
    decreases keys.len(),
{
    if keys.len() > 0 {
        let rest = keys.drop_first();
        lemma_named_from(c, rest, name);
        assert(keys.contains(keys[0]));
        match c.named_from(rest, name) {
            Some(u) => {
                let i = choose|i: int| 0 <= i < rest.len() && rest[i] == u;
                assert(keys[i + 1] == u);
            },
            None => {
                assert forall|i: int| 0 < i < keys.len() implies (
                c.pools[#[trigger] keys[i]]).name != name || c.pools[keys[0]].name == name by {
                    assert(rest[i - 1] == keys[i]);
                }
            },
        }
    }
}

/// What names a pool: its identifier, or else its name.
pub proof fn law_pool_is_found(c: ControlView, pool: Seq<char>)
    requires
        c.pools.dom().finite(),
    ensures
        match c.resolved(pool) {
            Some(u) => c.pools.contains_key(u) && (u == pool || (c.pools[u].name == pool
                && !c.pools.contains_key(pool))),
            None => forall|u: Seq<char>| #[trigger]
                c.pools.contains_key(u) ==> u != pool && c.pools[u].name != pool,
        },
{
    let keys = strmap::sorted_keys(c.pools);
    strmap::lemma_sorted_keys_list(c.pools);
    lemma_named_from(c, keys, pool);
    match c.resolved(pool) {
        Some(u) => {
            if !c.pools.contains_key(pool) {
                assert(keys.contains(u));
            }
        },
        None => {
            assert forall|u: Seq<char>| #[trigger] c.pools.contains_key(u) implies u != pool
                && c.pools[u].name != pool by {
                assert(keys.contains(u));
                let i = choose|i: int| 0 <= i < keys.len() && keys[i] == u;
                assert(c.pools[keys[i]].name != pool);
            }
        },
    }
}

/// A tape is put into a pool just where it has a barcode and is in none yet, and the pool is there;
/// it is in that pool then. It is taken out just where it is in one and has no files; then nothing
/// is known of it.
pub proof fn law_tape_enters_and_leaves_a_pool(
    c: ControlView,
    index: u64,
    barcode: Seq<char>,
    pool: Seq<char>,
)
    requires
        c.pools.dom().finite(),
    ensures
        ({
            let (d, out) = c.applied(index, CommandView::TapeAssign { barcode, pool });
            let (e, told) = c.applied(index, CommandView::TapeUnassign { barcode });
            let named = exists|u: Seq<char>| #[trigger]
                c.pools.contains_key(u) && (u == pool || c.pools[u].name == pool);
            let enters = barcode.len() > 0 && named && !c.tapes.contains_key(barcode);
            let leaves = c.tapes.contains_key(barcode) && !(c.tape_summary.contains_key(barcode)
                && c.tape_summary[barcode].files > 0);
            &&& accepted(out) <==> enters
            &&& refused(out) <==> !enters
            &&& enters ==> {
                let u = d.tapes[barcode];
                &&& d.tapes.contains_key(barcode) && c.pools.contains_key(u)
                &&& u == pool || c.pools[u].name == pool
                &&& c.pools.contains_key(pool) ==> u == pool
            }
            &&& accepted(told) <==> leaves
            &&& refused(told) <==> !leaves
            &&& leaves ==> !e.tapes.contains_key(barcode) && !e.tape_summary.contains_key(barcode)
                && !e.tape_state.contains_key(barcode)
        }),
{
    law_pool_is_found(c, pool);
    let s = ControlView { applied_index: index, ..c };
    law_pool_is_found(s, pool);
    match s.resolved(pool) {
        Some(u) => {
            assert(c.pools.contains_key(u));
        },
        None => {},
    }
}

/// A tape goes into reclamation just where it is in a pool and in order, is not reclaimed already,
/// and another tape of its pool takes data.
pub proof fn law_when_a_tape_is_reclaimed(c: ControlView, index: u64, barcode: Seq<char>)
    ensures
        ({
            let (d, out) = c.applied(index, CommandView::TapeReclaim { barcode });
            let state = c.state_of(barcode);
            let other = exists|b: Seq<char>| #[trigger]
                c.tapes.contains_key(b) && b != barcode && c.tapes[b] == c.tapes[barcode]
                    && c.state_of(b) == tape_state::APPENDABLE@;
            let fit = c.tapes.contains_key(barcode) && state != tape_state::RECLAIMING@ && state
                != tape_state::LABEL_MISMATCH@ && state != tape_state::CHECK@ && other;
            &&& accepted(out) <==> fit
            &&& refused(out) <==> !fit
            &&& fit ==> d.state_of(barcode) == tape_state::RECLAIMING@
            &&& d.tapes == c.tapes && d.tape_summary == c.tape_summary
        }),
{
    let s = ControlView { applied_index: index, ..c };
    if s.has_target(barcode) {
        let b = choose|b: Seq<char>| #[trigger]
            s.tapes.contains_key(b) && b != barcode && s.tapes[b] == s.tapes[barcode]
                && s.state_of(b) == tape_state::APPENDABLE@;
        assert(c.tapes.contains_key(b) && c.state_of(b) == s.state_of(b));
    }
    if exists|b: Seq<char>| #[trigger]
        c.tapes.contains_key(b) && b != barcode && c.tapes[b] == c.tapes[barcode] && c.state_of(b)
            == tape_state::APPENDABLE@ {
        let b = choose|b: Seq<char>| #[trigger]
            c.tapes.contains_key(b) && b != barcode && c.tapes[b] == c.tapes[barcode]
                && c.state_of(b) == tape_state::APPENDABLE@;
        assert(s.tapes.contains_key(b) && s.state_of(b) == c.state_of(b));
    }
}

/// A tape that was being reclaimed comes back empty, in its first generation, and takes data again;
/// it stays in its pool. One that was not being reclaimed is left as it is.
pub proof fn law_reclaimed_tape_takes_data_again(
    c: ControlView,
    index: u64,
    barcode: Seq<char>,
    volume_uuid: Seq<char>,
)
    ensures
        ({
            let (d, out) = c.applied(index, CommandView::TapeReclaimed { barcode, volume_uuid });
            let was = c.tape_state.contains_key(barcode) && c.tape_state[barcode]
                == tape_state::RECLAIMING@;
            let m = d.tape_summary[barcode];
            &&& out is Reclaimed <==> was
            &&& was ==> {
                &&& d.state_of(barcode) == tape_state::APPENDABLE@
                &&& d.tape_summary.contains_key(barcode)
                &&& m.volume_uuid == volume_uuid && m.generation == 1
                &&& m.files == 0 && m.bytes_used == 0 && m.bytes_written == 0
            }
            &&& !was ==> d.tape_state == c.tape_state && d.tape_summary == c.tape_summary
            &&& d.tapes == c.tapes
        }),
{
}

/// A commit is taken in just where its tape is in a pool and it is not older than the last one; the
/// tape has its numbers then. Neither its pool nor its state changes.
pub proof fn law_commit_is_taken_in(
    c: ControlView,
    index: u64,
    barcode: Seq<char>,
    m: SummaryView,
    parts: u32,
    full: bool,
)
    ensures
        ({
            let (d, out) = c.applied(
                index,
                CommandView::TapeCommitted {
                    barcode,
                    volume_uuid: m.volume_uuid,
                    generation: m.generation,
                    files: m.files,
                    bytes_used: m.bytes_used,
                    bytes_written: m.bytes_written,
                    parts,
                    full,
                },
            );
            let taken = c.tapes.contains_key(barcode) && (c.tape_summary.contains_key(barcode)
                ==> m.generation >= c.tape_summary[barcode].generation);
            &&& out is CatalogCommitted <==> taken
            &&& taken ==> d.tape_summary.contains_key(barcode) && d.tape_summary[barcode] == m
            &&& !taken ==> out is Nothing && d.tape_summary == c.tape_summary
            &&& d.tapes == c.tapes && d.tape_state == c.tape_state
        }),
{
}

/// A state is recorded just of a tape in a pool, and just one that is known.
pub proof fn law_tape_state_is_recorded(
    c: ControlView,
    index: u64,
    barcode: Seq<char>,
    state: Seq<char>,
)
    ensures
        ({
            let d = c.applied(index, CommandView::TapeState { barcode, state }).0;
            if c.tapes.contains_key(barcode) && tape_state::known(state) {
                d.tape_state == c.tape_state.insert(barcode, state) && d.state_of(barcode) == state
            } else {
                d.tape_state == c.tape_state
            }
        }),
        tape_state::known(tape_state::APPENDABLE@),
        tape_state::known(tape_state::FULL@),
        tape_state::known(tape_state::DATA_FULL@),
        tape_state::known(tape_state::RECLAIMING@),
        tape_state::known(tape_state::CHECK@),
        tape_state::known(tape_state::LABEL_MISMATCH@),
{
}

/// The executor is confirmed or gone just where it is the one that reports, in its own round; a
/// report of any other leaves the executor as it is.
pub proof fn law_executor_answers_for_its_round(
    c: ControlView,
    index: u64,
    node: u64,
    round: u64,
    reason: Seq<char>,
)
    ensures
        ({
            let (d, out) = c.applied(index, CommandView::Fenced { node, round });
            let (e, told) = c.applied(index, CommandView::Abandoned { node, round, reason });
            let own = c.executor matches Some(x) && x.node == node && x.round == round;
            &&& own ==> {
                &&& d.executor is Some && d.executor->0.fenced
                &&& d.executor->0.node == node && d.executor->0.round == round
                &&& d.executor->0.term == c.executor->0.term
                &&& out == AppliedView::FenceConfirmed(d.executor->0)
                &&& e.executor is None
                &&& told == AppliedView::ExecutorGone { node, round }
            }
            &&& !own ==> {
                &&& d.executor == c.executor && e.executor == c.executor
                &&& out == AppliedView::FenceSuperseded { node, round } && told is Nothing
            }
        }),
{
}

/// A takeover is the last of the history; of the earlier ones the newest are kept, in their order.
pub proof fn law_takeover_is_remembered(
    c: ControlView,
    index: u64,
    node: u64,
    term: u64,
    i: int,
)
    requires
        HISTORY_KEPT > 0,
    ensures
        ({
            let (d, out) = c.applied(index, CommandView::Takeover { node, term });
            let n = d.history.len();
            &&& d.history.last() == (index, node)
            &&& n == c.history.len() + 1 || n == HISTORY_KEPT
            &&& 1 <= i < n ==> d.history[n - 1 - i] == c.history[c.history.len() - i]
            &&& d.executor matches Some(x) && x.node == node && x.term == term && x.round == index
                && !x.fenced
            &&& out == AppliedView::NewExecutor(d.executor->0)
        }),
{
}

} // verus!
