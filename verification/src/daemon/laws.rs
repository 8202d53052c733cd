//! What holds of the control state across commands.
use vstd::prelude::*;

use crate::daemon::codec;
use crate::daemon::codec::SnapshotView;
use crate::daemon::state::{AppliedView, CommandView, ControlView, Executor, HISTORY_KEPT};
use crate::daemon::tape_state;
use crate::strmap;

verus! {

/// A round is the log index of its takeover, and takeovers later in the log have larger rounds.
pub proof fn law_round_is_the_log_index(c: ControlView, index: u64, node: u64, term: u64)
    ensures
        c.applied(index, CommandView::Takeover { node, term }).0.executor == Some(
            Executor { node, term, round: index, fenced: false },
        ),
{
}

/// Fencing or giving up that arrives after a newer takeover leaves the new executor alone.
pub proof fn law_superseded_round_is_void(
    c: ControlView,
    takeover_at: u64,
    index: u64,
    new_node: u64,
    term: u64,
    node: u64,
    round: u64,
    reason: Seq<char>,
)
    requires
        round != takeover_at,
    ensures
        ({
            let s = c.applied(takeover_at, CommandView::Takeover { node: new_node, term }).0;
            &&& s.applied(index, CommandView::Fenced { node, round }).1
                == AppliedView::FenceSuperseded { node, round }
            &&& s.applied(index, CommandView::Fenced { node, round }).0.executor == s.executor
            &&& s.applied(index, CommandView::Abandoned { node, round, reason }).1
                == AppliedView::Nothing
            &&& s.applied(index, CommandView::Abandoned { node, round, reason }).0.executor
                == s.executor
        }),
{
}

/// The history stays bounded, and keeps the latest takeovers.
pub proof fn law_history_is_bounded(c: ControlView, index: u64, cmd: CommandView)
    requires
        c.history.len() <= HISTORY_KEPT,
    ensures
        c.applied(index, cmd).0.history.len() <= HISTORY_KEPT,
        cmd is Takeover ==> c.applied(index, cmd).0.history.last() == (index, cmd->Takeover_node),
{
}

/// A refused command changes nothing but how far the log has been applied.
pub proof fn law_refusal_changes_nothing(c: ControlView, index: u64, cmd: CommandView)
    requires
        c.applied(index, cmd).1 matches AppliedView::Admin(Err(_)),
    ensures
        c.applied(index, cmd).0 == (ControlView { applied_index: index, ..c }),
{
}

/// A tape's generation never goes back, but by reclaiming; and a tape keeps its summary until it
/// is taken out of its pool.
pub proof fn law_generation_moves_forward(
    c: ControlView,
    index: u64,
    cmd: CommandView,
    barcode: Seq<char>,
)
    requires
        c.tape_summary.contains_key(barcode),
        !(cmd is TapeReclaimed),
    ensures
        ({
            let d = c.applied(index, cmd).0;
            if d.tape_summary.contains_key(barcode) {
                d.tape_summary[barcode].generation >= c.tape_summary[barcode].generation
            } else {
                cmd == CommandView::TapeUnassign { barcode }
            }
        }),
{
}

/// A tape that holds files stays in its pool.
pub proof fn law_files_keep_the_tape_in_its_pool(
    c: ControlView,
    index: u64,
    cmd: CommandView,
    barcode: Seq<char>,
)
    requires
        c.tapes.contains_key(barcode),
        c.tape_summary.contains_key(barcode),
        c.tape_summary[barcode].files > 0,
    ensures
        c.applied(index, cmd).0.tapes.contains_key(barcode),
        c.applied(index, cmd).0.tapes[barcode] == c.tapes[barcode],
{
}

/// Reclaiming is accepted only for a tape of a pool that is sound, is not being reclaimed and has
/// another tape of its pool to move to; and completion counts only while it is under way.
pub proof fn law_reclaiming_is_guarded(
    c: ControlView,
    index: u64,
    barcode: Seq<char>,
    volume_uuid: Seq<char>,
)
    ensures
        c.applied(index, CommandView::TapeReclaim { barcode }).1 matches AppliedView::Admin(Ok(_))
            ==> {
            &&& c.tapes.contains_key(barcode)
            &&& c.state_of(barcode) != tape_state::RECLAIMING@
            &&& c.state_of(barcode) != tape_state::CHECK@
            &&& c.state_of(barcode) != tape_state::LABEL_MISMATCH@
            &&& c.has_target(barcode)
            &&& c.applied(index, CommandView::TapeReclaim { barcode }).0.state_of(barcode)
                == tape_state::RECLAIMING@
        },
        c.state_of(barcode) != tape_state::RECLAIMING@ ==> c.applied(
            index,
            CommandView::TapeReclaimed { barcode, volume_uuid },
        ) == (ControlView { applied_index: index, ..c }, AppliedView::Nothing),
{
    let d = ControlView { applied_index: index, ..c };
    assert(forall|b: Seq<char>| #[trigger] d.state_of(b) == c.state_of(b));
    assert(d.has_target(barcode) ==> c.has_target(barcode)) by {
        if d.has_target(barcode) {
            let b = choose|b: Seq<char>| #[trigger]
                d.tapes.contains_key(b) && b != barcode && d.tapes[b] == d.tapes[barcode]
                    && d.state_of(b) == tape_state::APPENDABLE@;
            assert(c.tapes.contains_key(b));
        }
    }
}

/// A tape gets a pool only by assignment, and a tape without a pool gets no state and no summary.
pub proof fn law_unassigned_tapes_are_left_alone(
    c: ControlView,
    index: u64,
    cmd: CommandView,
    barcode: Seq<char>,
)
    requires
        !c.tapes.contains_key(barcode),
        !c.tape_state.contains_key(barcode),
        !c.tape_summary.contains_key(barcode),
    ensures
        ({
            let d = c.applied(index, cmd).0;
            &&& d.tapes.contains_key(barcode) ==> cmd is TapeAssign && cmd->TapeAssign_barcode
                == barcode
            &&& !d.tape_state.contains_key(barcode)
            &&& !d.tape_summary.contains_key(barcode)
        }),
{
}

/// A stretch of the log: commands with their indices.
pub type Stretch = Seq<(u64, CommandView)>;

/// The control state after a stretch of the log.
pub open spec fn replayed(c: ControlView, log: Stretch) -> ControlView
    decreases log.len(),
{
    if log.len() == 0 {
        c
    } else {
        replayed(c, log.drop_last()).applied(log.last().0, log.last().1).0
    }
}

/// A state in the middle stands for the log before it: going on from there gives what the whole
/// log gives.
pub proof fn law_state_stands_for_the_log(c: ControlView, before: Stretch, after: Stretch)
    ensures
        replayed(replayed(c, before), after) == replayed(c, before + after),
    decreases after.len(),
{
    if after.len() == 0 {
        assert(before + after =~= before);
    } else {
        law_state_stands_for_the_log(c, before, after.drop_last());
        assert((before + after).drop_last() =~= before + after.drop_last());
    }
}

/// A node that restores itself from a snapshot and goes on comes to what the node that made the
/// snapshot comes to.
pub proof fn law_restored_state_goes_on_alike(s: SnapshotView, after: Stretch)
    requires
        codec::listable(s.control),
    ensures
        codec::snapshot_of(codec::snapshot_doc(s)) is Some,
        replayed((codec::snapshot_of(codec::snapshot_doc(s))->0).control, after) == replayed(
            s.control,
            after,
        ),
{
    codec::law_snapshot_round_trip(s);
}

/// The state of a node that has applied nothing.
pub open spec fn nothing_applied() -> ControlView {
    ControlView {
        executor: None,
        applied_index: 0,
        history: Seq::empty(),
        pools: Map::empty(),
        tapes: Map::empty(),
        tape_state: Map::empty(),
        tape_summary: Map::empty(),
    }
}

/// The indices of the log go up.
pub open spec fn ordered(log: Stretch) -> bool {
    forall|i: int, j: int| 0 <= i < j < log.len() ==> (#[trigger] log[i]).0 < (#[trigger] log[j]).0
}

/// What holds of every control state: pools have limits, and names of their own that are not empty
/// and hold no slash; every assigned tape is in a pool; only assigned tapes have a state, which is
/// one of the known ones, or a summary; the history is bounded, and its last takeover is that of
/// the executor, if there is one.
pub open spec fn sound(c: ControlView) -> bool {
    &&& c.pools.dom().finite()
    &&& forall|u: Seq<char>| #[trigger]
        c.pools.contains_key(u) ==> c.pools[u].name.len() > 0 && !c.pools[u].name.contains('/')
            && c.pools[u].file_limit > 0
    &&& forall|u: Seq<char>, w: Seq<char>|
        #![trigger c.pools.contains_key(u), c.pools.contains_key(w)]
        c.pools.contains_key(u) && c.pools.contains_key(w) && u != w ==> c.pools[u].name
            != c.pools[w].name
    &&& forall|b: Seq<char>| #[trigger]
        c.tapes.contains_key(b) ==> b.len() > 0 && c.pools.contains_key(c.tapes[b])
    &&& forall|b: Seq<char>| #[trigger]
        c.tape_state.contains_key(b) ==> c.tapes.contains_key(b) && tape_state::known(
            c.tape_state[b],
        )
    &&& forall|b: Seq<char>| #[trigger]
        c.tape_summary.contains_key(b) ==> c.tapes.contains_key(b)
    &&& c.history.len() <= HISTORY_KEPT
    &&& c.executor matches Some(e) ==> c.history.len() > 0 && c.history.last() == (e.round, e.node)
}

/// The takeovers in the history go up in rounds, up to the last index.
pub open spec fn goes_up(c: ControlView) -> bool {
    &&& forall|i: int, j: int|
        0 <= i < j < c.history.len() ==> (#[trigger] c.history[i]).0 < (#[trigger] c.history[j]).0
    &&& forall|i: int| 0 <= i < c.history.len() ==> (#[trigger] c.history[i]).0 <= c.applied_index
}

proof fn lemma_named_from(c: ControlView, keys: Seq<Seq<char>>, name: Seq<char>)
    ensures
        c.named_from(keys, name) is Some ==> keys.contains(c.named_from(keys, name)->0),
    decreases keys.len(),
{
    if keys.len() > 0 {
        let t = keys.drop_first();
        lemma_named_from(c, t, name);
        assert(keys.contains(keys[0]));
        if c.named_from(t, name) is Some {
            let k = c.named_from(t, name)->0;
            if t.contains(k) {
                let i = choose|i: int| 0 <= i < t.len() && t[i] == k;
                assert(keys[i + 1] == k);
            }
        }
    }
}

proof fn lemma_applied_sound(c: ControlView, index: u64, cmd: CommandView)
    requires
        sound(c),
    ensures
        sound(c.applied(index, cmd).0),
        c.applied(index, cmd).0.applied_index == index,
{
    let s = ControlView { applied_index: index, ..c };
    let d = c.applied(index, cmd).0;
    match cmd {
        CommandView::Takeover { node, term } => {
            assert(d.history.last() == (index, node));
        },
        CommandView::TapeAssign { barcode, pool } => {
            if s.assign_refusal(barcode, pool) is None {
                let keys = strmap::sorted_keys(s.pools);
                strmap::lemma_sorted_keys_list(s.pools);
                lemma_named_from(s, keys, pool);
                assert(s.pools.dom().contains(s.resolved(pool)->0));
                assert(s.pools.contains_key(s.resolved(pool)->0));
            }
        },
        CommandView::PoolCreate { uuid, name, file_limit } => {
            if s.pool_create_refusal(uuid, name, file_limit) is None {
                assert forall|u: Seq<char>| #[trigger] s.pools.contains_key(u) implies s.pools[u].name
                    != name by {
                    assert(!s.name_taken(name));
                }
            }
        },
        _ => {},
    }
}

/// Every state that a log leads to is sound.
pub proof fn law_every_reachable_state_is_sound(log: Stretch)
    ensures
        sound(replayed(nothing_applied(), log)),
        log.len() > 0 ==> replayed(nothing_applied(), log).applied_index == log.last().0,
    decreases log.len(),
{
    if log.len() > 0 {
        law_every_reachable_state_is_sound(log.drop_last());
        lemma_applied_sound(
            replayed(nothing_applied(), log.drop_last()),
            log.last().0,
            log.last().1,
        );
    }
}

/// Where the indices of the log go up, as they do in a log, the rounds of the history go up too.
pub proof fn law_rounds_go_up(log: Stretch)
    requires
        ordered(log),
    ensures
        goes_up(replayed(nothing_applied(), log)),
    decreases log.len(),
{
    if log.len() > 0 {
        let rest = log.drop_last();
        assert(ordered(rest)) by {
            assert forall|i: int, j: int| 0 <= i < j < rest.len() implies (#[trigger] rest[i]).0 < (
            #[trigger] rest[j]).0 by {
                assert(log[i].0 < log[j].0);
            }
        }
        law_rounds_go_up(rest);
        law_every_reachable_state_is_sound(rest);
        let c = replayed(nothing_applied(), rest);
        let index = log.last().0;
        if rest.len() > 0 {
            assert(log[rest.len() - 1].0 < log[log.len() - 1].0);
        }
        match log.last().1 {
            CommandView::Takeover { node, term } => {
                let h = c.history.push((index, node));
                assert forall|i: int, j: int| 0 <= i < j < h.len() implies (#[trigger] h[i]).0 < (
                #[trigger] h[j]).0 by {
                    if j == c.history.len() {
                        assert(c.history[i].0 <= c.applied_index);
                    } else {
                        assert(c.history[i].0 < c.history[j].0);
                    }
                }
            },
            _ => {},
        }
    }
}

} // verus!
