//! What a node does with the reports of its devices and with what the log has decided.
use vstd::prelude::*;

use crate::daemon::codec::SnapshotView;
use crate::daemon::node;
use crate::daemon::node::{ActionView, EventView, NodeView};
use crate::daemon::state;
use crate::daemon::state::CommandView;

verus! {

/// The commit of a batch is put into the log by the executor of the round, while it leads, and by no
/// one else: every record once and in its order, in numbered parts, and then the numbers of the
/// commit with the number of parts.
pub proof fn law_batch_commit_is_logged(
    v: NodeView,
    ev: EventView,
    listed: u64,
    is_leader: bool,
    i: int,
)
    requires
        ev matches EventView::Committed { full, .. } && !full,
        state::catalog_parts(ev->Committed_files).len() <= u32::MAX,
    ensures
        ({
            let round = ev->Committed_round;
            let barcode = ev->Committed_barcode;
            let generation = ev->Committed_generation;
            let (w, acts) = node::on_report(v, ev, listed, is_leader);
            let parts = state::catalog_parts(ev->Committed_files);
            let own = v.my_round == Some(round) && is_leader;
            &&& w == v
            &&& !own ==> acts.len() == 0
            &&& own ==> {
                &&& acts.len() == parts.len() + 1
                &&& state::joined(parts) == ev->Committed_files
                &&& 0 <= i < parts.len() ==> acts[i] == ActionView::Propose(
                    CommandView::CatalogPart {
                        barcode,
                        generation,
                        part: i as u32,
                        files: parts[i],
                    },
                )
                &&& acts.last() == ActionView::Propose(
                    CommandView::TapeCommitted {
                        barcode,
                        volume_uuid: ev->Committed_volume_uuid,
                        generation,
                        files: ev->Committed_files_total,
                        bytes_used: ev->Committed_bytes_used,
                        bytes_written: ev->Committed_bytes_written,
                        parts: parts.len() as u32,
                        full: false,
                    },
                )
            }
        }),
{
    state::law_parts_are_the_records(ev->Committed_files);
}

/// A tape that was read in full is put into the log just where the directory is behind it; where
/// the directory or the summary is ahead of it the tape is marked to be checked.
pub proof fn law_full_report_brings_the_directory_up(
    v: NodeView,
    ev: EventView,
    listed: u64,
)
    requires
        ev matches EventView::Committed { round, full, .. } && full && v.my_round == Some(round),
    ensures
        ({
            let barcode = ev->Committed_barcode;
            let generation = ev->Committed_generation;
            let acts = node::on_report(v, ev, listed, true).1;
            let ahead = listed > generation || v.summary_generation(barcode) > generation;
            &&& ahead ==> acts.len() == 1 && (acts[0] matches ActionView::Propose(
                CommandView::TapeState { barcode: b, state },
            ) && b == barcode && state == crate::daemon::tape_state::CHECK@)
            &&& !ahead && listed == generation ==> acts.len() == 0
            &&& !ahead && listed < generation ==> (acts.last() matches ActionView::Propose(
                CommandView::TapeCommitted { barcode: b, generation: g, full, .. },
            ) && b == barcode && g == generation && full)
        }),
{
}

/// What the executor reports of a tape becomes the command that says so, about that tape; from
/// anyone else, or from one that does not lead, nothing follows.
pub proof fn law_tape_reports_are_logged(
    v: NodeView,
    round: u64,
    barcode: Seq<char>,
    text: Seq<char>,
    reason: Seq<char>,
    files: u64,
    bytes: u64,
    listed: u64,
    is_leader: bool,
)
    ensures
        ({
            let own = v.my_round == Some(round) && is_leader;
            let a = node::on_report(
                v,
                EventView::Reclaimed { round, barcode, volume_uuid: text, files, bytes },
                listed,
                is_leader,
            );
            let b = node::on_report(
                v,
                EventView::TapeState { round, barcode, state: text },
                listed,
                is_leader,
            );
            let c = node::on_report(
                v,
                EventView::ReclaimAbandoned { round, barcode, reason, state: text },
                listed,
                is_leader,
            );
            let d = node::on_report(v, EventView::Fenced { round }, listed, is_leader);
            let said = CommandView::TapeState { barcode, state: text };
            &&& own ==> {
                &&& a.1 == seq![
                    ActionView::Propose(CommandView::TapeReclaimed { barcode, volume_uuid: text }),
                ]
                &&& b.1 == seq![ActionView::Propose(said)]
                &&& c.1 == seq![ActionView::Propose(said)]
                &&& d.1 == seq![ActionView::Propose(CommandView::Fenced { node: v.id, round })]
            }
            &&& !own ==> {
                &&& a.1.len() == 0 && b.1.len() == 0 && c.1.len() == 0
                &&& d.1.len() == 1 && d.1[0] is Stop && d.1[0]->Stop_round == round
            }
            &&& a.0.my_round == v.my_round && b.0.my_round == v.my_round && c.0.my_round
                == v.my_round && d.0.my_round == v.my_round
        }),
{
}

/// A node begins to execute just when the log has its own claim of the present term while it leads;
/// it then takes the devices for the round of the claim. It recovers the volume just when the log
/// confirms that they are fenced in its round.
pub proof fn law_execution_begins_with_the_log(
    v: NodeView,
    index: u64,
    node_id: u64,
    claimed: u64,
    round: u64,
    is_leader: bool,
    term: u64,
)
    ensures
        ({
            let (w, out, acts) = node::committed(
                v,
                index,
                CommandView::Takeover { node: node_id, term: claimed },
                is_leader,
                term,
            );
            let (x, told, more) = node::committed(
                v,
                index,
                CommandView::Fenced { node: node_id, round },
                is_leader,
                term,
            );
            let own = node_id == v.id && is_leader && claimed == term;
            let fenced = v.ctl.executor matches Some(e) && e.node == node_id && e.round == round;
            &&& own ==> w.my_round == Some(index) && w.claimed_term == Some(term) && acts == seq![
                ActionView::Takeover { round: index },
            ]
            &&& !own ==> w.my_round is None && !(acts.contains(
                ActionView::Takeover { round: index },
            )) && w.claimed_term == v.claimed_term
            &&& more.contains(ActionView::Recover { round }) <==> fenced && node_id == v.id
                && v.my_round == Some(round) && is_leader
            &&& !fenced && node_id == v.id ==> x.my_round != Some(round) && more.len() == 1
                && more[0] is Stop
        }),
{
    let (w, out, acts) = node::committed(
        v,
        index,
        CommandView::Takeover { node: node_id, term: claimed },
        is_leader,
        term,
    );
    if acts.contains(ActionView::Takeover { round: index }) {
        let i = choose|i: int|
            0 <= i < acts.len() && acts[i] == (ActionView::Takeover { round: index });
    }
    let more = node::committed(
        v,
        index,
        CommandView::Fenced { node: node_id, round },
        is_leader,
        term,
    ).2;
    let recover = ActionView::Recover { round };
    if more.contains(recover) {
        let i = choose|i: int| 0 <= i < more.len() && more[i] == recover;
    }
    if more.len() > 0 && more[0] == recover {
        assert(more.contains(recover));
    }
}

/// A leader claims execution in a term just where it has not yet, and does not hold back: it holds
/// back after a failure for some time, and until its directory is in.
pub proof fn law_leader_claims_execution(
    v: NodeView,
    term: u64,
    now: u64,
    after: NodeView,
    acts: Seq<ActionView>,
)
    requires
        node::cycled(v, true, term, now, after, acts),
    ensures
        ({
            let back = now < v.cooldown_until || v.directory_pending is Some;
            let claim = ActionView::Propose(CommandView::Takeover { node: v.id, term });
            &&& acts.contains(claim) <==> !back && v.claimed_term != Some(term)
                && v.proposed_term != Some(term)
            &&& acts.contains(claim) ==> acts.len() == 1
            &&& after.my_round == v.my_round
        }),
{
    let claim = ActionView::Propose(CommandView::Takeover { node: v.id, term });
    if acts.contains(claim) {
        let i = choose|i: int| 0 <= i < acts.len() && acts[i] == claim;
    }
    if !(now < v.cooldown_until || v.directory_pending is Some) && v.claimed_term != Some(term)
        && v.proposed_term != Some(term) {
        assert(acts[0] == claim);
    }
}

/// A round that is lost is over for the node, which holds back for its cooldown. While it leads it
/// says so in the log first and then hands the leadership to another member, where there is one.
pub proof fn law_lost_round_is_given_up(
    v: NodeView,
    round: u64,
    reason: Seq<char>,
    listed: u64,
    is_leader: bool,
    now: u64,
    after: NodeView,
    acts: Seq<ActionView>,
)
    requires
        node::reported(
            v,
            EventView::Lost { round, reason },
            listed,
            is_leader,
            now,
            after,
            acts,
        ),
        now + v.cooldown <= u64::MAX,
    ensures
        after.my_round != Some(round),
        v.my_round != Some(round) ==> after.my_round == v.my_round,
        after.cooldown_until == now + v.cooldown,
        !is_leader ==> acts.len() == 0,
        is_leader ==> {
            &&& acts.len() > 0 && acts[0] == ActionView::Propose(
                CommandView::Abandoned { node: v.id, round, reason },
            )
            &&& acts.len() <= 2
            &&& (exists|p: u64| #[trigger] v.peers.contains(p) && p != v.id) ==> acts.len() == 2
                && (acts[1] matches ActionView::Yield { to } && to != v.id && v.peers.contains(to))
            &&& acts.len() == 2 ==> exists|p: u64| #[trigger] v.peers.contains(p) && p != v.id
        },
{
    if is_leader {
        let to = choose|to: Option<u64>| #[trigger]
            node::next_node(v.peers, v.id, to) && acts == node::leaving(v.id, round, reason, to);
        assert(node::next_node(v.peers, v.id, to));
        if exists|p: u64| #[trigger] v.peers.contains(p) && p > v.id {
            let p = choose|p: u64| #[trigger] v.peers.contains(p) && p > v.id;
            assert(v.peers.contains(p) && p != v.id);
        }
    }
}

/// A snapshot from another node takes the place of the control state and stops what the node
/// executes; the directory that belongs to it is fetched from where it came from.
pub proof fn law_snapshot_replaces_the_state(v: NodeView, index: u64, s: SnapshotView)
    ensures
        ({
            let (w, acts) = node::snapshot_taken(v, index, s);
            &&& w.ctl == s.control && w.applied == index && w.my_round is None
            &&& v.my_round matches Some(r) ==> acts.len() == 1 && acts[0] is Stop
                && acts[0]->Stop_round == r
            &&& v.my_round is None ==> acts.len() == 0
            &&& v.has_directory && s.directory_index > 0 ==> w.directory_pending == Some(
                (s.source, s.directory_index),
            )
            &&& !(v.has_directory && s.directory_index > 0) ==> w.directory_pending
                == v.directory_pending
        }),
{
}

/// A snapshot is made at what is applied, or at the directory where that is behind, and just where
/// that is later than the last snapshot.
pub proof fn law_where_a_snapshot_is_made(applied: u64, d: u64, snapshot_index: u64)
    ensures
        node::snapshot_at(applied, Some(d), snapshot_index) is None <==> d <= snapshot_index
            || applied <= snapshot_index,
        node::snapshot_at(applied, Some(d), snapshot_index) matches Some((at, upto)) ==> (at == d
            || at == applied) && at <= d && at <= applied && upto == d,
        node::snapshot_at(applied, None, snapshot_index) == Some((applied, 0u64)),
{
}

} // verus!
