//! What a node decides: when it claims execution, what it puts into the log, what it tells its
//! device thread, and when it gives way.
use vstd::prelude::*;

use crate::daemon::codec;
use crate::daemon::codec::{ControlSnapshot, SnapshotView};
use crate::daemon::directory;
use crate::daemon::directory::{Directory, DirectoryView};
use crate::daemon::state;
use crate::daemon::state::{
    split_catalog, Applied, AppliedView, Command, CommandView, ControlState, ControlView, Executor,
    FileRec, FileRecView, SummaryView,
};
use crate::daemon::tape_state;
use crate::strmap::Dup;
use crate::text;

verus! {

/// What the device thread reports.
#[derive(Debug)]
pub enum ExecEvent {
    Fenced { round: u64 },
    FenceFailed { round: u64, reason: String },
    Serving { round: u64, summary: String },
    /// A tape's state has changed.
    TapeState { round: u64, barcode: String, state: String },
    /// A commit is on tape, or the complete list of a tape was read.
    Committed {
        round: u64,
        barcode: String,
        volume_uuid: String,
        generation: u64,
        files_total: u64,
        /// Bytes of the live files.
        bytes_used: u64,
        /// Bytes written on the tape, 0 where they cannot be read.
        bytes_written: u64,
        files: Vec<FileRec>,
        full: bool,
    },
    /// The thread has lost its right to the devices and has stopped.
    Lost { round: u64, reason: String },
    /// A tape's contents are on other tapes and it has been formatted.
    Reclaimed { round: u64, barcode: String, volume_uuid: String, files: u64, bytes: u64 },
    /// A reclamation was given up; the tape goes to `state`.
    ReclaimAbandoned { round: u64, barcode: String, reason: String, state: String },
}

#[verifier::ext_equal]
pub enum EventView {
    Fenced { round: u64 },
    FenceFailed { round: u64, reason: Seq<char> },
    Serving { round: u64, summary: Seq<char> },
    TapeState { round: u64, barcode: Seq<char>, state: Seq<char> },
    Committed {
        round: u64,
        barcode: Seq<char>,
        volume_uuid: Seq<char>,
        generation: u64,
        files_total: u64,
        bytes_used: u64,
        bytes_written: u64,
        files: Seq<FileRecView>,
        full: bool,
    },
    Lost { round: u64, reason: Seq<char> },
    Reclaimed { round: u64, barcode: Seq<char>, volume_uuid: Seq<char>, files: u64, bytes: u64 },
    ReclaimAbandoned { round: u64, barcode: Seq<char>, reason: Seq<char>, state: Seq<char> },
}

impl View for ExecEvent {
    type V = EventView;

    open spec fn view(&self) -> EventView {
        match *self {
            ExecEvent::Fenced { round } => EventView::Fenced { round },
            ExecEvent::FenceFailed { round, reason } => {
                EventView::FenceFailed { round, reason: reason@ }
            },
            ExecEvent::Serving { round, summary } => {
                EventView::Serving { round, summary: summary@ }
            },
            ExecEvent::TapeState { round, barcode, state } => {
                EventView::TapeState { round, barcode: barcode@, state: state@ }
            },
            ExecEvent::Committed {
                round,
                barcode,
                volume_uuid,
                generation,
                files_total,
                bytes_used,
                bytes_written,
                files,
                full,
            } => EventView::Committed {
                round,
                barcode: barcode@,
                volume_uuid: volume_uuid@,
                generation,
                files_total,
                bytes_used,
                bytes_written,
                files: state::recs(files@),
                full,
            },
            ExecEvent::Lost { round, reason } => EventView::Lost { round, reason: reason@ },
            ExecEvent::Reclaimed { round, barcode, volume_uuid, files, bytes } => {
                EventView::Reclaimed {
                    round,
                    barcode: barcode@,
                    volume_uuid: volume_uuid@,
                    files,
                    bytes,
                }
            },
            ExecEvent::ReclaimAbandoned { round, barcode, reason, state } => {
                EventView::ReclaimAbandoned {
                    round,
                    barcode: barcode@,
                    reason: reason@,
                    state: state@,
                }
            },
        }
    }
}

/// What a node does.
#[derive(Debug)]
pub enum NodeAction {
    /// Puts a command into the log.
    Propose(Command),
    /// Tells the device thread to fence all devices for a round.
    Takeover { round: u64 },
    /// Tells the device thread to recover the volume and to serve.
    Recover { round: u64 },
    /// Tells the device thread to stop.
    Stop { round: u64, reason: String },
    /// Hands the leadership to another node.
    Yield { to: u64 },
}

#[verifier::ext_equal]
pub enum ActionView {
    Propose(CommandView),
    Takeover { round: u64 },
    Recover { round: u64 },
    Stop { round: u64, reason: Seq<char> },
    Yield { to: u64 },
}

impl View for NodeAction {
    type V = ActionView;

    open spec fn view(&self) -> ActionView {
        match *self {
            NodeAction::Propose(c) => ActionView::Propose(c@),
            NodeAction::Takeover { round } => ActionView::Takeover { round },
            NodeAction::Recover { round } => ActionView::Recover { round },
            NodeAction::Stop { round, reason } => ActionView::Stop { round, reason: reason@ },
            NodeAction::Yield { to } => ActionView::Yield { to },
        }
    }
}

pub open spec fn action_views(v: Seq<NodeAction>) -> Seq<ActionView> {
    v.map_values(|a: NodeAction| a@)
}

/// A node as far as it decides.
#[derive(Debug)]
pub struct NodeState {
    pub id: u64,
    pub peers: Vec<u64>,
    /// Milliseconds of one tick.
    pub tick: u64,
    /// Milliseconds during which a node that failed does not claim execution.
    pub cooldown: u64,
    pub ctl: ControlState,
    /// The last index that was applied.
    pub applied: u64,
    pub has_directory: bool,
    /// A snapshot came in, and the directory that goes with it is to be fetched: from which node,
    /// up to which index.
    pub directory_pending: Option<(u64, u64)>,
    pub fetch_running: bool,
    /// The term in which this node's takeover was applied.
    pub claimed_term: Option<u64>,
    /// The round in which this node executes.
    pub my_round: Option<u64>,
    pub last_yield: Option<u64>,
    /// The term in which a takeover was put into the log.
    pub proposed_term: Option<u64>,
    pub cooldown_until: u64,
    /// What the node says of itself.
    pub local: String,
}

#[verifier::ext_equal]
pub struct NodeView {
    pub id: u64,
    pub peers: Seq<u64>,
    pub tick: u64,
    pub cooldown: u64,
    pub ctl: ControlView,
    pub applied: u64,
    pub has_directory: bool,
    pub directory_pending: Option<(u64, u64)>,
    pub fetch_running: bool,
    pub claimed_term: Option<u64>,
    pub my_round: Option<u64>,
    pub last_yield: Option<u64>,
    pub proposed_term: Option<u64>,
    pub cooldown_until: u64,
    pub local: Seq<char>,
}

impl View for NodeState {
    type V = NodeView;

    open spec fn view(&self) -> NodeView {
        NodeView {
            id: self.id,
            peers: self.peers@,
            tick: self.tick,
            cooldown: self.cooldown,
            ctl: self.ctl@,
            applied: self.applied,
            has_directory: self.has_directory,
            directory_pending: self.directory_pending,
            fetch_running: self.fetch_running,
            claimed_term: self.claimed_term,
            my_round: self.my_round,
            last_yield: self.last_yield,
            proposed_term: self.proposed_term,
            cooldown_until: self.cooldown_until,
            local: self.local@,
        }
    }
}

/// `to` is the least of `peers` that is at least `low` and not `id`.
pub open spec fn least_from(peers: Seq<u64>, id: u64, low: int, to: u64) -> bool {
    &&& peers.contains(to)
    &&& to != id
    &&& to >= low
    &&& forall|p: u64| #[trigger] peers.contains(p) && p != id && p >= low ==> to <= p
}

/// The node that comes next: the one with the next number, or else the first.
pub open spec fn next_node(peers: Seq<u64>, id: u64, to: Option<u64>) -> bool {
    if exists|p: u64| #[trigger] peers.contains(p) && p > id {
        to is Some && least_from(peers, id, id as int, to->0)
    } else if exists|p: u64| #[trigger] peers.contains(p) && p != id {
        to is Some && least_from(peers, id, 0, to->0)
    } else {
        to is None
    }
}

/// The node that comes next.
pub fn yield_target(peers: &Vec<u64>, id: u64) -> (r: Option<u64>)
    ensures
        next_node(peers@, id, r),
{
    let mut above: Option<u64> = None;
    let mut lowest: Option<u64> = None;
    let mut i: usize = 0;
    while i < peers.len()
        invariant
            i <= peers@.len(),
            match above {
                Some(a) => least_from(peers@.take(i as int), id, id as int, a),
                None => forall|p: u64| #[trigger] peers@.take(i as int).contains(p) ==> p <= id,
            },
            match lowest {
                Some(a) => least_from(peers@.take(i as int), id, 0, a),
                None => forall|p: u64| #[trigger] peers@.take(i as int).contains(p) ==> p == id,
            },
        decreases peers@.len() - i,
    {
        let p: u64 = peers[i];
        let ghost was = peers@.take(i as int);
        let ghost now = peers@.take(i + 1);
        proof {
            assert(now =~= was.push(p));
            assert(now[i as int] == p);
            assert forall|q: u64| #[trigger] now.contains(q) == (was.contains(q) || q == p) by {
                if was.contains(q) {
                    let j = choose|j: int| 0 <= j < was.len() && was[j] == q;
                    assert(now[j] == q);
                }
            }
        }
        if p > id {
            above = match above {
                Some(a) => if p < a {
                    Some(p)
                } else {
                    Some(a)
                },
                None => Some(p),
            };
        }
        if p != id {
            lowest = match lowest {
                Some(a) => if p < a {
                    Some(p)
                } else {
                    Some(a)
                },
                None => Some(p),
            };
        }
        i += 1;
    }
    assert(peers@.take(i as int) =~= peers@);
    match above {
        Some(a) => Some(a),
        None => lowest,
    }
}

impl NodeView {
    /// This node executes in `round` and leads.
    pub open spec fn current(self, round: u64, is_leader: bool) -> bool {
        self.my_round == Some(round) && is_leader
    }

    /// The generation that the summary of a tape tells of, 0 where there is none.
    pub open spec fn summary_generation(self, barcode: Seq<char>) -> u64 {
        if self.ctl.tape_summary.contains_key(barcode) {
            self.ctl.tape_summary[barcode].generation
        } else {
            0
        }
    }
}

/// The commands that put a commit into the log: its records in parts, and its summary.
pub open spec fn commit_actions(
    barcode: Seq<char>,
    volume_uuid: Seq<char>,
    generation: u64,
    files_total: u64,
    bytes_used: u64,
    bytes_written: u64,
    files: Seq<FileRecView>,
    full: bool,
) -> Seq<ActionView> {
    let parts = state::catalog_parts(files);
    Seq::new(
        parts.len(),
        |i: int|
            ActionView::Propose(
                CommandView::CatalogPart {
                    barcode,
                    generation,
                    part: i as u32,
                    files: parts[i],
                },
            ),
    ).push(
        ActionView::Propose(
            CommandView::TapeCommitted {
                barcode,
                volume_uuid,
                generation,
                files: files_total,
                bytes_used,
                bytes_written,
                parts: parts.len() as u32,
                full,
            },
        ),
    )
}

/// What a report of the device thread leads to, but for a report that the round is over: the node
/// after it and what it does.
///
/// `listed` is the generation that the directory has of the tape that is reported. A full report
/// brings the directory up to the tape, also where the summary is there already and the directory
/// is not, because a part of the commit was missing. A tape that is older than what is recorded of
/// it is not trusted.
pub open spec fn on_report(v: NodeView, ev: EventView, listed: u64, is_leader: bool) -> (
    NodeView,
    Seq<ActionView>,
) {
    match ev {
        EventView::Fenced { round } => if v.current(round, is_leader) {
            (
                NodeView {
                    local: "轮次 "@ + text::decimal(round as nat)
                        + "：全部设备已隔离，等待多数派确认"@,
                    ..v
                },
                seq![ActionView::Propose(CommandView::Fenced { node: v.id, round })],
            )
        } else {
            (
                v,
                seq![
                    ActionView::Stop {
                        round,
                        reason: "隔离完成时已不是该轮的执行者"@,
                    },
                ],
            )
        },
        EventView::Committed {
            round,
            barcode,
            volume_uuid,
            generation,
            files_total,
            bytes_used,
            bytes_written,
            files,
            full,
        } => {
            if !v.current(round, is_leader) {
                (v, Seq::empty())
            } else if full && (listed > generation || v.summary_generation(barcode) > generation) {
                (
                    v,
                    seq![
                        ActionView::Propose(
                            CommandView::TapeState { barcode, state: tape_state::CHECK@ },
                        ),
                    ],
                )
            } else if full && listed == generation {
                (v, Seq::empty())
            } else {
                (
                    v,
                    commit_actions(
                        barcode,
                        volume_uuid,
                        generation,
                        files_total,
                        bytes_used,
                        bytes_written,
                        files,
                        full,
                    ),
                )
            }
        },
        EventView::Reclaimed { round, barcode, volume_uuid, files, bytes } => (
            v,
            if v.current(round, is_leader) {
                seq![ActionView::Propose(CommandView::TapeReclaimed { barcode, volume_uuid })]
            } else {
                Seq::empty()
            },
        ),
        EventView::TapeState { round, barcode, state } => (
            v,
            if v.current(round, is_leader) {
                seq![ActionView::Propose(CommandView::TapeState { barcode, state })]
            } else {
                Seq::empty()
            },
        ),
        EventView::ReclaimAbandoned { round, barcode, reason, state } => (
            v,
            if v.current(round, is_leader) {
                seq![ActionView::Propose(CommandView::TapeState { barcode, state })]
            } else {
                Seq::empty()
            },
        ),
        EventView::Serving { round, summary } => (
            NodeView {
                local: "轮次 "@ + text::decimal(round as nat) + "：服务中。"@ + summary,
                ..v
            },
            Seq::empty(),
        ),
        _ => (v, Seq::empty()),
    }
}

/// The node after its round is over.
pub open spec fn after_loss(v: NodeView, round: u64, reason: Seq<char>, now: u64) -> NodeView {
    NodeView {
        local: "轮次 "@ + text::decimal(round as nat) + " 已放弃："@ + reason,
        my_round: if v.my_round == Some(round) {
            None
        } else {
            v.my_round
        },
        cooldown_until: (now + v.cooldown) as u64,
        ..v
    }
}

/// What a report of the device thread leads to.
pub open spec fn reported(
    v: NodeView,
    ev: EventView,
    listed: u64,
    is_leader: bool,
    now: u64,
    after: NodeView,
    actions: Seq<ActionView>,
) -> bool {
    match ev {
        EventView::FenceFailed { round, reason } | EventView::Lost { round, reason } => {
            &&& after == after_loss(v, round, reason, now)
            &&& if is_leader {
                exists|to: Option<u64>| #[trigger]
                    next_node(v.peers, v.id, to) && actions == leaving(v.id, round, reason, to)
            } else {
                actions == Seq::<ActionView>::empty()
            }
        },
        _ => (after, actions) == on_report(v, ev, listed, is_leader),
    }
}

/// What a leader does that gives its round up: says so in the log, and hands the leadership on
/// where there is someone.
pub open spec fn leaving(node: u64, round: u64, reason: Seq<char>, to: Option<u64>) -> Seq<
    ActionView,
> {
    let gone = ActionView::Propose(CommandView::Abandoned { node, round, reason });
    match to {
        Some(n) => seq![gone, ActionView::Yield { to: n }],
        None => seq![gone],
    }
}

fn one(a: NodeAction) -> (r: Vec<NodeAction>)
    ensures
        action_views(r@) == seq![a@],
{
    let mut v: Vec<NodeAction> = Vec::new();
    v.push(a);
    assert(action_views(v@) =~= seq![a@]);
    v
}

fn none() -> (r: Vec<NodeAction>)
    ensures
        action_views(r@) == Seq::<ActionView>::empty(),
{
    let v: Vec<NodeAction> = Vec::new();
    assert(action_views(v@) =~= Seq::<ActionView>::empty());
    v
}

impl NodeState {
    fn is_current(&self, round: u64, is_leader: bool) -> (r: bool)
        ensures
            r == self@.current(round, is_leader),
    {
        match self.my_round {
            Some(n) => n == round && is_leader,
            None => false,
        }
    }

    fn generation_of(&self, barcode: &str) -> (r: u64)
        ensures
            r == self@.summary_generation(barcode@),
    {
        match self.ctl.tape_summary.get(barcode) {
            Some(t) => t.generation,
            None => 0,
        }
    }

    fn commit_commands(
        barcode: &str,
        volume_uuid: &str,
        generation: u64,
        files_total: u64,
        bytes_used: u64,
        bytes_written: u64,
        files: &Vec<FileRec>,
        full: bool,
    ) -> (r: Vec<NodeAction>)
        requires
            forall|i: int|
                0 <= i < files@.len() ==> (#[trigger] files@[i])@.cost()
                    + state::CATALOG_PART_BYTES <= usize::MAX,
            state::catalog_parts(state::recs(files@)).len() <= u32::MAX,
        ensures
            action_views(r@) == commit_actions(
                barcode@,
                volume_uuid@,
                generation,
                files_total,
                bytes_used,
                bytes_written,
                state::recs(files@),
                full,
            ),
    {
        let parts = split_catalog(files.as_slice());
        let ghost all = state::catalog_parts(state::recs(files@));
        let ghost want = commit_actions(
            barcode@,
            volume_uuid@,
            generation,
            files_total,
            bytes_used,
            bytes_written,
            state::recs(files@),
            full,
        );
        let mut out: Vec<NodeAction> = Vec::new();
        let mut i: usize = 0;
        assert(parts@.len() == all.len());
        assert(action_views(out@) =~= want.take(0));
        while i < parts.len()
            invariant
                i <= parts@.len(),
                parts@.len() == all.len(),
                parts@.len() <= u32::MAX,
                all == state::catalog_parts(state::recs(files@)),
                state::parts_view(parts@) == all,
                want == commit_actions(
                    barcode@,
                    volume_uuid@,
                    generation,
                    files_total,
                    bytes_used,
                    bytes_written,
                    state::recs(files@),
                    full,
                ),
                action_views(out@) == want.take(i as int),
            decreases parts@.len() - i,
        {
            let mut copy: Vec<FileRec> = Vec::new();
            let mut j: usize = 0;
            let ghost part = state::recs(parts@[i as int]@);
            assert(state::recs(copy@) =~= part.take(0));
            while j < parts[i].len()
                invariant
                    i < parts@.len(),
                    j <= parts@[i as int]@.len(),
                    part == state::recs(parts@[i as int]@),
                    state::recs(copy@) == part.take(j as int),
                decreases parts@[i as int]@.len() - j,
            {
                let ghost was = copy@;
                let f = parts[i][j].dup();
                copy.push(f);
                assert(state::recs(copy@) =~= state::recs(was).push(f@));
                assert(part.take(j + 1) =~= part.take(j as int).push(part[j as int]));
                j += 1;
            }
            assert(part.take(j as int) =~= part);
            assert(all[i as int] == part);
            let ghost was = out@;
            let a = NodeAction::Propose(
                Command::CatalogPart {
                    barcode: barcode.to_owned(),
                    generation,
                    part: i as u32,
                    files: copy,
                },
            );
            out.push(a);
            assert(want[i as int] == a@);
            assert(action_views(out@) =~= action_views(was).push(a@));
            assert(want.take(i + 1) =~= want.take(i as int).push(want[i as int]));
            i += 1;
        }
        let ghost was = out@;
        let a = NodeAction::Propose(
            Command::TapeCommitted {
                barcode: barcode.to_owned(),
                volume_uuid: volume_uuid.to_owned(),
                generation,
                files: files_total,
                bytes_used,
                bytes_written,
                parts: parts.len() as u32,
                full,
            },
        );
        out.push(a);
        assert(action_views(out@) =~= action_views(was).push(a@));
        assert(want =~= want.take(i as int).push(a@));
        out
    }

    fn lose(&mut self, round: u64, reason: &str, is_leader: bool, now: u64) -> (r: Vec<NodeAction>)
        requires
            now + old(self)@.cooldown <= u64::MAX,
        ensures
            final(self)@ == after_loss(old(self)@, round, reason@, now),
            if is_leader {
                exists|to: Option<u64>| #[trigger]
                    next_node(old(self)@.peers, old(self)@.id, to) && action_views(r@) == leaving(
                        old(self)@.id,
                        round,
                        reason@,
                        to,
                    )
            } else {
                action_views(r@) == Seq::<ActionView>::empty()
            },
    {
        self.local = text::cat4(
            "轮次 ",
            text::decimal_text(round).as_str(),
            " 已放弃：",
            reason,
        );
        match self.my_round {
            Some(n) => {
                if n == round {
                    self.my_round = None;
                }
            },
            None => {},
        }
        self.cooldown_until = now + self.cooldown;
        if !is_leader {
            return none();
        }
        let gone = NodeAction::Propose(
            Command::Abandoned { node: self.id, round, reason: reason.to_owned() },
        );
        let to = yield_target(&self.peers, self.id);
        let mut out = one(gone);
        match to {
            Some(n) => {
                let ghost was = out@;
                out.push(NodeAction::Yield { to: n });
                assert(action_views(out@) =~= action_views(was).push(ActionView::Yield { to: n }));
                assert(action_views(out@) =~= leaving(self.id, round, reason@, to));
            },
            None => {},
        }
        assert(next_node(self@.peers, self@.id, to));
        out
    }

    /// Takes a report of the device thread. `listed` is the generation that the directory has of
    /// the tape that is reported, 0 where it has none.
    pub fn on_exec(&mut self, ev: &ExecEvent, listed: u64, is_leader: bool, now: u64) -> (r: Vec<
        NodeAction,
    >)
        requires
            now + old(self)@.cooldown <= u64::MAX,
            ev matches ExecEvent::Committed { files, .. } ==> {
                &&& forall|i: int|
                    0 <= i < files@.len() ==> (#[trigger] files@[i])@.cost()
                        + state::CATALOG_PART_BYTES <= usize::MAX
                &&& state::catalog_parts(state::recs(files@)).len() <= u32::MAX
            },
        ensures
            reported(
                old(self)@,
                ev@,
                listed,
                is_leader,
                now,
                final(self)@,
                action_views(r@),
            ),
    {
        match ev {
            ExecEvent::Fenced { round } => {
                if self.is_current(*round, is_leader) {
                    self.local = text::cat3(
                        "轮次 ",
                        text::decimal_text(*round).as_str(),
                        "：全部设备已隔离，等待多数派确认",
                    );
                    one(NodeAction::Propose(Command::Fenced { node: self.id, round: *round }))
                } else {
                    one(
                        NodeAction::Stop {
                            round: *round,
                            reason: "隔离完成时已不是该轮的执行者".to_owned(),
                        },
                    )
                }
            },
            ExecEvent::Committed {
                round,
                barcode,
                volume_uuid,
                generation,
                files_total,
                bytes_used,
                bytes_written,
                files,
                full,
            } => {
                let summary: u64 = self.generation_of(barcode.as_str());
                if !self.is_current(*round, is_leader) {
                    none()
                } else if *full && (listed > *generation || summary > *generation) {
                    one(
                        NodeAction::Propose(
                            Command::TapeState {
                                barcode: barcode.clone(),
                                state: tape_state::CHECK.to_owned(),
                            },
                        ),
                    )
                } else if *full && listed == *generation {
                    none()
                } else {
                    Self::commit_commands(
                        barcode.as_str(),
                        volume_uuid.as_str(),
                        *generation,
                        *files_total,
                        *bytes_used,
                        *bytes_written,
                        files,
                        *full,
                    )
                }
            },
            ExecEvent::Reclaimed { round, barcode, volume_uuid, .. } => {
                if self.is_current(*round, is_leader) {
                    one(
                        NodeAction::Propose(
                            Command::TapeReclaimed {
                                barcode: barcode.clone(),
                                volume_uuid: volume_uuid.clone(),
                            },
                        ),
                    )
                } else {
                    none()
                }
            },
            ExecEvent::TapeState { round, barcode, state } => {
                if self.is_current(*round, is_leader) {
                    one(
                        NodeAction::Propose(
                            Command::TapeState { barcode: barcode.clone(), state: state.clone() },
                        ),
                    )
                } else {
                    none()
                }
            },
            ExecEvent::ReclaimAbandoned { round, barcode, reason: _, state } => {
                if self.is_current(*round, is_leader) {
                    one(
                        NodeAction::Propose(
                            Command::TapeState { barcode: barcode.clone(), state: state.clone() },
                        ),
                    )
                } else {
                    none()
                }
            },
            ExecEvent::Serving { round, summary } => {
                self.local = text::cat4(
                    "轮次 ",
                    text::decimal_text(*round).as_str(),
                    "：服务中。",
                    summary.as_str(),
                );
                none()
            },
            ExecEvent::FenceFailed { round, reason } => self.lose(
                *round,
                reason.as_str(),
                is_leader,
                now,
            ),
            ExecEvent::Lost { round, reason } => self.lose(*round, reason.as_str(), is_leader, now),
        }
    }
}

impl NodeView {
    /// A node that may not claim execution now: it failed lately, or its directory is not in yet.
    pub open spec fn holds_back(self, now: u64) -> bool {
        now < self.cooldown_until || self.directory_pending is Some
    }

    /// Enough time has gone since the leadership was last offered.
    pub open spec fn may_yield(self, now: u64) -> bool {
        self.last_yield is None || now - self.last_yield->0 > 5 * self.tick
    }

    /// The node once it is no leader: it executes no more.
    pub open spec fn without_lead(self) -> NodeView {
        NodeView {
            proposed_term: None,
            my_round: None,
            local: if self.my_round is Some {
                "已停手：不再是 Leader"@
            } else {
                self.local
            },
            ..self
        }
    }
}

/// What a node does in every cycle. A leader claims execution once in a term, or gives way where
/// it has to hold back; who does not lead stops.
pub open spec fn cycled(
    v: NodeView,
    is_leader: bool,
    term: u64,
    now: u64,
    after: NodeView,
    actions: Seq<ActionView>,
) -> bool {
    if !is_leader {
        &&& after == v.without_lead()
        &&& actions == (match v.my_round {
            Some(r) => seq![ActionView::Stop { round: r, reason: "不再是 Leader"@ }],
            None => Seq::empty(),
        })
    } else if v.claimed_term == Some(term) {
        after == v && actions == Seq::<ActionView>::empty()
    } else if v.holds_back(now) {
        if v.may_yield(now) {
            &&& after == (NodeView { last_yield: Some(now), ..v })
            &&& exists|to: Option<u64>| #[trigger]
                next_node(v.peers, v.id, to) && actions == (match to {
                    Some(n) => seq![ActionView::Yield { to: n }],
                    None => Seq::empty(),
                })
        } else {
            after == v && actions == Seq::<ActionView>::empty()
        }
    } else {
        &&& after == v
        &&& actions == (if v.proposed_term != Some(term) {
            seq![ActionView::Propose(CommandView::Takeover { node: v.id, term })]
        } else {
            Seq::empty()
        })
    }
}

/// What a command that was committed leads to: the node after it, what came of it, and what the
/// node does.
pub open spec fn committed(
    v: NodeView,
    index: u64,
    cmd: CommandView,
    is_leader: bool,
    term: u64,
) -> (NodeView, AppliedView, Seq<ActionView>) {
    let (ctl, out) = v.ctl.applied(index, cmd);
    let w = NodeView { ctl, ..v };
    match out {
        AppliedView::NewExecutor(e) => if e.node == v.id && is_leader && e.term == term {
            (
                NodeView {
                    claimed_term: Some(term),
                    my_round: Some(e.round),
                    local: "轮次 "@ + text::decimal(e.round as nat) + "：正在隔离设备"@,
                    ..w
                },
                out,
                seq![ActionView::Takeover { round: e.round }],
            )
        } else {
            match v.my_round {
                Some(r) => (
                    NodeView {
                        my_round: None,
                        local: "已停手：被节点 "@ + text::decimal(e.node as nat)
                            + " 轮次 "@ + text::decimal(e.round as nat) + " 取代"@,
                        ..w
                    },
                    out,
                    seq![
                        ActionView::Stop {
                            round: r,
                            reason: "被轮次 "@ + text::decimal(e.round as nat) + " 取代"@,
                        },
                    ],
                ),
                None => (w, out, Seq::empty()),
            }
        },
        AppliedView::FenceConfirmed(e) => if e.node == v.id && v.current(e.round, is_leader) {
            (
                NodeView {
                    local: "轮次 "@ + text::decimal(e.round as nat)
                        + "：隔离已获多数派确认，正在恢复卷"@,
                    ..w
                },
                out,
                seq![ActionView::Recover { round: e.round }],
            )
        } else {
            (w, out, Seq::empty())
        },
        AppliedView::FenceSuperseded { node, round } => if node == v.id {
            (
                NodeView {
                    my_round: if v.my_round == Some(round) {
                        None
                    } else {
                        v.my_round
                    },
                    ..w
                },
                out,
                seq![ActionView::Stop { round, reason: "本轮在确认前已被取代"@ }],
            )
        } else {
            (w, out, Seq::empty())
        },
        _ => (w, out, Seq::empty()),
    }
}

/// What a snapshot from another node leads to.
pub open spec fn snapshot_taken(v: NodeView, index: u64, s: SnapshotView) -> (
    NodeView,
    Seq<ActionView>,
) {
    let w = NodeView { ctl: s.control, applied: index, my_round: None, ..v };
    (
        if v.has_directory && s.directory_index > 0 {
            NodeView {
                directory_pending: Some((s.source, s.directory_index)),
                local: "正在从节点 "@ + text::decimal(s.source as nat)
                    + " 同步目录库（到索引 "@ + text::decimal(
                    s.directory_index as nat,
                ) + "）"@,
                ..w
            }
        } else {
            w
        },
        match v.my_round {
            Some(r) => seq![ActionView::Stop { round: r, reason: "被快照取代"@ }],
            None => Seq::empty(),
        },
    )
}

impl NodeState {
    fn yield_now(&self) -> (r: Vec<NodeAction>)
        ensures
            exists|to: Option<u64>| #[trigger]
                next_node(self@.peers, self@.id, to) && action_views(r@) == (match to {
                    Some(n) => seq![ActionView::Yield { to: n }],
                    None => Seq::empty(),
                }),
    {
        let to = yield_target(&self.peers, self.id);
        assert(next_node(self@.peers, self@.id, to));
        match to {
            Some(n) => one(NodeAction::Yield { to: n }),
            None => none(),
        }
    }

    /// What is done in every cycle. Where a takeover is put into the log, `takeover_sent` says
    /// so.
    pub fn on_cycle(&mut self, is_leader: bool, term: u64, now: u64) -> (r: Vec<NodeAction>)
        ensures
            cycled(old(self)@, is_leader, term, now, final(self)@, action_views(r@)),
    {
        if !is_leader {
            self.proposed_term = None;
            return match self.my_round {
                Some(round) => {
                    self.my_round = None;
                    self.local = "已停手：不再是 Leader".to_owned();
                    one(NodeAction::Stop { round, reason: "不再是 Leader".to_owned() })
                },
                None => none(),
            };
        }
        let claimed = match self.claimed_term {
            Some(t) => t == term,
            None => false,
        };
        if claimed {
            return none();
        }
        if now < self.cooldown_until || self.directory_pending.is_some() {
            let rested = match self.last_yield {
                Some(t) => now >= t && (now - t) as u128 > 5 * (self.tick as u128),
                None => true,
            };
            if rested {
                self.last_yield = Some(now);
                return self.yield_now();
            }
            return none();
        }
        let proposed = match self.proposed_term {
            Some(t) => t == term,
            None => false,
        };
        if proposed {
            none()
        } else {
            one(NodeAction::Propose(Command::Takeover { node: self.id, term }))
        }
    }

    /// The takeover of this term is in the log; there is no second one.
    pub fn takeover_sent(&mut self, term: u64)
        ensures
            final(self)@ == (NodeView { proposed_term: Some(term), ..old(self)@ }),
    {
        self.proposed_term = Some(term);
    }

    /// An entry of the log is committed, whatever it holds.
    pub fn advance(&mut self, index: u64)
        ensures
            final(self)@ == (NodeView {
                applied: if index > old(self)@.applied {
                    index
                } else {
                    old(self)@.applied
                },
                ..old(self)@
            }),
    {
        if index > self.applied {
            self.applied = index;
        }
    }

    /// Applies a command that was committed.
    pub fn on_committed(&mut self, index: u64, cmd: &Command, is_leader: bool, term: u64) -> (r: (
        Applied,
        Vec<NodeAction>,
    ))
        ensures
            (final(self)@, r.0@, action_views(r.1@)) == committed(
                old(self)@,
                index,
                cmd@,
                is_leader,
                term,
            ),
    {
        let out = self.ctl.apply(index, cmd);
        let actions = match &out {
            Applied::NewExecutor(e) => {
                if e.node == self.id && is_leader && e.term == term {
                    self.claimed_term = Some(term);
                    self.my_round = Some(e.round);
                    self.local = text::cat3(
                        "轮次 ",
                        text::decimal_text(e.round).as_str(),
                        "：正在隔离设备",
                    );
                    one(NodeAction::Takeover { round: e.round })
                } else {
                    match self.my_round {
                        Some(round) => {
                            self.my_round = None;
                            let mut local = text::cat4(
                                "已停手：被节点 ",
                                text::decimal_text(e.node).as_str(),
                                " 轮次 ",
                                text::decimal_text(e.round).as_str(),
                            );
                            local.push_str(" 取代");
                            self.local = local;
                            one(
                                NodeAction::Stop {
                                    round,
                                    reason: text::cat3(
                                        "被轮次 ",
                                        text::decimal_text(e.round).as_str(),
                                        " 取代",
                                    ),
                                },
                            )
                        },
                        None => none(),
                    }
                }
            },
            Applied::FenceConfirmed(e) => {
                if e.node == self.id && self.is_current(e.round, is_leader) {
                    self.local = text::cat3(
                        "轮次 ",
                        text::decimal_text(e.round).as_str(),
                        "：隔离已获多数派确认，正在恢复卷",
                    );
                    one(NodeAction::Recover { round: e.round })
                } else {
                    none()
                }
            },
            Applied::FenceSuperseded { node, round } => {
                if *node == self.id {
                    match self.my_round {
                        Some(n) => {
                            if n == *round {
                                self.my_round = None;
                            }
                        },
                        None => {},
                    }
                    one(
                        NodeAction::Stop {
                            round: *round,
                            reason: "本轮在确认前已被取代".to_owned(),
                        },
                    )
                } else {
                    none()
                }
            },
            _ => none(),
        };
        (out, actions)
    }

    /// Takes the control state of another node's snapshot.
    pub fn on_snapshot(&mut self, index: u64, s: ControlSnapshot) -> (r: Vec<NodeAction>)
        ensures
            (final(self)@, action_views(r@)) == snapshot_taken(old(self)@, index, s@),
    {
        self.ctl = s.control;
        self.applied = index;
        let actions = match self.my_round {
            Some(round) => one(NodeAction::Stop { round, reason: "被快照取代".to_owned() }),
            None => none(),
        };
        self.my_round = None;
        if self.has_directory && s.directory_index > 0 {
            self.directory_pending = Some((s.source, s.directory_index));
            let mut local = text::cat4(
                "正在从节点 ",
                text::decimal_text(s.source).as_str(),
                " 同步目录库（到索引 ",
                text::decimal_text(s.directory_index).as_str(),
            );
            local.push_str("）");
            self.local = local;
        }
        actions
    }

    /// The directory that is to be fetched now: from which node, up to which index. One is
    /// fetched at a time.
    pub fn begin_fetch(&mut self) -> (r: Option<(u64, u64)>)
        ensures
            r == (if old(self)@.fetch_running {
                None
            } else {
                old(self)@.directory_pending
            }),
            final(self)@ == (NodeView {
                fetch_running: old(self)@.fetch_running || r is Some,
                ..old(self)@
            }),
    {
        if self.fetch_running {
            return None;
        }
        if self.directory_pending.is_some() {
            self.fetch_running = true;
        }
        self.directory_pending
    }

    /// The directory has been fetched and is in place.
    pub fn directory_installed(&mut self)
        ensures
            final(self)@ == (NodeView {
                fetch_running: false,
                directory_pending: None,
                local: "目录库已同步到索引 "@ + text::decimal(
                    old(self)@.applied as nat,
                ),
                ..old(self)@
            }),
    {
        self.fetch_running = false;
        self.directory_pending = None;
        self.local = text::cat2(
            "目录库已同步到索引 ",
            text::decimal_text(self.applied).as_str(),
        );
    }

    /// Fetching the directory failed, or putting it in place did; it is tried again.
    pub fn directory_failed(&mut self, fetched: bool, why: &str)
        ensures
            final(self)@ == (NodeView {
                fetch_running: false,
                local: (if fetched {
                    "装入目录库失败: "@
                } else {
                    "拉取目录库失败: "@
                }) + why@,
                ..old(self)@
            }),
    {
        self.fetch_running = false;
        self.local = if fetched {
            text::cat2("装入目录库失败: ", why)
        } else {
            text::cat2("拉取目录库失败: ", why)
        };
    }

    /// Whether a snapshot is made now: one is due, or another node waits for one that this node
    /// can make. None is made while the directory is not in.
    pub fn makes_snapshot(&self, due: bool, wanted: Option<u64>, snapshot_index: u64) -> (r: bool)
        ensures
            r == ((due || (wanted is Some && self@.applied >= wanted->0)) && self@.applied
                > snapshot_index && self@.directory_pending is None),
    {
        let asked = match wanted {
            Some(w) => self.applied >= w,
            None => false,
        };
        (due || asked) && self.applied > snapshot_index && self.directory_pending.is_none()
    }
}

/// Where a snapshot is made, and up to where the directory goes that belongs to it. It never goes
/// beyond the directory: what the snapshot covers does not come through the log again.
pub open spec fn snapshot_at(applied: u64, directory: Option<u64>, snapshot_index: u64) -> Option<
    (u64, u64),
> {
    match directory {
        None => Some((applied, 0)),
        Some(d) => {
            let at = if d < applied {
                d
            } else {
                applied
            };
            if at <= snapshot_index {
                None
            } else {
                Some((at, d))
            }
        },
    }
}

/// Where a snapshot is made, and up to where the directory goes that belongs to it.
pub fn snapshot_point(applied: u64, directory: Option<u64>, snapshot_index: u64) -> (r: Option<
    (u64, u64),
>)
    ensures
        r == snapshot_at(applied, directory, snapshot_index),
{
    match directory {
        None => Some((applied, 0)),
        Some(d) => {
            let at: u64 = if d < applied {
                d
            } else {
                applied
            };
            if at <= snapshot_index {
                None
            } else {
                Some((at, d))
            }
        },
    }
}

/// A snapshot never covers a command that the directory beside it does not hold.
pub proof fn law_snapshot_is_within_the_directory(applied: u64, d: u64, snapshot_index: u64)
    ensures
        snapshot_at(applied, Some(d), snapshot_index) matches Some((at, upto)) ==> at <= upto && at
            <= applied && at > snapshot_index,
{
}

/// An entry of the log with data.
#[derive(Debug)]
pub struct LogEntry {
    pub index: u64,
    pub data: Vec<u8>,
}

/// The control state and the directory after the commands of `v`; what is no command is passed
/// over. None where the directory cannot take one.
pub open spec fn replayed(c: ControlView, d: DirectoryView, v: Seq<LogEntry>) -> Option<
    (ControlView, DirectoryView),
>
    decreases v.len(),
{
    if v.len() == 0 {
        Some((c, d))
    } else {
        match replayed(c, d, v.drop_last()) {
            None => None,
            Some((c1, d1)) => match codec::decoded_command(v.last().data@) {
                None => Some((c1, d1)),
                Some(cmd) => {
                    let (c2, out) = c1.applied(v.last().index, cmd);
                    match d1.applied(v.last().index, cmd, out) {
                        Some(d2) => Some((c2, d2)),
                        None => None,
                    }
                },
            },
        }
    }
}

proof fn lemma_replayed_prefix(c: ControlView, d: DirectoryView, v: Seq<LogEntry>, i: int)
    requires
        0 <= i <= v.len(),
        replayed(c, d, v.take(i)) is None,
    ensures
        replayed(c, d, v) is None,
    decreases v.len() - i,
{
    if i < v.len() {
        assert(v.take(i + 1).drop_last() =~= v.take(i));
        lemma_replayed_prefix(c, d, v, i + 1);
    } else {
        assert(v.take(i) =~= v);
    }
}

/// Brings a directory that was fetched up to date with the commands that came since. What follows
/// from each is reckoned on `base`, the control state before the first of them.
pub fn replay_into(base: &ControlState, entries: &Vec<LogEntry>, directory: &mut Directory) -> (r:
    Result<ControlState, String>)
    ensures
        match replayed(base@, old(directory)@, entries@) {
            Some((c, d)) => r is Ok && r->Ok_0@ == c && final(directory)@ == d,
            None => r is Err,
        },
{
    let mut shadow = base.dup();
    let mut i: usize = 0;
    let ghost d0 = directory@;
    assert(entries@.take(0) =~= Seq::<LogEntry>::empty());
    while i < entries.len()
        invariant
            i <= entries@.len(),
            d0 == old(directory)@,
            replayed(base@, d0, entries@.take(i as int)) == Some((shadow@, directory@)),
        decreases entries@.len() - i,
    {
        assert(entries@.take(i + 1).drop_last() =~= entries@.take(i as int));
        let e = &entries[i];
        match Command::decode(e.data.as_slice()) {
            Some(cmd) => {
                let out = shadow.apply(e.index, &cmd);
                match directory.apply(e.index, &cmd, &out) {
                    Ok(_) => {},
                    Err(why) => {
                        proof {
                            lemma_replayed_prefix(base@, d0, entries@, i + 1);
                        }
                        return Err(why);
                    },
                }
            },
            None => {},
        }
        i += 1;
    }
    assert(entries@.take(i as int) =~= entries@);
    Ok(shadow)
}

/// A directory that is in step with the control state at its base stays so through a replay, and
/// the replay does not fail.
pub proof fn law_replay_brings_the_directory_up_to_date(
    c: ControlView,
    d: DirectoryView,
    v: Seq<LogEntry>,
)
    requires
        directory::in_step(d, c),
        forall|i: int| 0 <= i < v.len() ==> d.applied < (#[trigger] v[i]).index,
        forall|i: int, j: int|
            0 <= i < j < v.len() ==> (#[trigger] v[i]).index < (#[trigger] v[j]).index,
    ensures
        replayed(c, d, v) is Some,
        ({
            let (c2, d2) = replayed(c, d, v)->0;
            &&& directory::in_step(d2, c2)
            &&& v.len() > 0 ==> d2.applied <= v.last().index
            &&& v.len() == 0 ==> d2.applied == d.applied
        }),
    decreases v.len(),
{
    if v.len() > 0 {
        let prev = v.drop_last();
        assert forall|i: int| 0 <= i < prev.len() implies d.applied < (#[trigger] prev[i]).index by {
            assert(v[i] == prev[i]);
        }
        assert forall|i: int, j: int| 0 <= i < j < prev.len() implies (#[trigger] prev[i]).index < (
        #[trigger] prev[j]).index by {
            assert(v[i] == prev[i] && v[j] == prev[j]);
        }
        law_replay_brings_the_directory_up_to_date(c, d, prev);
        let (c1, d1) = replayed(c, d, prev)->0;
        assert(d1.applied < v.last().index) by {
            assert(v[v.len() - 1] == v.last());
            if prev.len() > 0 {
                assert(prev.last() == v[v.len() - 2]);
            }
        }
        match codec::decoded_command(v.last().data@) {
            Some(cmd) => {
                directory::law_directory_keeps_step(d1, c1, v.last().index, cmd);
            },
            None => {},
        }
    }
}

/// What whoever sent a command is told.
#[derive(Debug, Clone, PartialEq, Eq)]
pub enum AdminReply {
    Done(String),
    /// Refused; nothing has changed.
    Rejected(String),
    /// This node does not lead; the node that it knows to.
    NotLeader(u64),
}

#[verifier::ext_equal]
pub enum AdminReplyView {
    Done(Seq<char>),
    Rejected(Seq<char>),
    NotLeader(u64),
}

impl View for AdminReply {
    type V = AdminReplyView;

    open spec fn view(&self) -> AdminReplyView {
        match *self {
            AdminReply::Done(s) => AdminReplyView::Done(s@),
            AdminReply::Rejected(s) => AdminReplyView::Rejected(s@),
            AdminReply::NotLeader(n) => AdminReplyView::NotLeader(n),
        }
    }
}

/// What whoever sent a command is told of what came of it.
pub fn admin_reply(out: &Applied) -> (r: AdminReply)
    ensures
        r@ == (match out@ {
            AppliedView::Admin(Ok(s)) => AdminReplyView::Done(s),
            AppliedView::Admin(Err(e)) => AdminReplyView::Rejected(e),
            _ => AdminReplyView::Done("已应用"@),
        }),
{
    match out {
        Applied::Admin(Ok(s)) => AdminReply::Done(s.clone()),
        Applied::Admin(Err(e)) => AdminReply::Rejected(e.clone()),
        _ => AdminReply::Done("已应用".to_owned()),
    }
}

/// A leader puts one takeover into the log in a term: once it is there, no cycle adds another.
pub proof fn law_one_takeover_in_a_term(
    v: NodeView,
    term: u64,
    now: u64,
    after: NodeView,
    actions: Seq<ActionView>,
)
    requires
        v.proposed_term == Some(term),
        cycled(v, true, term, now, after, actions),
    ensures
        forall|i: int| 0 <= i < actions.len() ==> !((#[trigger] actions[i]) is Propose),
{
    if v.claimed_term != Some(term) && v.holds_back(now) && v.may_yield(now) {
        let to = choose|to: Option<u64>| #[trigger]
            next_node(v.peers, v.id, to) && actions == (match to {
                Some(n) => seq![ActionView::Yield { to: n }],
                None => Seq::empty(),
            });
        assert(next_node(v.peers, v.id, to));
    }
}

/// A node that holds back, after a failure or without its directory, claims nothing.
pub proof fn law_no_claim_while_holding_back(
    v: NodeView,
    is_leader: bool,
    term: u64,
    now: u64,
    after: NodeView,
    actions: Seq<ActionView>,
)
    requires
        v.holds_back(now),
        cycled(v, is_leader, term, now, after, actions),
    ensures
        forall|i: int| 0 <= i < actions.len() ==> !((#[trigger] actions[i]) is Propose),
{
    if is_leader && v.claimed_term != Some(term) && v.may_yield(now) {
        let to = choose|to: Option<u64>| #[trigger]
            next_node(v.peers, v.id, to) && actions == (match to {
                Some(n) => seq![ActionView::Yield { to: n }],
                None => Seq::empty(),
            });
        assert(next_node(v.peers, v.id, to));
    }
}

/// Who does not lead does not execute: the first cycle after the loss stops the device thread.
pub proof fn law_only_the_leader_executes(
    v: NodeView,
    term: u64,
    now: u64,
    after: NodeView,
    actions: Seq<ActionView>,
)
    requires
        cycled(v, false, term, now, after, actions),
    ensures
        after.my_round is None,
        v.my_round is Some ==> actions.len() == 1 && actions[0] is Stop && actions[0]->Stop_round
            == v.my_round->0,
{
}

/// A takeover by another node, once it is applied, stops an executor.
pub proof fn law_superseded_executor_stops(
    v: NodeView,
    index: u64,
    cmd: CommandView,
    is_leader: bool,
    term: u64,
    e: Executor,
)
    requires
        v.ctl.applied(index, cmd).1 == AppliedView::NewExecutor(e),
        e.node != v.id,
    ensures
        committed(v, index, cmd, is_leader, term).0.my_round is None,
        v.my_round is Some ==> ({
            let actions = committed(v, index, cmd, is_leader, term).2;
            actions.len() == 1 && actions[0] is Stop && actions[0]->Stop_round == v.my_round->0
        }),
{
}

/// A node tells its device thread to recover the volume only once it is confirmed, as the newest
/// executor, that all devices are fenced for its round.
pub proof fn law_recovery_waits_for_the_fence(
    v: NodeView,
    index: u64,
    cmd: CommandView,
    is_leader: bool,
    term: u64,
    round: u64,
)
    requires
        committed(v, index, cmd, is_leader, term).2.contains(ActionView::Recover { round }),
    ensures
        ({
            let e = committed(v, index, cmd, is_leader, term).0.ctl.executor;
            e is Some && e->0.node == v.id && e->0.round == round && e->0.fenced
        }),
        v.my_round == Some(round),
        is_leader,
{
    let actions = committed(v, index, cmd, is_leader, term).2;
    let i = choose|i: int| 0 <= i < actions.len() && actions[i] == (ActionView::Recover { round });
    assert(i == 0);
}

/// A fence that comes too late, when the node no longer executes in that round, does not reach the
/// log: the device thread is told to stop.
pub proof fn law_stale_fence_is_not_reported(v: NodeView, round: u64, listed: u64, is_leader: bool)
    requires
        v.my_round != Some(round) || !is_leader,
    ensures
        on_report(v, EventView::Fenced { round }, listed, is_leader).1 == seq![
            ActionView::Stop {
                round,
                reason: "隔离完成时已不是该轮的执行者"@,
            },
        ],
{
}

/// A commit that lost a part is made good. It left the directory where it was, while the summary
/// of its generation stands. When the executor next reports all that the tape holds in that
/// generation, the leader logs every record anew, in parts that hold them all in order, and after
/// them a commit of that generation with the full list.
pub proof fn law_incomplete_commit_is_made_good(
    v: NodeView,
    d: DirectoryView,
    lost: SummaryView,
    parts: u32,
    was_full: bool,
    ev: EventView,
)
    requires
        ev matches EventView::Committed { round, barcode, generation, full, .. } && {
            &&& v.current(round, true)
            &&& full
            &&& generation == lost.generation
            &&& d.listed(barcode) < generation
            &&& v.summary_generation(barcode) == generation
            &&& directory::parts_of(d.staging, barcode, generation).len() != parts
        },
    ensures
        ({
            let barcode = ev->Committed_barcode;
            let files = ev->Committed_files;
            let listed = d.committed(barcode, lost, parts, was_full).listed(barcode);
            let r = on_report(v, ev, listed, true);
            let n = state::catalog_parts(files).len();
            &&& r.0 == v
            &&& r.1.len() == n + 1
            &&& state::joined(state::catalog_parts(files)) == files
            &&& forall|i: int|
                0 <= i < n ==> #[trigger] r.1[i] == ActionView::Propose(
                    CommandView::CatalogPart {
                        barcode,
                        generation: lost.generation,
                        part: i as u32,
                        files: state::catalog_parts(files)[i],
                    },
                )
            &&& r.1[n as int] == ActionView::Propose(
                CommandView::TapeCommitted {
                    barcode,
                    volume_uuid: ev->Committed_volume_uuid,
                    generation: lost.generation,
                    files: ev->Committed_files_total,
                    bytes_used: ev->Committed_bytes_used,
                    bytes_written: ev->Committed_bytes_written,
                    parts: n as u32,
                    full: true,
                },
            )
        }),
{
    state::law_parts_are_the_records(ev->Committed_files);
    directory::law_incomplete_commit_is_dropped(d, ev->Committed_barcode, lost, parts, was_full);
}

/// What is proposed for a report can be logged, where its records can.
pub proof fn law_reports_can_be_logged(
    v: NodeView,
    ev: EventView,
    listed: u64,
    is_leader: bool,
    i: int,
)
    requires
        ev matches EventView::Committed { files, .. } ==> codec::all_loggable(files),
        0 <= i < on_report(v, ev, listed, is_leader).1.len(),
    ensures
        on_report(v, ev, listed, is_leader).1[i] matches ActionView::Propose(c)
            ==> codec::encodable(c),
{
    match ev {
        EventView::Committed { files, .. } => {
            codec::lemma_parts_loggable(files);
        },
        _ => {},
    }
}

} // verus!
