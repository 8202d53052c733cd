//! Writing one batch to tape: the volume is mounted, each change is planned and carried out with a
//! version of its own, all of them are committed together, and only then is the batch published
//! and reported.
use vstd::prelude::*;

use crate::daemon::batch;
use crate::daemon::batch::{batch_report, plan_change, OpView, VolumeOp};
use crate::daemon::files;
use crate::daemon::files::{FileService, ServiceView, Stat, StatView, Upload, UploadView};
use crate::daemon::node::{EventView, ExecEvent};
use crate::daemon::opening;
use crate::daemon::state;
use crate::daemon::state::{FileRec, FileRecView};
use crate::error::{TapeError, TapeErrorView};
use crate::strmap::{Dup, StrMap, StrSet};
use crate::text;

verus! {

/// What the writing of a batch does next.
#[derive(Debug)]
pub enum BatchStep {
    /// The volume is mounted, guarded by the reservation.
    Mount,
    /// The rows of the directory at the path of the next change and above it are looked up, and
    /// the records of the volume are listed.
    Look { path: String },
    /// This is done on the volume, in this order.
    Apply(Vec<VolumeOp>),
    /// The changes are committed.
    Commit,
    /// The batch is published with these records.
    Publish { generation: u64, records: StrMap<FileRec> },
    /// What became of the batch is open.
    LeaveOpen { reason: String },
    Report(ExecEvent),
    /// The round is over.
    EndRound { reason: String },
}

#[verifier::ext_equal]
pub enum BatchStepView {
    Mount,
    Look { path: Seq<char> },
    Apply(Seq<OpView>),
    Commit,
    Publish { generation: u64, records: Map<Seq<char>, FileRecView> },
    LeaveOpen { reason: Seq<char> },
    Report(EventView),
    EndRound { reason: Seq<char> },
}

impl View for BatchStep {
    type V = BatchStepView;

    open spec fn view(&self) -> BatchStepView {
        match *self {
            BatchStep::Mount => BatchStepView::Mount,
            BatchStep::Look { path } => BatchStepView::Look { path: path@ },
            BatchStep::Apply(ops) => BatchStepView::Apply(batch::op_views(ops@)),
            BatchStep::Commit => BatchStepView::Commit,
            BatchStep::Publish { generation, records } => {
                BatchStepView::Publish { generation, records: records@ }
            },
            BatchStep::LeaveOpen { reason } => BatchStepView::LeaveOpen { reason: reason@ },
            BatchStep::Report(e) => BatchStepView::Report(e@),
            BatchStep::EndRound { reason } => BatchStepView::EndRound { reason: reason@ },
        }
    }
}

pub open spec fn step_views(v: Seq<BatchStep>) -> Seq<BatchStepView> {
    v.map_values(|s: BatchStep| s@)
}

/// What came of a step.
#[derive(Debug)]
pub enum BatchEvent {
    Mounted,
    /// What the directory has, and what the volume holds at this moment.
    Seen { rows: StrMap<Stat>, catalog: Vec<FileRec> },
    /// All operations of a change are done.
    Applied,
    /// The commit is on tape.
    Committed {
        barcode: String,
        volume_uuid: String,
        generation: u64,
        /// All records of the volume.
        catalog: Vec<FileRec>,
        bytes_used: u64,
        bytes_written: u64,
    },
    Failed(TapeError),
}

#[verifier::ext_equal]
pub enum BatchEventView {
    Mounted,
    Seen { rows: Map<Seq<char>, StatView>, catalog: Seq<FileRecView> },
    Applied,
    Committed {
        barcode: Seq<char>,
        volume_uuid: Seq<char>,
        generation: u64,
        catalog: Seq<FileRecView>,
        bytes_used: u64,
        bytes_written: u64,
    },
    Failed(TapeErrorView),
}

impl View for BatchEvent {
    type V = BatchEventView;

    open spec fn view(&self) -> BatchEventView {
        match *self {
            BatchEvent::Mounted => BatchEventView::Mounted,
            BatchEvent::Seen { rows, catalog } => {
                BatchEventView::Seen { rows: rows@, catalog: state::recs(catalog@) }
            },
            BatchEvent::Applied => BatchEventView::Applied,
            BatchEvent::Committed {
                barcode,
                volume_uuid,
                generation,
                catalog,
                bytes_used,
                bytes_written,
            } => BatchEventView::Committed {
                barcode: barcode@,
                volume_uuid: volume_uuid@,
                generation,
                catalog: state::recs(catalog@),
                bytes_used,
                bytes_written,
            },
            BatchEvent::Failed(e) => BatchEventView::Failed(e@),
        }
    }
}

/// What the writing of a batch waits for.
#[derive(Debug, Clone, Copy, PartialEq, Eq, Structural)]
pub enum BatchPhase {
    Mounting,
    Looking,
    Applying,
    Committing,
    Over,
}

/// A batch that is written.
#[derive(Debug)]
pub struct BatchRun {
    pub round: u64,
    /// The number of the last version of the round.
    pub seq: u64,
    pub uploads: Vec<Upload>,
    /// How many changes are done.
    pub done: usize,
    /// The paths whose records have changed.
    pub changed: StrSet,
    pub phase: BatchPhase,
}

#[verifier::ext_equal]
pub struct BatchRunView {
    pub round: u64,
    pub seq: u64,
    pub uploads: Seq<UploadView>,
    pub done: nat,
    pub changed: Set<Seq<char>>,
    pub phase: BatchPhase,
}

impl View for BatchRun {
    type V = BatchRunView;

    open spec fn view(&self) -> BatchRunView {
        BatchRunView {
            round: self.round,
            seq: self.seq,
            uploads: files::upload_views(self.uploads@),
            done: self.done as nat,
            changed: self.changed@,
            phase: self.phase,
        }
    }
}

/// A version of a round.
pub open spec fn version_text(round: u64, seq: nat) -> Seq<char> {
    text::decimal(round as nat) + "."@ + text::decimal(seq)
}

/// The records by their paths; of two with one path the later counts.
pub open spec fn by_path(v: Seq<FileRecView>) -> Map<Seq<char>, FileRecView>
    decreases v.len(),
{
    if v.len() == 0 {
        Map::empty()
    } else {
        by_path(v.drop_last()).insert(v.last().path, v.last())
    }
}

impl BatchRunView {
    /// The batch at its beginning.
    pub open spec fn begun(round: u64, seq: u64, uploads: Seq<UploadView>) -> BatchRunView {
        BatchRunView {
            round,
            seq,
            uploads,
            done: 0,
            changed: Set::empty(),
            phase: BatchPhase::Mounting,
        }
    }

    /// On to the next change, or to the commit after the last.
    pub open spec fn forward(self) -> (BatchRunView, Seq<BatchStepView>) {
        if self.done < self.uploads.len() {
            (
                BatchRunView { phase: BatchPhase::Looking, ..self },
                seq![BatchStepView::Look { path: self.uploads[self.done as int].path }],
            )
        } else {
            (
                BatchRunView { phase: BatchPhase::Committing, ..self },
                seq![BatchStepView::Commit],
            )
        }
    }

    /// The batch ends with its outcome open, and so does the round.
    pub open spec fn failed(self, reason: Seq<char>) -> (BatchRunView, Seq<BatchStepView>) {
        (
            BatchRunView { phase: BatchPhase::Over, ..self },
            seq![BatchStepView::LeaveOpen { reason }, BatchStepView::EndRound { reason }],
        )
    }

    /// What follows from an event.
    pub open spec fn next(self, svc: ServiceView, ev: BatchEventView) -> (
        BatchRunView,
        Seq<BatchStepView>,
    ) {
        match (self.phase, ev) {
            (BatchPhase::Over, _) => (self, Seq::empty()),
            (_, BatchEventView::Failed(e)) => self.failed(e.message()),
            (BatchPhase::Mounting, BatchEventView::Mounted) => self.forward(),
            (BatchPhase::Looking, BatchEventView::Seen { rows, catalog }) => {
                let s = BatchRunView { seq: (self.seq + 1) as u64, ..self };
                match batch::change_plan(
                    svc,
                    rows,
                    self.uploads[self.done as int],
                    self.uploads,
                    catalog,
                    version_text(self.round, (self.seq + 1) as nat),
                ) {
                    Err(e) => s.failed(e.message()),
                    Ok(p) => (
                        BatchRunView {
                            changed: self.changed.union(p.changed),
                            phase: BatchPhase::Applying,
                            ..s
                        },
                        seq![BatchStepView::Apply(p.ops)],
                    ),
                }
            },
            (BatchPhase::Applying, BatchEventView::Applied) => BatchRunView {
                done: self.done + 1,
                ..self
            }.forward(),
            (
                BatchPhase::Committing,
                BatchEventView::Committed {
                    barcode,
                    volume_uuid,
                    generation,
                    catalog,
                    bytes_used,
                    bytes_written,
                },
            ) => {
                let written = batch::chosen(catalog, self.changed);
                (
                    BatchRunView { phase: BatchPhase::Over, ..self },
                    seq![
                        BatchStepView::Publish { generation, records: by_path(written) },
                        BatchStepView::Report(
                            EventView::Committed {
                                round: self.round,
                                barcode,
                                volume_uuid,
                                generation,
                                files_total: opening::plain_records(catalog) as u64,
                                bytes_used,
                                bytes_written,
                                files: written,
                                full: false,
                            },
                        ),
                    ],
                )
            },
            _ => (self, Seq::empty()),
        }
    }

    /// A change is under way or done where the run says so.
    pub open spec fn wf(self) -> bool {
        &&& self.done <= self.uploads.len()
        &&& (self.phase == BatchPhase::Looking || self.phase == BatchPhase::Applying)
            ==> self.done < self.uploads.len()
        &&& self.phase == BatchPhase::Committing ==> self.done == self.uploads.len()
    }

    /// How many changes have a version.
    pub open spec fn numbered(self) -> nat {
        if self.phase == BatchPhase::Applying {
            self.done + 1
        } else {
            self.done
        }
    }
}

fn no_steps() -> (r: Vec<BatchStep>)
    ensures
        step_views(r@) == Seq::<BatchStepView>::empty(),
{
    let r: Vec<BatchStep> = Vec::new();
    assert(step_views(r@) =~= Seq::<BatchStepView>::empty());
    r
}

fn one_step(s: BatchStep) -> (r: Vec<BatchStep>)
    ensures
        step_views(r@) == seq![s@],
{
    let ghost x = s@;
    let mut r: Vec<BatchStep> = Vec::new();
    r.push(s);
    assert(step_views(r@) =~= seq![x]);
    r
}

fn two_steps(a: BatchStep, b: BatchStep) -> (r: Vec<BatchStep>)
    ensures
        step_views(r@) == seq![a@, b@],
{
    let ghost x = a@;
    let ghost y = b@;
    let mut r: Vec<BatchStep> = Vec::new();
    r.push(a);
    r.push(b);
    assert(step_views(r@) =~= seq![x, y]);
    r
}

fn records_by_path(v: &Vec<FileRec>) -> (r: StrMap<FileRec>)
    ensures
        r@ == by_path(state::recs(v@)),
{
    let ghost all = state::recs(v@);
    let mut out: StrMap<FileRec> = StrMap::new();
    let mut i: usize = 0;
    assert(all.take(0) =~= Seq::<FileRecView>::empty());
    while i < v.len()
        invariant
            i <= v@.len(),
            all == state::recs(v@),
            out@ == by_path(all.take(i as int)),
        decreases v@.len() - i,
    {
        proof {
            assert(all.take(i + 1).drop_last() =~= all.take(i as int));
            assert(all.take(i + 1).last() == v@[i as int]@);
        }
        out.insert(v[i].path.clone(), v[i].dup());
        i += 1;
    }
    assert(all.take(i as int) =~= all);
    out
}

impl BatchRun {
    /// Begins to write a batch. `seq` is the number of the last version of the round.
    pub fn begin(round: u64, seq: u64, uploads: Vec<Upload>) -> (r: (Self, Vec<BatchStep>))
        ensures
            r.0@ == BatchRunView::begun(round, seq, files::upload_views(uploads@)),
            r.0@.wf(),
            step_views(r.1@) == seq![BatchStepView::Mount],
    {
        let run = BatchRun {
            round,
            seq,
            uploads,
            done: 0,
            changed: StrSet::new(),
            phase: BatchPhase::Mounting,
        };
        (run, one_step(BatchStep::Mount))
    }

    fn forward(&mut self) -> (r: Vec<BatchStep>)
        ensures
            (final(self)@, step_views(r@)) == old(self)@.forward(),
    {
        if self.done < self.uploads.len() {
            self.phase = BatchPhase::Looking;
            assert(self@.uploads[self.done as int] == self.uploads@[self.done as int]@);
            one_step(BatchStep::Look { path: self.uploads[self.done].path.clone() })
        } else {
            self.phase = BatchPhase::Committing;
            one_step(BatchStep::Commit)
        }
    }

    fn fail(&mut self, reason: String) -> (r: Vec<BatchStep>)
        ensures
            (final(self)@, step_views(r@)) == old(self)@.failed(reason@),
    {
        self.phase = BatchPhase::Over;
        two_steps(
            BatchStep::LeaveOpen { reason: reason.clone() },
            BatchStep::EndRound { reason },
        )
    }

    /// Goes on with what came of a step. An event that does not belong here changes nothing.
    pub fn on(&mut self, svc: &FileService, ev: BatchEvent) -> (r: Vec<BatchStep>)
        requires
            old(self)@.wf(),
            old(self)@.seq < u64::MAX,
        ensures
            final(self)@.wf(),
            (final(self)@, step_views(r@)) == old(self)@.next(svc@, ev@),
    {
        let ghost v0 = self@;
        match (self.phase, ev) {
            (BatchPhase::Over, _) => no_steps(),
            (_, BatchEvent::Failed(e)) => self.fail(e.message()),
            (BatchPhase::Mounting, BatchEvent::Mounted) => self.forward(),
            (BatchPhase::Looking, BatchEvent::Seen { rows, catalog }) => {
                self.seq = self.seq + 1;
                let version = text::cat3(
                    text::decimal_text(self.round).as_str(),
                    ".",
                    text::decimal_text(self.seq).as_str(),
                );
                let u = &self.uploads[self.done];
                assert(v0.uploads[v0.done as int] == u@);
                match plan_change(svc, &rows, u, &self.uploads, &catalog, version.as_str()) {
                    Ok(c) => {
                        self.changed.extend(&c.changed);
                        self.phase = BatchPhase::Applying;
                        one_step(BatchStep::Apply(c.ops))
                    },
                    Err(e) => self.fail(e.message()),
                }
            },
            (BatchPhase::Applying, BatchEvent::Applied) => {
                assert(self.done < self.uploads.len());
                self.done = self.done + 1;
                self.forward()
            },
            (
                BatchPhase::Committing,
                BatchEvent::Committed {
                    barcode,
                    volume_uuid,
                    generation,
                    catalog,
                    bytes_used,
                    bytes_written,
                },
            ) => {
                self.phase = BatchPhase::Over;
                let c = batch_report(
                    self.round,
                    barcode.as_str(),
                    volume_uuid.as_str(),
                    generation,
                    &catalog,
                    bytes_used,
                    bytes_written,
                    &self.changed,
                );
                let records = records_by_path(&c.records);
                two_steps(
                    BatchStep::Publish { generation, records },
                    BatchStep::Report(c.event()),
                )
            },
            _ => no_steps(),
        }
    }
}

/// Nothing is published or reported before the commit has succeeded: only the news of the commit,
/// awaited after every change is done, leads to either, and the batch is published before it is
/// reported.
pub proof fn law_nothing_is_published_before_the_commit(
    b: BatchRunView,
    svc: ServiceView,
    ev: BatchEventView,
    i: int,
)
    requires
        b.wf(),
        0 <= i < b.next(svc, ev).1.len(),
        b.next(svc, ev).1[i] is Publish || b.next(svc, ev).1[i] is Report,
    ensures
        ev is Committed,
        b.phase == BatchPhase::Committing,
        b.done == b.uploads.len(),
        b.next(svc, ev).1[0] is Publish,
        b.next(svc, ev).1[1] is Report,
        b.next(svc, ev).0.phase == BatchPhase::Over,
{
}

/// The commit is made only after the operations of every change.
pub proof fn law_commit_waits_for_every_change(
    b: BatchRunView,
    svc: ServiceView,
    ev: BatchEventView,
    i: int,
)
    requires
        b.wf(),
        0 <= i < b.next(svc, ev).1.len(),
        b.next(svc, ev).1[i] is Commit,
    ensures
        b.next(svc, ev).0.done == b.uploads.len(),
        b.next(svc, ev).0.numbered() == b.uploads.len(),
{
}

/// Each change gets one version of its own, the next of the round, and no other step takes one;
/// only a change that could not be planned leaves its number unused, and then the round ends.
pub proof fn law_one_version_for_each_change(b: BatchRunView, svc: ServiceView, ev: BatchEventView)
    requires
        b.wf(),
        b.seq < u64::MAX,
    ensures
        ({
            let (a, steps) = b.next(svc, ev);
            &&& a.round == b.round
            &&& a.uploads == b.uploads
            &&& a.phase != BatchPhase::Over ==> a.seq - b.seq == a.numbered() - b.numbered()
            &&& a.seq == b.seq || a.seq == b.seq + 1
        }),
{
}

/// What a batch has changed is only added to, and holds the path of every change that is planned.
pub proof fn law_changed_paths_are_kept(b: BatchRunView, svc: ServiceView, ev: BatchEventView)
    requires
        b.wf(),
    ensures
        b.changed.subset_of(b.next(svc, ev).0.changed),
        b.next(svc, ev).0.phase == BatchPhase::Applying && b.phase == BatchPhase::Looking
            ==> b.next(svc, ev).0.changed.contains(b.uploads[b.done as int].path),
{
}

/// Whatever fails, what became of the batch is left open and the round ends.
pub proof fn law_failure_ends_the_round(b: BatchRunView, svc: ServiceView, e: TapeErrorView)
    requires
        b.phase != BatchPhase::Over,
    ensures
        b.next(svc, BatchEventView::Failed(e)) == (
            BatchRunView { phase: BatchPhase::Over, ..b },
            seq![
                BatchStepView::LeaveOpen { reason: e.message() },
                BatchStepView::EndRound { reason: e.message() },
            ],
        ),
{
}

} // verus!
