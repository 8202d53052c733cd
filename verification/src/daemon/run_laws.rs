//! What a batch, a change of tapes and the thread of the devices come to, step by step.
use vstd::prelude::*;

use crate::daemon::batch;
use crate::daemon::batch_run;
use crate::daemon::batch_run::{BatchEventView, BatchPhase, BatchRunView, BatchStepView};
use crate::daemon::executor::{
    CycleEventView, CyclePhase, ExecRequest, ExecStepView, ShutdownPhase, ShutdownStepView,
    ShutdownView, ThreadView,
};
use crate::daemon::files::ServiceView;
use crate::daemon::library;
use crate::daemon::library::DriveView;
use crate::daemon::nodes;
use crate::daemon::node::EventView;
use crate::daemon::opening;
use crate::daemon::state::FileRecView;
use crate::daemon::tape_switch::{SwitchEventView, SwitchPhase, SwitchStepView, SwitchView};

verus! {

proof fn lemma_chosen(v: Seq<FileRecView>, changed: Set<Seq<char>>, r: FileRecView)
    ensures
        batch::chosen(v, changed).contains(r) <==> v.contains(r) && changed.contains(r.path),
    decreases v.len(),
{
    if v.len() > 0 {
        let prev = v.drop_last();
        let last = v.last();
        let c = batch::chosen(prev, changed);
        lemma_chosen(prev, changed, r);
        assert(v.contains(r) <==> prev.contains(r) || r == last) by {
            if prev.contains(r) {
                let i = choose|i: int| 0 <= i < prev.len() && prev[i] == r;
                assert(v[i] == r);
            }
            assert(v[v.len() - 1] == last);
            if v.contains(r) && r != last {
                let i = choose|i: int| 0 <= i < v.len() && v[i] == r;
                assert(prev[i] == r);
            }
        }
        assert(c.push(last).contains(r) <==> c.contains(r) || r == last) by {
            if c.contains(r) {
                let i = choose|i: int| 0 <= i < c.len() && c[i] == r;
                assert(c.push(last)[i] == r);
            }
            assert(c.push(last)[c.len() as int] == last);
        }
    }
}

proof fn lemma_by_path(v: Seq<FileRecView>, p: Seq<char>)
    ensures
        batch_run::by_path(v).contains_key(p) <==> exists|r: FileRecView| #[trigger]
            v.contains(r) && r.path == p,
        batch_run::by_path(v).contains_key(p) ==> v.contains(batch_run::by_path(v)[p])
            && batch_run::by_path(v)[p].path == p,
    decreases v.len(),
{
    if v.len() > 0 {
        let prev = v.drop_last();
        let last = v.last();
        lemma_by_path(prev, p);
        assert(v[v.len() - 1] == last);
        assert(v.contains(last));
        assert forall|r: FileRecView| prev.contains(r) implies #[trigger] v.contains(r) by {
            let i = choose|i: int| 0 <= i < prev.len() && prev[i] == r;
            assert(v[i] == r);
        }
        assert forall|r: FileRecView| #[trigger] v.contains(r) implies r == last || prev.contains(
            r,
        ) by {
            let i = choose|i: int| 0 <= i < v.len() && v[i] == r;
            if i < prev.len() {
                assert(prev[i] == r);
            }
        }
        if batch_run::by_path(prev).contains_key(p) {
            assert(v.contains(batch_run::by_path(prev)[p]));
        }
        if last.path != p && exists|r: FileRecView| #[trigger] v.contains(r) && r.path == p {
            let r = choose|r: FileRecView| #[trigger] v.contains(r) && r.path == p;
            assert(prev.contains(r));
        }
    }
}

/// A batch that was committed is published with what the index now has at the changed paths and with
/// nothing else: a path has a record just where it was changed and the index has one, and then that
/// record. The report has the same records and the figures of the commit.
pub proof fn law_committed_batch_is_told(
    b: BatchRunView,
    svc: ServiceView,
    ev: BatchEventView,
    p: Seq<char>,
    r: FileRecView,
)
    requires
        b.phase == BatchPhase::Committing,
        ev is Committed,
    ensures
        ({
            let steps = b.next(svc, ev).1;
            let catalog = ev->Committed_catalog;
            &&& steps.len() == 2
            &&& steps[0] matches BatchStepView::Publish { generation, records } && {
                &&& generation == ev->Committed_generation
                &&& records.contains_key(p) <==> b.changed.contains(p) && exists|x: FileRecView|
                    #[trigger] catalog.contains(x) && x.path == p
                &&& records.contains_key(p) ==> catalog.contains(records[p]) && records[p].path == p
            }
            &&& steps[1] matches BatchStepView::Report(EventView::Committed {
                round,
                barcode,
                volume_uuid,
                generation,
                bytes_used,
                bytes_written,
                files,
                full,
                ..
            }) && {
                &&& round == b.round && barcode == ev->Committed_barcode
                &&& volume_uuid == ev->Committed_volume_uuid
                &&& generation == ev->Committed_generation
                &&& bytes_used == ev->Committed_bytes_used
                &&& bytes_written == ev->Committed_bytes_written
                &&& !full
                &&& files.contains(r) <==> catalog.contains(r) && b.changed.contains(r.path)
            }
        }),
{
    let catalog = ev->Committed_catalog;
    let written = batch::chosen(catalog, b.changed);
    lemma_by_path(written, p);
    assert forall|x: FileRecView| #[trigger] written.contains(x) <==> catalog.contains(x)
        && b.changed.contains(x.path) by {
        lemma_chosen(catalog, b.changed, x);
    }
    if b.changed.contains(p) && exists|x: FileRecView| #[trigger]
        catalog.contains(x) && x.path == p {
        let x = choose|x: FileRecView| #[trigger] catalog.contains(x) && x.path == p;
        assert(written.contains(x));
    }
}

/// Counting the records of an index: one more record adds one, a directory none.
pub proof fn law_directories_do_not_count(v: Seq<FileRecView>, r: FileRecView)
    ensures
        opening::plain_records(Seq::<FileRecView>::empty()) == 0,
        nodes::dir_kind(r.metadata) ==> opening::plain_records(v.push(r))
            == opening::plain_records(v),
        !nodes::dir_kind(r.metadata) ==> opening::plain_records(v.push(r))
            == opening::plain_records(v) + 1,
{
    assert(v.push(r).drop_last() =~= v);
}

/// The changes of a batch are looked at and done in their order, each once, and after the last the
/// commit follows.
pub proof fn law_changes_are_done_in_order(b: BatchRunView, svc: ServiceView, ev: BatchEventView)
    requires
        b.wf(),
        b.seq < u64::MAX,
        (b.phase == BatchPhase::Mounting && ev is Mounted) || (b.phase == BatchPhase::Applying
            && ev is Applied),
    ensures
        ({
            let (a, steps) = b.next(svc, ev);
            let n = b.done as int + if ev is Mounted { 0int } else { 1int };
            &&& a.done == n && a.changed == b.changed && a.seq == b.seq
            &&& n < b.uploads.len() ==> steps == seq![
                BatchStepView::Look { path: b.uploads[n].path },
            ] && a.phase == BatchPhase::Looking
            &&& n == b.uploads.len() ==> steps == seq![BatchStepView::Commit] && a.phase
                == BatchPhase::Committing
        }),
{
}

/// What is done for a change is what was planned for it from what was seen, under the next version
/// of the round; where it cannot be planned nothing is done.
pub proof fn law_change_is_done_as_planned(b: BatchRunView, svc: ServiceView, ev: BatchEventView)
    requires
        b.wf(),
        b.seq < u64::MAX,
        b.phase == BatchPhase::Looking,
        ev is Seen,
    ensures
        ({
            let (a, steps) = b.next(svc, ev);
            let version = batch_run::version_text(b.round, (b.seq + 1) as nat);
            let plan = batch::change_plan(
                svc,
                ev->rows,
                b.uploads[b.done as int],
                b.uploads,
                ev->Seen_catalog,
                version,
            );
            &&& plan matches Ok(p) ==> steps == seq![BatchStepView::Apply(p.ops)] && a.phase
                == BatchPhase::Applying && (forall|x: Seq<char>| #[trigger]
                a.changed.contains(x) <==> b.changed.contains(x) || p.changed.contains(x))
            &&& plan is Err ==> a.phase == BatchPhase::Over && steps.len() == 2
                && steps[0] is LeaveOpen && steps[1] is EndRound
        }),
{
}

/// A change of tapes that goes well writes what is waiting, closes the index, marks the tape with
/// the state that it was changed for, takes it out of the first drive that holds it, and ends with
/// the tape that was chosen. A tape that is in no drive, or drives that cannot be looked at, keep
/// it from nothing.
pub proof fn law_change_of_tapes_goes_through(
    s: SwitchView,
    ev: SwitchEventView,
    k: int,
)
    ensures
        ({
            let (t, steps) = s.next(ev);
            &&& t.barcode == s.barcode && t.state == s.state
            &&& s.phase == SwitchPhase::Writing && ev == SwitchEventView::Written(Ok(())) ==> steps
                == seq![SwitchStepView::Checkpoint]
            &&& s.phase == SwitchPhase::Checkpointing && ev == SwitchEventView::Checkpointed(Ok(()))
                ==> {
                &&& steps.len() == 3 && steps[0] is Close
                &&& steps[1] == SwitchStepView::Mark { barcode: s.barcode, state: s.state }
                &&& steps[2] is Survey
            }
            &&& (s.phase == SwitchPhase::Looking && (ev matches SwitchEventView::Surveyed(Ok(inv))
                && 0 <= k < inv.drives.len() && inv.drives[k].holds(s.barcode) && forall|j: int|
                0 <= j < k ==> !(#[trigger] inv.drives[j]).holds(s.barcode))) ==> steps == seq![
                SwitchStepView::Unload { dev: (ev->Surveyed_0->Ok_0).drives[k].dev },
            ]
            &&& (s.phase == SwitchPhase::Looking && (ev matches SwitchEventView::Surveyed(r) && (
            r matches Ok(inv) ==> forall|j: int|
                0 <= j < inv.drives.len() ==> !(#[trigger] inv.drives[j]).holds(s.barcode))))
                ==> steps == seq![SwitchStepView::Choose]
            &&& s.phase == SwitchPhase::Unloading && ev is Unloaded ==> steps == seq![
                SwitchStepView::Choose,
            ]
            &&& (s.phase == SwitchPhase::Choosing && ev is Chosen) ==> t.phase == SwitchPhase::Over
                && steps.len() == 1 && (steps[0] matches SwitchStepView::Done(r) && (ev->Chosen_0
                is Ok ==> r == Ok::<Seq<char>, Seq<char>>(ev->Chosen_0->Ok_0)) && (ev->Chosen_0
                is Err ==> r is Err))
        }),
{
    if let SwitchEventView::Surveyed(Ok(inv)) = ev {
        let f = |d: DriveView| d.holds(s.barcode);
        library::lemma_first_drive(inv.drives, f);
        let at = inv.drive_with(s.barcode) as int;
        if at < inv.drives.len() {
            assert(f(inv.drives[at]));
        }
        assert forall|j: int| 0 <= j < at && j < inv.drives.len() implies !(
        #[trigger] inv.drives[j]).holds(s.barcode) by {
            assert(!f(inv.drives[j]));
        }
        if s.phase == SwitchPhase::Looking && 0 <= k < inv.drives.len() && inv.drives[k].holds(
            s.barcode,
        ) {
            assert(f(inv.drives[k]));
        }
    }
}

/// The thread reads and writes just while it serves, and what is asked meanwhile is refused; it
/// goes on to choose a tape just for the round that it has fenced; on a takeover the old round ends
/// before the devices are fenced for the new one.
pub proof fn law_thread_does_what_is_asked(v: ThreadView, round: u64, path: String)
    ensures
        ({
            let read = v.on_request(ExecRequest::Read { path });
            let work = v.on_request(ExecRequest::Work);
            let take = v.on_request(ExecRequest::Takeover { round });
            let recover = v.on_request(ExecRequest::Recover { round });
            let serves = v.active is Some && v.active->0.serving;
            let holds = v.active is Some && v.active->0.round == round;
            &&& read.0 == v && recover.0 == v
            &&& serves ==> read.1 == seq![ExecStepView::Read { path: path@ }] && work.1 == seq![
                ExecStepView::Write,
            ] && work.0.cycle.phase == CyclePhase::Writing
            &&& !serves ==> read.1.len() == 1 && read.1[0] is Refuse && work.1.len() == 0 && work.0
                == v
            &&& take.0.active is None && take.1.len() == 2 && take.1[0] is Close && take.1[1]
                == ExecStepView::Fence { round }
            &&& holds ==> recover.1 == seq![ExecStepView::ChooseTape]
            &&& !holds ==> recover.1.len() == 1 && (recover.1[0] matches ExecStepView::Report(
                EventView::Lost { round: r, .. },
            ) && r == round)
        }),
{
}

/// A thread that is asked to stop its round, or any round, gives it up and closes the service; one
/// that is shut down first does what a shutdown needs, where it holds a round, and always ends.
pub proof fn law_thread_stops(v: ThreadView, round: Option<u64>, reason: String)
    requires
        round is None || (v.active is Some && v.active->0.round == round->0),
    ensures
        ({
            let stop = v.on_request(ExecRequest::Stop { round, reason });
            let down = v.on_request(ExecRequest::Shutdown);
            &&& stop.0.active is None && down.0.active is None
            &&& stop.1 == seq![ExecStepView::Close { reason: reason@ }]
            &&& down.1.last() is Exit
            &&& down.1.contains(ExecStepView::ShutDown) <==> v.active is Some
        }),
{
    let down = v.on_request(ExecRequest::Shutdown);
    if v.active is Some {
        assert(down.1[0] is ShutDown);
    }
}

/// While it serves the thread writes at every timeout, and the periodic work is due just when its
/// time has come; that time then moves on by the interval.
pub proof fn law_periodic_work_comes_in_time(v: ThreadView, now: u64)
    requires
        now + v.interval <= u64::MAX,
    ensures
        ({
            let (t, steps) = v.on_cycle(CycleEventView::Timeout { now });
            let serves = v.active is Some && v.active->0.serving;
            &&& t.active == v.active && t.interval == v.interval
            &&& serves ==> steps == seq![ExecStepView::Write] && t.cycle.phase
                == CyclePhase::Writing && t.cycle.timed && (t.cycle.periodic <==> v.next_work <= now)
            &&& serves && v.next_work > now ==> t.next_work == v.next_work
            &&& !serves ==> steps.len() == 0
            &&& !serves || v.next_work <= now ==> t.next_work == now + v.interval
        }),
{
}

/// What follows on writing that went well: nothing where the cycle was begun by a request; else the
/// devices are checked where periodic work is due and a tape is written, a tape is looked for where
/// none is; and reclamation has its turn where it is under way or periodic work is due.
pub proof fn law_work_follows_on_writing(v: ThreadView, n: bool, now: u64)
    requires
        v.active is Some,
    ensures
        ({
            let wrote = v.on_cycle(CycleEventView::Wrote { result: Ok(()), change: None });
            let checked = v.on_cycle(CycleEventView::Checked(Ok(())));
            let done = v.on_cycle(CycleEventView::Reclaimed { result: Ok(n), now });
            let reclaims = v.active->0.desk.current is Some || v.cycle.periodic;
            &&& v.cycle.phase == CyclePhase::Writing && !v.cycle.timed ==> wrote.1.len() == 0
            &&& v.cycle.phase == CyclePhase::Writing && v.cycle.timed && v.cycle.periodic ==> (
            v.active->0.drive is Some ==> wrote.1 == seq![ExecStepView::CheckDevices]) && (
            v.active->0.drive is None ==> wrote.1 == seq![ExecStepView::ChooseAgain])
            &&& v.cycle.phase == CyclePhase::Writing && v.cycle.timed && !v.cycle.periodic ==> (
            wrote.1.contains(ExecStepView::Reclaim) <==> v.active->0.desk.current is Some)
            &&& v.cycle.phase == CyclePhase::Checking ==> (checked.1.contains(
                ExecStepView::Reclaim,
            ) <==> reclaims)
            &&& v.cycle.phase == CyclePhase::Reclaiming ==> done.1.len() == 0 && done.0.active
                == v.active && (n ==> done.0.next_work == now) && (!n ==> done.0.next_work
                == v.next_work)
        }),
{
    let wrote = v.on_cycle(CycleEventView::Wrote { result: Ok(()), change: None });
    let checked = v.on_cycle(CycleEventView::Checked(Ok(())));
    if wrote.1.len() > 0 {
        assert(wrote.1[0] is Reclaim ==> wrote.1.contains(ExecStepView::Reclaim));
    }
    if checked.1.len() > 0 {
        assert(checked.1[0] is Reclaim ==> checked.1.contains(ExecStepView::Reclaim));
    }
}

/// A shutdown that goes well closes the service, takes the tape out of every drive, and then
/// releases every device.
pub proof fn law_shutdown_leaves_nothing_behind(s: ShutdownView, i: int, d: usize)
    requires
        s.phase == ShutdownPhase::Checkpointing,
        0 <= i < s.drives.len(),
        d < s.devices,
    ensures
        ({
            let steps = s.next(true).1;
            &&& steps.len() == s.drives.len() + s.devices + 2
            &&& steps[0] is Close
            &&& steps[1 + i] == ShutdownStepView::Unload { dev: s.drives[i] }
            &&& steps[1 + s.drives.len() + d] == ShutdownStepView::Release { dev: d }
            &&& steps.last() is Done
        }),
{
}

} // verus!
