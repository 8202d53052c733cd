//! Changing the tape that is written, step by step: what is queued is written to it, it gets a full
//! index, the service closes, its new state is reported, it goes back to its slot, and another tape
//! is chosen.
use vstd::prelude::*;

use crate::daemon::executor;
use crate::daemon::library;
use crate::daemon::library::{DriveView, Inventory, InventoryView};
use crate::error::{TapeError, TapeErrorView};

verus! {

/// What a change of tapes waits for.
#[derive(Debug, Clone, Copy, PartialEq, Eq, Structural)]
pub enum SwitchPhase {
    /// That what is queued is on the tape.
    Writing,
    /// That the tape gets a full index.
    Checkpointing,
    /// Where the tapes are.
    Looking,
    /// That the tape leaves its drive.
    Unloading,
    /// That another tape is chosen.
    Choosing,
    /// Nothing: the change is over.
    Over,
}

/// What a change of tapes does next.
#[derive(Debug)]
pub enum SwitchStep {
    /// Writes what is queued.
    Write,
    /// Gives the tape a full index.
    Checkpoint,
    /// Closes the service for this reason.
    Close(String),
    /// Reports the new state of the tape, and keeps it in mind until the report is applied.
    Mark { barcode: String, state: String },
    /// Finds out where the tapes are.
    Survey,
    /// Brings the tape in this device back to a slot; the change goes on where that fails.
    Unload { dev: usize },
    /// Chooses a tape to write to.
    Choose,
    /// Tells what is said of the new tape, or why the round is over.
    Done(Result<String, String>),
}

#[verifier::ext_equal]
pub enum SwitchStepView {
    Write,
    Checkpoint,
    Close(Seq<char>),
    Mark { barcode: Seq<char>, state: Seq<char> },
    Survey,
    Unload { dev: usize },
    Choose,
    Done(Result<Seq<char>, Seq<char>>),
}

impl View for SwitchStep {
    type V = SwitchStepView;

    open spec fn view(&self) -> SwitchStepView {
        match *self {
            SwitchStep::Write => SwitchStepView::Write,
            SwitchStep::Checkpoint => SwitchStepView::Checkpoint,
            SwitchStep::Close(s) => SwitchStepView::Close(s@),
            SwitchStep::Mark { barcode, state } => SwitchStepView::Mark {
                barcode: barcode@,
                state: state@,
            },
            SwitchStep::Survey => SwitchStepView::Survey,
            SwitchStep::Unload { dev } => SwitchStepView::Unload { dev },
            SwitchStep::Choose => SwitchStepView::Choose,
            SwitchStep::Done(r) => SwitchStepView::Done(
                match r {
                    Ok(s) => Ok(s@),
                    Err(e) => Err(e@),
                },
            ),
        }
    }
}

/// What a list of steps says.
pub open spec fn switch_views(v: Seq<SwitchStep>) -> Seq<SwitchStepView> {
    v.map_values(|s: SwitchStep| s@)
}

/// What came of a step.
#[derive(Debug)]
pub enum SwitchEvent {
    Written(Result<(), String>),
    Checkpointed(Result<(), TapeError>),
    Surveyed(Result<Inventory, TapeError>),
    Unloaded,
    /// What is said of the tape that was chosen.
    Chosen(Result<String, TapeError>),
}

pub enum SwitchEventView {
    Written(Result<(), Seq<char>>),
    Checkpointed(Result<(), TapeErrorView>),
    Surveyed(Result<InventoryView, TapeErrorView>),
    Unloaded,
    Chosen(Result<Seq<char>, TapeErrorView>),
}

impl View for SwitchEvent {
    type V = SwitchEventView;

    open spec fn view(&self) -> SwitchEventView {
        match *self {
            SwitchEvent::Written(r) => SwitchEventView::Written(
                match r {
                    Ok(_) => Ok(()),
                    Err(e) => Err(e@),
                },
            ),
            SwitchEvent::Checkpointed(r) => SwitchEventView::Checkpointed(
                match r {
                    Ok(_) => Ok(()),
                    Err(e) => Err(e@),
                },
            ),
            SwitchEvent::Surveyed(r) => SwitchEventView::Surveyed(
                match r {
                    Ok(i) => Ok(i@),
                    Err(e) => Err(e@),
                },
            ),
            SwitchEvent::Unloaded => SwitchEventView::Unloaded,
            SwitchEvent::Chosen(r) => SwitchEventView::Chosen(
                match r {
                    Ok(s) => Ok(s@),
                    Err(e) => Err(e@),
                },
            ),
        }
    }
}

/// A change of tapes under way.
#[derive(Debug)]
pub struct TapeSwitch {
    pub phase: SwitchPhase,
    /// The tape that was written, empty where there is none.
    pub barcode: String,
    /// Its new state.
    pub state: String,
}

#[verifier::ext_equal]
pub struct SwitchView {
    pub phase: SwitchPhase,
    pub barcode: Seq<char>,
    pub state: Seq<char>,
}

impl View for TapeSwitch {
    type V = SwitchView;

    open spec fn view(&self) -> SwitchView {
        SwitchView { phase: self.phase, barcode: self.barcode@, state: self.state@ }
    }
}

impl SwitchView {
    pub open spec fn at(self, phase: SwitchPhase) -> SwitchView {
        SwitchView { phase, ..self }
    }

    /// The change is over, and so is the round, for this reason.
    pub open spec fn failed(self, why: Seq<char>) -> (SwitchView, Seq<SwitchStepView>) {
        (self.at(SwitchPhase::Over), seq![SwitchStepView::Done(Err(why))])
    }

    /// What follows from an event. One that is not waited for changes nothing.
    pub open spec fn next(self, ev: SwitchEventView) -> (SwitchView, Seq<SwitchStepView>) {
        match (self.phase, ev) {
            (SwitchPhase::Writing, SwitchEventView::Written(r)) => match r {
                Ok(_) => (
                    self.at(SwitchPhase::Checkpointing),
                    seq![SwitchStepView::Checkpoint],
                ),
                Err(e) => self.failed(e),
            },
            (SwitchPhase::Checkpointing, SwitchEventView::Checkpointed(r)) => match r {
                Ok(_) => (
                    self.at(SwitchPhase::Looking),
                    seq![
                        SwitchStepView::Close(
                            self.barcode + " 已 "@ + self.state + "，正在换带"@,
                        ),
                        SwitchStepView::Mark { barcode: self.barcode, state: self.state },
                        SwitchStepView::Survey,
                    ],
                ),
                Err(e) => self.failed(e.message()),
            },
            (SwitchPhase::Looking, SwitchEventView::Surveyed(r)) => match r {
                Ok(inv) => {
                    let i = inv.drive_with(self.barcode);
                    if i < inv.drives.len() {
                        (
                            self.at(SwitchPhase::Unloading),
                            seq![SwitchStepView::Unload { dev: inv.drives[i as int].dev }],
                        )
                    } else {
                        (self.at(SwitchPhase::Choosing), seq![SwitchStepView::Choose])
                    }
                },
                Err(_) => (self.at(SwitchPhase::Choosing), seq![SwitchStepView::Choose]),
            },
            (SwitchPhase::Unloading, SwitchEventView::Unloaded) => (
                self.at(SwitchPhase::Choosing),
                seq![SwitchStepView::Choose],
            ),
            (SwitchPhase::Choosing, SwitchEventView::Chosen(r)) => match r {
                Ok(s) => (self.at(SwitchPhase::Over), seq![SwitchStepView::Done(Ok(s))]),
                Err(e) => self.failed(e.message()),
            },
            _ => (self, Seq::empty()),
        }
    }
}

fn one(a: SwitchStep) -> (r: Vec<SwitchStep>)
    ensures
        switch_views(r@) == seq![a@],
{
    let mut v: Vec<SwitchStep> = Vec::new();
    v.push(a);
    assert(switch_views(v@) =~= seq![a@]);
    v
}

impl TapeSwitch {
    /// Begins to change the tape that is written, which gets a new state.
    pub fn begin(barcode: &str, state: &str) -> (r: (Self, Vec<SwitchStep>))
        ensures
            r.0@ == (SwitchView {
                phase: SwitchPhase::Writing,
                barcode: barcode@,
                state: state@,
            }),
            switch_views(r.1@) == seq![SwitchStepView::Write],
    {
        (
            TapeSwitch {
                phase: SwitchPhase::Writing,
                barcode: barcode.to_owned(),
                state: state.to_owned(),
            },
            one(SwitchStep::Write),
        )
    }

    fn failed(&mut self, why: String) -> (r: Vec<SwitchStep>)
        ensures
            (final(self)@, switch_views(r@)) == old(self)@.failed(why@),
    {
        self.phase = SwitchPhase::Over;
        one(SwitchStep::Done(Err(why)))
    }

    /// Goes on after an event, and tells what is done. An event that is not waited for changes
    /// nothing.
    pub fn on(&mut self, ev: SwitchEvent) -> (r: Vec<SwitchStep>)
        ensures
            (final(self)@, switch_views(r@)) == old(self)@.next(ev@),
    {
        match (self.phase, ev) {
            (SwitchPhase::Writing, SwitchEvent::Written(r)) => match r {
                Ok(_) => {
                    self.phase = SwitchPhase::Checkpointing;
                    one(SwitchStep::Checkpoint)
                },
                Err(e) => self.failed(e),
            },
            (SwitchPhase::Checkpointing, SwitchEvent::Checkpointed(r)) => match r {
                Ok(_) => {
                    let why = executor::switching_text(self.barcode.as_str(), self.state.as_str());
                    let barcode = self.barcode.clone();
                    let state = self.state.clone();
                    let ghost mark = SwitchStepView::Mark { barcode: barcode@, state: state@ };
                    let mut v = one(SwitchStep::Close(why));
                    let ghost a = switch_views(v@);
                    v.push(SwitchStep::Mark { barcode, state });
                    assert(switch_views(v@) =~= a.push(mark));
                    v.push(SwitchStep::Survey);
                    assert(switch_views(v@) =~= a.push(mark).push(SwitchStepView::Survey));
                    self.phase = SwitchPhase::Looking;
                    assert(switch_views(v@) =~= old(self)@.next(ev@).1);
                    v
                },
                Err(e) => self.failed(e.message()),
            },
            (SwitchPhase::Looking, SwitchEvent::Surveyed(r)) => {
                match r {
                    Ok(inv) => {
                        let i = inv.find_tape(self.barcode.as_str());
                        if i < inv.drives.len() {
                            assert(inv@.drives[i as int] == inv.drives@[i as int]@);
                            self.phase = SwitchPhase::Unloading;
                            return one(SwitchStep::Unload { dev: inv.drives[i].dev });
                        }
                    },
                    Err(_) => {},
                }
                self.phase = SwitchPhase::Choosing;
                one(SwitchStep::Choose)
            },
            (SwitchPhase::Unloading, SwitchEvent::Unloaded) => {
                self.phase = SwitchPhase::Choosing;
                one(SwitchStep::Choose)
            },
            (SwitchPhase::Choosing, SwitchEvent::Chosen(r)) => match r {
                Ok(s) => {
                    self.phase = SwitchPhase::Over;
                    one(SwitchStep::Done(Ok(s)))
                },
                Err(e) => self.failed(e.message()),
            },
            _ => {
                let v: Vec<SwitchStep> = Vec::new();
                assert(switch_views(v@) =~= Seq::<SwitchStepView>::empty());
                v
            },
        }
    }
}

/// How far a change has come.
pub open spec fn rank(p: SwitchPhase) -> int {
    match p {
        SwitchPhase::Writing => 0,
        SwitchPhase::Checkpointing => 1,
        SwitchPhase::Looking => 2,
        SwitchPhase::Unloading => 3,
        SwitchPhase::Choosing => 4,
        SwitchPhase::Over => 5,
    }
}

/// A change of tapes never goes back, so the tape is written before its index is closed, that
/// before the service closes and its state is reported, and that before it leaves its drive and
/// another tape is chosen. Only the tape that was written leaves a drive.
pub proof fn law_tapes_change_in_order(s: SwitchView, ev: SwitchEventView, i: int)
    requires
        0 <= i < s.next(ev).1.len(),
    ensures
        rank(s.next(ev).0.phase) > rank(s.phase),
        s.next(ev).1[i] is Checkpoint ==> s.phase == SwitchPhase::Writing,
        s.next(ev).1[i] is Close || s.next(ev).1[i] is Mark ==> s.phase
            == SwitchPhase::Checkpointing,
        s.next(ev).1[i] matches SwitchStepView::Unload { dev } ==> {
            &&& s.phase == SwitchPhase::Looking
            &&& ev matches SwitchEventView::Surveyed(Ok(inv)) && exists|k: int|
                0 <= k < inv.drives.len() && (#[trigger] inv.drives[k]).dev == dev
                    && inv.drives[k].holds(s.barcode)
        },
        s.next(ev).1[i] is Choose ==> rank(s.phase) >= rank(SwitchPhase::Looking),
{
    match ev {
        SwitchEventView::Surveyed(r) => {
            if r is Ok {
                let inv = r->Ok_0;
                let f = |d: DriveView| d.holds(s.barcode);
                library::lemma_first_drive(inv.drives, f);
                let k = inv.drive_with(s.barcode) as int;
                if k < inv.drives.len() {
                    assert(f(inv.drives[k]));
                    assert(inv.drives[k].holds(s.barcode));
                }
            }
        },
        _ => {},
    }
}

/// Where the tape cannot be written, or its index cannot be closed, the change ends there: the tape
/// stays in its drive and keeps its state.
pub proof fn law_failed_change_leaves_the_tape(s: SwitchView, why: Seq<char>, e: TapeErrorView)
    ensures
        s.phase == SwitchPhase::Writing ==> s.next(SwitchEventView::Written(Err(why))) == (
            s.at(SwitchPhase::Over),
            seq![SwitchStepView::Done(Err(why))],
        ),
        s.phase == SwitchPhase::Checkpointing ==> s.next(SwitchEventView::Checkpointed(Err(e))) == (
            s.at(SwitchPhase::Over),
            seq![SwitchStepView::Done(Err(e.message()))],
        ),
{
}

} // verus!
