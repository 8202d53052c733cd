//! A read, step by step: what is done with the devices next, and what a failure of a step means.
//!
//! A tape that has to be loaded gets a drive of its own where there is one. Where there is none the
//! tape that is written gives way: it gets a full index first, then the service closes, then it
//! leaves the drive; after the read the other tape leaves and a tape to write to is chosen again.
use vstd::prelude::*;

use crate::daemon::library;
use crate::daemon::library::{DriveView, Inventory, InventoryView};
use crate::daemon::reading;
use crate::daemon::reading::{
    ReadError, ReadErrorView, ReadPlan, ReadPlanView, ReadTape, ReadTapeView, Target, TargetView,
};
use crate::error::{TapeError, TapeErrorView};
use crate::text;

verus! {

/// What a read waits for.
#[derive(Debug, Clone, Copy, PartialEq, Eq, Structural)]
pub enum ReadPhase {
    /// The content, from the tape that is written.
    FromWritten,
    /// The content, from the tape that was loaded for reading.
    FromLoaded,
    /// Where the tapes are.
    Looking,
    /// That the last tape for reading leaves its drive.
    Clearing,
    /// Where there is a drive.
    Choosing,
    /// That the tape that is written gets a full index.
    Checkpointing,
    /// That the tape that is written leaves its drive.
    GivingWay,
    /// Where the drive is.
    Aiming,
    /// That the tape is loaded and mounted.
    Loading,
    /// The content, from the tape that was loaded.
    FromFetched,
    /// Where the tapes are, after a read from the only drive.
    Returning,
    /// That the tape leaves the only drive again.
    Leaving,
    /// That there is a tape to write to again.
    Restoring,
    /// Nothing: the read is over.
    Over,
}

/// What a read does next.
#[derive(Debug)]
pub enum ReadStep {
    /// Reads the file from the tape in this device.
    Read { dev: usize },
    /// Finds out where the tapes are.
    Survey,
    /// Brings the tape in this device back to a slot.
    Unload { dev: usize },
    /// Gives the tape that is written a full index.
    Checkpoint,
    /// Closes the service for this reason.
    Close(String),
    /// Moves a tape from a slot into a drive, waits for it and mounts it.
    Load { from: u16, to: u16, dev: usize },
    /// Reports all that the tape in this device holds.
    Report { dev: usize },
    /// Chooses a tape to write to.
    Restore,
    /// Reports that there is one.
    Serving(String),
    /// Reports that the round is over.
    Lost(String),
    /// Gives the number of bytes, or why there are none.
    Done(Result<u64, ReadError>),
}

#[verifier::ext_equal]
pub enum ReadStepView {
    Read { dev: usize },
    Survey,
    Unload { dev: usize },
    Checkpoint,
    Close(Seq<char>),
    Load { from: u16, to: u16, dev: usize },
    Report { dev: usize },
    Restore,
    Serving(Seq<char>),
    Lost(Seq<char>),
    Done(Result<u64, ReadErrorView>),
}

/// What came of a read.
pub open spec fn outcome(r: Result<u64, ReadError>) -> Result<u64, ReadErrorView> {
    match r {
        Ok(n) => Ok(n),
        Err(e) => Err(e@),
    }
}

impl View for ReadStep {
    type V = ReadStepView;

    open spec fn view(&self) -> ReadStepView {
        match *self {
            ReadStep::Read { dev } => ReadStepView::Read { dev },
            ReadStep::Survey => ReadStepView::Survey,
            ReadStep::Unload { dev } => ReadStepView::Unload { dev },
            ReadStep::Checkpoint => ReadStepView::Checkpoint,
            ReadStep::Close(s) => ReadStepView::Close(s@),
            ReadStep::Load { from, to, dev } => ReadStepView::Load { from, to, dev },
            ReadStep::Report { dev } => ReadStepView::Report { dev },
            ReadStep::Restore => ReadStepView::Restore,
            ReadStep::Serving(s) => ReadStepView::Serving(s@),
            ReadStep::Lost(s) => ReadStepView::Lost(s@),
            ReadStep::Done(r) => ReadStepView::Done(outcome(r)),
        }
    }
}

/// What a list of steps says.
pub open spec fn step_views(v: Seq<ReadStep>) -> Seq<ReadStepView> {
    v.map_values(|s: ReadStep| s@)
}

/// What came of a step.
#[derive(Debug)]
pub enum ReadEvent {
    /// Where the tapes are; whether nothing is being written, and which tape it would be.
    Surveyed { inv: Result<Inventory, TapeError>, idle: bool, writing: String },
    Unloaded(Result<(), TapeError>),
    Checkpointed(Result<(), TapeError>),
    /// The generation on the tape that was loaded, and the one that the directory has of it.
    Loaded { generation: Result<u64, TapeError>, listed: u64, now: u64 },
    Read { bytes: Result<u64, TapeError>, now: u64 },
    /// What is said of the tape that was chosen.
    Restored(Result<String, TapeError>),
}

pub enum ReadEventView {
    Surveyed { inv: Result<InventoryView, TapeErrorView>, idle: bool, writing: Seq<char> },
    Unloaded(Result<(), TapeErrorView>),
    Checkpointed(Result<(), TapeErrorView>),
    Loaded { generation: Result<u64, TapeErrorView>, listed: u64, now: u64 },
    Read { bytes: Result<u64, TapeErrorView>, now: u64 },
    Restored(Result<Seq<char>, TapeErrorView>),
}

pub open spec fn plain<T>(r: Result<T, TapeError>) -> Result<T, TapeErrorView> {
    match r {
        Ok(x) => Ok(x),
        Err(e) => Err(e@),
    }
}

impl View for ReadEvent {
    type V = ReadEventView;

    open spec fn view(&self) -> ReadEventView {
        match *self {
            ReadEvent::Surveyed { inv, idle, writing } => ReadEventView::Surveyed {
                inv: match inv {
                    Ok(i) => Ok(i@),
                    Err(e) => Err(e@),
                },
                idle,
                writing: writing@,
            },
            ReadEvent::Unloaded(r) => ReadEventView::Unloaded(plain(r)),
            ReadEvent::Checkpointed(r) => ReadEventView::Checkpointed(plain(r)),
            ReadEvent::Loaded { generation, listed, now } => ReadEventView::Loaded {
                generation: plain(generation),
                listed,
                now,
            },
            ReadEvent::Read { bytes, now } => ReadEventView::Read { bytes: plain(bytes), now },
            ReadEvent::Restored(r) => ReadEventView::Restored(
                match r {
                    Ok(s) => Ok(s@),
                    Err(e) => Err(e@),
                },
            ),
        }
    }
}

/// A read under way.
#[derive(Debug)]
pub struct ReadRun {
    pub phase: ReadPhase,
    /// The tape that the file is on.
    pub barcode: String,
    /// The drive with the tape that is written.
    pub drive: Option<usize>,
    /// The tape that was loaded for reading.
    pub read: Option<ReadTape>,
    /// The slot that the tape comes from.
    pub from: u16,
    /// The drive that the tape goes into.
    pub target: Option<usize>,
    /// The tape that is being taken out of a drive.
    pub leaving: String,
    /// The drive with the tape that is written was found.
    pub found: bool,
    /// The tape that is written gave way.
    pub swapped: bool,
    /// What came of the read, while the drive is given back.
    pub result: Option<Result<u64, ReadError>>,
}

#[verifier::ext_equal]
pub struct ReadRunView {
    pub phase: ReadPhase,
    pub barcode: Seq<char>,
    pub drive: Option<usize>,
    pub read: Option<ReadTapeView>,
    pub from: u16,
    pub target: Option<usize>,
    pub leaving: Seq<char>,
    pub found: bool,
    pub swapped: bool,
    pub result: Option<Result<u64, ReadErrorView>>,
}

impl View for ReadRun {
    type V = ReadRunView;

    open spec fn view(&self) -> ReadRunView {
        ReadRunView {
            phase: self.phase,
            barcode: self.barcode@,
            drive: self.drive,
            read: reading::read_tape(self.read),
            from: self.from,
            target: self.target,
            leaving: self.leaving@,
            found: self.found,
            swapped: self.swapped,
            result: match self.result {
                Some(r) => Some(outcome(r)),
                None => None,
            },
        }
    }
}

/// A read as it goes on, and what is done.
pub type Next = (ReadRunView, Seq<ReadStepView>);

impl ReadRunView {
    pub open spec fn at(self, phase: ReadPhase) -> ReadRunView {
        ReadRunView { phase, ..self }
    }

    /// The read is over with `r`. Where the device was lost the service closes, the round is over,
    /// and the client is told to try again.
    pub open spec fn over(self, r: Result<u64, ReadErrorView>) -> Next {
        (
            self.at(ReadPhase::Over),
            match r {
                Err(ReadErrorView::Lost(why)) => seq![
                    ReadStepView::Close(why),
                    ReadStepView::Lost(why),
                    ReadStepView::Done(Err(ReadErrorView::Busy(why))),
                ],
                _ => seq![ReadStepView::Done(r)],
            },
        )
    }

    pub open spec fn failed(self, e: TapeErrorView, context: Seq<char>) -> Next {
        self.over(Err(reading::device_error(e, context)))
    }

    /// What follows once the tape was read, or could not be loaded. A tape in a drive of its own
    /// stays there for the next read.
    pub open spec fn finished(self, r: Result<u64, ReadErrorView>, now: u64) -> Next {
        if r is Err && r->Err_0 is Lost {
            self.over(r)
        } else if self.swapped {
            (
                ReadRunView { result: Some(r), ..self.at(ReadPhase::Returning) },
                seq![ReadStepView::Survey],
            )
        } else {
            ReadRunView {
                read: match self.target {
                    Some(dev) => Some(ReadTapeView { dev, barcode: self.barcode, used: now }),
                    None => self.read,
                },
                ..self
            }.over(r)
        }
    }

    /// The tape that is written is out of its drive.
    pub open spec fn gave_way(self) -> Next {
        (
            ReadRunView {
                drive: None,
                swapped: true,
                target: self.drive,
                ..self.at(ReadPhase::Aiming)
            },
            seq![ReadStepView::Survey],
        )
    }

    /// What follows when it is known where the tapes are.
    pub open spec fn surveyed(self, inv: InventoryView, idle: bool, writing: Seq<char>) -> Next {
        match self.phase {
            ReadPhase::Looking => if !inv.slots.contains_key(self.barcode) {
                self.over(Err(ReadErrorView::Failed(self.barcode + " 不在库里的存储槽位中"@)))
            } else {
                let s = ReadRunView { from: inv.slots[self.barcode], read: None, ..self };
                match self.read {
                    Some(t) => if inv.drive_of(t.dev) < inv.drives.len() {
                        (
                            ReadRunView {
                                target: Some(t.dev),
                                leaving: t.barcode,
                                ..s.at(ReadPhase::Clearing)
                            },
                            seq![ReadStepView::Unload { dev: t.dev }],
                        )
                    } else {
                        (s.at(ReadPhase::Choosing), seq![ReadStepView::Survey])
                    },
                    None => (s.at(ReadPhase::Choosing), seq![ReadStepView::Survey]),
                }
            },
            ReadPhase::Choosing => match reading::target_of(
                inv,
                self.target,
                self.drive,
                idle,
                writing,
                self.barcode,
            ) {
                TargetView::Device { dev } => (
                    ReadRunView { target: Some(dev), ..self.at(ReadPhase::Aiming) },
                    seq![ReadStepView::Survey],
                ),
                TargetView::Swap { dev } => (
                    ReadRunView {
                        found: inv.drive_of(dev) < inv.drives.len(),
                        ..self.at(ReadPhase::Checkpointing)
                    },
                    seq![ReadStepView::Checkpoint],
                ),
                TargetView::Refused(e) => self.over(Err(e)),
            },
            ReadPhase::Aiming => match self.target {
                Some(dev) => if inv.drive_of(dev) < inv.drives.len() {
                    (
                        self.at(ReadPhase::Loading),
                        seq![
                            ReadStepView::Load {
                                from: self.from,
                                to: inv.drives[inv.drive_of(dev) as int].addr,
                                dev,
                            },
                        ],
                    )
                } else {
                    self.over(Err(ReadErrorView::Failed("驱动器不在库存里"@)))
                },
                None => (self, Seq::empty()),
            },
            ReadPhase::Returning => match self.target {
                Some(dev) => if inv.drive_of(dev) < inv.drives.len() {
                    (self.at(ReadPhase::Leaving), seq![ReadStepView::Unload { dev }])
                } else {
                    (self.at(ReadPhase::Restoring), seq![ReadStepView::Restore])
                },
                None => (self, Seq::empty()),
            },
            _ => (self, Seq::empty()),
        }
    }

    /// What follows from an event. One that is not waited for changes nothing.
    pub open spec fn next(self, ev: ReadEventView) -> Next {
        match ev {
            ReadEventView::Surveyed { inv, idle, writing } => match inv {
                Ok(inv) => self.surveyed(inv, idle, writing),
                Err(e) => if self.phase == ReadPhase::Looking || self.phase == ReadPhase::Choosing
                    || self.phase == ReadPhase::Aiming || self.phase == ReadPhase::Returning {
                    self.failed(e, "读取库存失败"@)
                } else {
                    (self, Seq::empty())
                },
            },
            ReadEventView::Unloaded(r) => match self.phase {
                ReadPhase::Clearing => match r {
                    Ok(_) => (self.at(ReadPhase::Choosing), seq![ReadStepView::Survey]),
                    Err(e) => self.failed(e, "卸下读带 "@ + self.leaving + " 失败"@),
                },
                ReadPhase::GivingWay => match r {
                    Ok(_) => self.gave_way(),
                    Err(e) => self.failed(e, "卸下写入带失败"@),
                },
                ReadPhase::Leaving => match r {
                    Ok(_) => (self.at(ReadPhase::Restoring), seq![ReadStepView::Restore]),
                    Err(e) => self.failed(e, "读取后卸带失败"@),
                },
                _ => (self, Seq::empty()),
            },
            ReadEventView::Checkpointed(r) => if self.phase == ReadPhase::Checkpointing {
                match r {
                    Ok(_) => {
                        let closed = seq![ReadStepView::Close("暂时换带读取"@)];
                        match self.drive {
                            Some(w) => if self.found {
                                (
                                    self.at(ReadPhase::GivingWay),
                                    closed.push(ReadStepView::Unload { dev: w }),
                                )
                            } else {
                                (self.gave_way().0, closed.push(ReadStepView::Survey))
                            },
                            None => (self, Seq::empty()),
                        }
                    },
                    Err(e) => {
                        let why = "写入带检查点失败: "@ + e.message();
                        (
                            self.at(ReadPhase::Over),
                            seq![
                                ReadStepView::Close(why),
                                ReadStepView::Lost(why),
                                ReadStepView::Done(Err(ReadErrorView::Failed(why))),
                            ],
                        )
                    },
                }
            } else {
                (self, Seq::empty())
            },
            ReadEventView::Loaded { generation, listed, now } => if self.phase
                == ReadPhase::Loading {
                match generation {
                    Err(e) => self.finished(
                        Err(
                            reading::device_error(
                                e,
                                "装载 "@ + self.barcode + " 读取失败"@,
                            ),
                        ),
                        now,
                    ),
                    Ok(g) => match self.target {
                        Some(dev) => (
                            self.at(ReadPhase::FromFetched),
                            if listed != g {
                                seq![ReadStepView::Report { dev }, ReadStepView::Read { dev }]
                            } else {
                                seq![ReadStepView::Read { dev }]
                            },
                        ),
                        None => (self, Seq::empty()),
                    },
                }
            } else {
                (self, Seq::empty())
            },
            ReadEventView::Read { bytes, now } => {
                let r: Result<u64, ReadErrorView> = match bytes {
                    Ok(n) => Ok(n),
                    Err(e) => Err(reading::device_error(e, "读取文件失败"@)),
                };
                match self.phase {
                    ReadPhase::FromWritten => self.over(r),
                    ReadPhase::FromLoaded => ReadRunView {
                        read: match (self.read, r) {
                            (Some(t), Ok(_)) => Some(ReadTapeView { used: now, ..t }),
                            _ => self.read,
                        },
                        ..self
                    }.over(r),
                    ReadPhase::FromFetched => self.finished(r, now),
                    _ => (self, Seq::empty()),
                }
            },
            ReadEventView::Restored(r) => if self.phase == ReadPhase::Restoring {
                match (r, self.result) {
                    (Err(e), _) => self.failed(e, "读取后恢复写入带失败"@),
                    (Ok(s), Some(got)) => (
                        self.at(ReadPhase::Over),
                        seq![ReadStepView::Serving(s), ReadStepView::Done(got)],
                    ),
                    _ => (self, Seq::empty()),
                }
            } else {
                (self, Seq::empty())
            },
        }
    }
}

/// How a read begins, by where the file is.
pub open spec fn begun(
    plan: ReadPlanView,
    drive: Option<usize>,
    read: Option<ReadTapeView>,
) -> Next {
    let s = ReadRunView {
        phase: ReadPhase::Over,
        barcode: Seq::empty(),
        drive,
        read,
        from: 0,
        target: None,
        leaving: Seq::empty(),
        found: false,
        swapped: false,
        result: None,
    };
    match plan {
        ReadPlanView::Written { dev } => (
            s.at(ReadPhase::FromWritten),
            seq![ReadStepView::Read { dev }],
        ),
        ReadPlanView::Loaded { dev } => (
            s.at(ReadPhase::FromLoaded),
            seq![ReadStepView::Read { dev }],
        ),
        ReadPlanView::Fetch { barcode } => (
            ReadRunView { barcode, ..s.at(ReadPhase::Looking) },
            seq![ReadStepView::Survey],
        ),
        ReadPlanView::Refused(e) => (s, seq![ReadStepView::Done(Err(e))]),
    }
}

fn nothing() -> (r: Vec<ReadStep>)
    ensures
        step_views(r@) == Seq::<ReadStepView>::empty(),
{
    let v: Vec<ReadStep> = Vec::new();
    assert(step_views(v@) =~= Seq::<ReadStepView>::empty());
    v
}

fn one(a: ReadStep) -> (r: Vec<ReadStep>)
    ensures
        step_views(r@) == seq![a@],
{
    let mut v: Vec<ReadStep> = Vec::new();
    v.push(a);
    assert(step_views(v@) =~= seq![a@]);
    v
}

fn two(a: ReadStep, b: ReadStep) -> (r: Vec<ReadStep>)
    ensures
        step_views(r@) == seq![a@, b@],
{
    let mut v: Vec<ReadStep> = Vec::new();
    v.push(a);
    v.push(b);
    assert(step_views(v@) =~= seq![a@, b@]);
    v
}

fn three(a: ReadStep, b: ReadStep, c: ReadStep) -> (r: Vec<ReadStep>)
    ensures
        step_views(r@) == seq![a@, b@, c@],
{
    let mut v: Vec<ReadStep> = Vec::new();
    v.push(a);
    v.push(b);
    v.push(c);
    assert(step_views(v@) =~= seq![a@, b@, c@]);
    v
}

impl ReadRun {
    /// Begins a read, by where the file is.
    pub fn begin(plan: ReadPlan, drive: Option<usize>, read: Option<ReadTape>) -> (r: (
        Self,
        Vec<ReadStep>,
    ))
        ensures
            (r.0@, step_views(r.1@)) == begun(plan@, drive, reading::read_tape(read)),
    {
        let (phase, barcode, first) = match plan {
            ReadPlan::Written { dev } => (
                ReadPhase::FromWritten,
                String::new(),
                ReadStep::Read { dev },
            ),
            ReadPlan::Loaded { dev } => (
                ReadPhase::FromLoaded,
                String::new(),
                ReadStep::Read { dev },
            ),
            ReadPlan::Fetch { barcode } => (ReadPhase::Looking, barcode, ReadStep::Survey),
            ReadPlan::Refused(e) => (ReadPhase::Over, String::new(), ReadStep::Done(Err(e))),
        };
        let run = ReadRun {
            phase,
            barcode,
            drive,
            read,
            from: 0,
            target: None,
            leaving: String::new(),
            found: false,
            swapped: false,
            result: None,
        };
        (run, one(first))
    }

    fn over(&mut self, r: Result<u64, ReadError>) -> (out: Vec<ReadStep>)
        ensures
            (final(self)@, step_views(out@)) == old(self)@.over(outcome(r)),
    {
        self.phase = ReadPhase::Over;
        match r {
            Err(ReadError::Lost(why)) => three(
                ReadStep::Close(why.clone()),
                ReadStep::Lost(why.clone()),
                ReadStep::Done(Err(ReadError::Busy(why))),
            ),
            other => one(ReadStep::Done(other)),
        }
    }

    fn failed(&mut self, e: &TapeError, context: &str) -> (out: Vec<ReadStep>)
        ensures
            (final(self)@, step_views(out@)) == old(self)@.failed(e@, context@),
    {
        self.over(Err(ReadError::device(e, context)))
    }

    fn finished(&mut self, r: Result<u64, ReadError>, now: u64) -> (out: Vec<ReadStep>)
        ensures
            (final(self)@, step_views(out@)) == old(self)@.finished(outcome(r), now),
    {
        let lost = match &r {
            Err(ReadError::Lost(_)) => true,
            _ => false,
        };
        if lost {
            return self.over(r);
        }
        if self.swapped {
            self.phase = ReadPhase::Returning;
            self.result = Some(r);
            return one(ReadStep::Survey);
        }
        match self.target {
            Some(dev) => {
                let barcode = self.barcode.clone();
                self.read = Some(ReadTape { dev, barcode, used: now });
            },
            None => {},
        }
        self.over(r)
    }

    fn gave_way(&mut self)
        ensures
            final(self)@ == old(self)@.gave_way().0,
    {
        self.target = self.drive;
        self.drive = None;
        self.swapped = true;
        self.phase = ReadPhase::Aiming;
    }

    fn look(&mut self, inv: &Inventory) -> (out: Vec<ReadStep>)
        requires
            old(self)@.phase == ReadPhase::Looking,
        ensures
            forall|idle: bool, writing: Seq<char>|
                (final(self)@, step_views(out@)) == #[trigger] old(self)@.surveyed(
                    inv@,
                    idle,
                    writing,
                ),
    {
        match reading::slot_of(inv, self.barcode.as_str()) {
            Ok(from) => {
                self.from = from;
            },
            Err(e) => {
                return self.over(Err(e));
            },
        }
        let read = self.read.take();
        match read {
            Some(t) => {
                if inv.find_device(t.dev) < inv.drives.len() {
                    self.target = Some(t.dev);
                    self.leaving = t.barcode;
                    self.phase = ReadPhase::Clearing;
                    return one(ReadStep::Unload { dev: t.dev });
                }
            },
            None => {},
        }
        self.phase = ReadPhase::Choosing;
        one(ReadStep::Survey)
    }

    fn surveyed(&mut self, inv: &Inventory, idle: bool, writing: &str) -> (out: Vec<ReadStep>)
        ensures
            (final(self)@, step_views(out@)) == old(self)@.surveyed(inv@, idle, writing@),
    {
        match self.phase {
            ReadPhase::Looking => self.look(inv),
            ReadPhase::Choosing => {
                let t = reading::choose_target(
                    inv,
                    self.target,
                    self.drive,
                    idle,
                    writing,
                    self.barcode.as_str(),
                );
                match t {
                    Target::Device { dev } => {
                        self.target = Some(dev);
                        self.phase = ReadPhase::Aiming;
                        one(ReadStep::Survey)
                    },
                    Target::Swap { dev } => {
                        self.found = inv.find_device(dev) < inv.drives.len();
                        self.phase = ReadPhase::Checkpointing;
                        one(ReadStep::Checkpoint)
                    },
                    Target::Refused(e) => self.over(Err(e)),
                }
            },
            ReadPhase::Aiming => match self.target {
                Some(dev) => match reading::address_of(inv, dev) {
                    Ok(to) => {
                        self.phase = ReadPhase::Loading;
                        one(ReadStep::Load { from: self.from, to, dev })
                    },
                    Err(e) => self.over(Err(e)),
                },
                None => nothing(),
            },
            ReadPhase::Returning => match self.target {
                Some(dev) => if inv.find_device(dev) < inv.drives.len() {
                    self.phase = ReadPhase::Leaving;
                    one(ReadStep::Unload { dev })
                } else {
                    self.phase = ReadPhase::Restoring;
                    one(ReadStep::Restore)
                },
                None => nothing(),
            },
            _ => nothing(),
        }
    }

    fn unloaded(&mut self, r: Result<(), TapeError>) -> (out: Vec<ReadStep>)
        ensures
            (final(self)@, step_views(out@)) == old(self)@.next(
                ReadEventView::Unloaded(plain(r)),
            ),
    {
        match self.phase {
            ReadPhase::Clearing => match r {
                Ok(_) => {
                    self.phase = ReadPhase::Choosing;
                    one(ReadStep::Survey)
                },
                Err(e) => {
                    let context = text::cat3("卸下读带 ", self.leaving.as_str(), " 失败");
                    self.failed(&e, context.as_str())
                },
            },
            ReadPhase::GivingWay => match r {
                Ok(_) => {
                    self.gave_way();
                    one(ReadStep::Survey)
                },
                Err(e) => self.failed(&e, "卸下写入带失败"),
            },
            ReadPhase::Leaving => match r {
                Ok(_) => {
                    self.phase = ReadPhase::Restoring;
                    one(ReadStep::Restore)
                },
                Err(e) => self.failed(&e, "读取后卸带失败"),
            },
            _ => nothing(),
        }
    }

    fn checkpointed(&mut self, r: Result<(), TapeError>) -> (out: Vec<ReadStep>)
        ensures
            (final(self)@, step_views(out@)) == old(self)@.next(
                ReadEventView::Checkpointed(plain(r)),
            ),
    {
        if self.phase != ReadPhase::Checkpointing {
            return nothing();
        }
        match r {
            Ok(_) => match self.drive {
                Some(w) => {
                    let close = ReadStep::Close("暂时换带读取".to_owned());
                    if self.found {
                        self.phase = ReadPhase::GivingWay;
                        two(close, ReadStep::Unload { dev: w })
                    } else {
                        self.gave_way();
                        two(close, ReadStep::Survey)
                    }
                },
                None => nothing(),
            },
            Err(e) => {
                let why = text::cat2("写入带检查点失败: ", e.message().as_str());
                self.phase = ReadPhase::Over;
                three(
                    ReadStep::Close(why.clone()),
                    ReadStep::Lost(why.clone()),
                    ReadStep::Done(Err(ReadError::Failed(why))),
                )
            },
        }
    }

    fn loaded(&mut self, generation: Result<u64, TapeError>, listed: u64, now: u64) -> (out:
        Vec<ReadStep>)
        ensures
            (final(self)@, step_views(out@)) == old(self)@.next(
                ReadEventView::Loaded { generation: plain(generation), listed, now },
            ),
    {
        if self.phase != ReadPhase::Loading {
            return nothing();
        }
        match generation {
            Err(e) => {
                let context = text::cat3("装载 ", self.barcode.as_str(), " 读取失败");
                let r: Result<u64, ReadError> = Err(ReadError::device(&e, context.as_str()));
                self.finished(r, now)
            },
            Ok(g) => match self.target {
                Some(dev) => {
                    self.phase = ReadPhase::FromFetched;
                    if reading::needs_report(listed, g) {
                        two(ReadStep::Report { dev }, ReadStep::Read { dev })
                    } else {
                        one(ReadStep::Read { dev })
                    }
                },
                None => nothing(),
            },
        }
    }

    fn got(&mut self, bytes: Result<u64, TapeError>, now: u64) -> (out: Vec<ReadStep>)
        ensures
            (final(self)@, step_views(out@)) == old(self)@.next(
                ReadEventView::Read { bytes: plain(bytes), now },
            ),
    {
        let r: Result<u64, ReadError> = match bytes {
            Ok(n) => Ok(n),
            Err(e) => Err(ReadError::device(&e, "读取文件失败")),
        };
        match self.phase {
            ReadPhase::FromWritten => self.over(r),
            ReadPhase::FromLoaded => {
                if r.is_ok() {
                    match self.read.take() {
                        Some(t) => {
                            self.read = Some(ReadTape { dev: t.dev, barcode: t.barcode, used: now });
                        },
                        None => {},
                    }
                }
                self.over(r)
            },
            ReadPhase::FromFetched => self.finished(r, now),
            _ => nothing(),
        }
    }

    fn restored(&mut self, r: Result<String, TapeError>) -> (out: Vec<ReadStep>)
        ensures
            (final(self)@, step_views(out@)) == old(self)@.next(
                ReadEventView::Restored(
                    match r {
                        Ok(s) => Ok(s@),
                        Err(e) => Err(e@),
                    },
                ),
            ),
    {
        if self.phase != ReadPhase::Restoring {
            return nothing();
        }
        match r {
            Err(e) => self.failed(&e, "读取后恢复写入带失败"),
            Ok(s) => {
                let got = match &self.result {
                    Some(Ok(n)) => Some(Ok(*n)),
                    Some(Err(e)) => Some(Err(e.dup())),
                    None => None,
                };
                match got {
                    Some(got) => {
                        self.phase = ReadPhase::Over;
                        two(ReadStep::Serving(s), ReadStep::Done(got))
                    },
                    None => nothing(),
                }
            },
        }
    }

    /// Goes on after an event, and tells what is done. An event that is not waited for changes
    /// nothing.
    pub fn on(&mut self, ev: ReadEvent) -> (out: Vec<ReadStep>)
        ensures
            (final(self)@, step_views(out@)) == old(self)@.next(ev@),
    {
        match ev {
            ReadEvent::Surveyed { inv, idle, writing } => match inv {
                Ok(inv) => self.surveyed(&inv, idle, writing.as_str()),
                Err(e) => match self.phase {
                    ReadPhase::Looking
                    | ReadPhase::Choosing
                    | ReadPhase::Aiming
                    | ReadPhase::Returning => self.failed(&e, "读取库存失败"),
                    _ => nothing(),
                },
            },
            ReadEvent::Unloaded(r) => self.unloaded(r),
            ReadEvent::Checkpointed(r) => self.checkpointed(r),
            ReadEvent::Loaded { generation, listed, now } => self.loaded(generation, listed, now),
            ReadEvent::Read { bytes, now } => self.got(bytes, now),
            ReadEvent::Restored(r) => self.restored(r),
        }
    }
}

/// What holds of every read under way: the tape for reading and the drive that is chosen are not in
/// the way of the tape that is written, which is in its drive until it gave way.
pub open spec fn sound(s: ReadRunView) -> bool {
    &&& s.read is Some && s.drive is Some ==> s.read->0.dev != s.drive->0
    &&& s.swapped ==> s.drive is None
    &&& s.target is Some && s.drive is Some ==> s.target->0 != s.drive->0
    &&& s.phase == ReadPhase::Clearing ==> s.target is Some && !s.swapped
    &&& s.phase == ReadPhase::Looking || s.phase == ReadPhase::Choosing ==> !s.swapped
    &&& s.phase == ReadPhase::Checkpointing || s.phase == ReadPhase::GivingWay ==> s.drive is Some
    &&& s.phase == ReadPhase::Aiming || s.phase == ReadPhase::Loading || s.phase
        == ReadPhase::FromFetched ==> s.target is Some
    &&& s.phase == ReadPhase::Returning || s.phase == ReadPhase::Leaving || s.phase
        == ReadPhase::Restoring ==> s.target is Some && s.swapped && s.result is Some
    &&& s.phase == ReadPhase::FromWritten || s.phase == ReadPhase::FromLoaded ==> !s.swapped
}

/// The event is the one that a phase waits for.
pub open spec fn awaited(phase: ReadPhase, ev: ReadEventView) -> bool {
    match phase {
        ReadPhase::FromWritten | ReadPhase::FromLoaded | ReadPhase::FromFetched => ev is Read,
        ReadPhase::Looking | ReadPhase::Choosing | ReadPhase::Aiming | ReadPhase::Returning => ev
            is Surveyed,
        ReadPhase::Clearing | ReadPhase::GivingWay | ReadPhase::Leaving => ev is Unloaded,
        ReadPhase::Checkpointing => ev is Checkpointed,
        ReadPhase::Loading => ev is Loaded,
        ReadPhase::Restoring => ev is Restored,
        ReadPhase::Over => false,
    }
}

/// Where the tape that is written does not give way, another drive takes the tape.
proof fn lemma_target(
    inv: InventoryView,
    cleared: Option<usize>,
    drive: Option<usize>,
    idle: bool,
    writing: Seq<char>,
    barcode: Seq<char>,
)
    requires
        cleared is Some && drive is Some ==> cleared->0 != drive->0,
    ensures
        reading::target_of(inv, cleared, drive, idle, writing, barcode) matches TargetView::Device {
            dev,
        } ==> (drive is Some ==> dev != drive->0),
        reading::target_of(inv, cleared, drive, idle, writing, barcode) matches TargetView::Swap {
            dev,
        } ==> drive == Some(dev),
{
    let f = |d: DriveView| d.loaded is None && Some(d.dev) != drive;
    library::lemma_first_drive(inv.drives, f);
    let free = inv.free_drive_but(drive) as int;
    if free < inv.drives.len() {
        assert(f(inv.drives[free]));
    }
}

/// A read begins sound and stays so, and as long as it is not over it goes on with whatever it waits
/// for.
pub proof fn law_read_goes_on_soundly(
    plan: ReadPlanView,
    drive: Option<usize>,
    read: Option<ReadTapeView>,
    s: ReadRunView,
    ev: ReadEventView,
)
    requires
        read is Some && drive is Some ==> read->0.dev != drive->0,
        sound(s),
    ensures
        sound(begun(plan, drive, read).0),
        begun(plan, drive, read).1.len() > 0,
        sound(s.next(ev).0),
        awaited(s.phase, ev) ==> s.next(ev).1.len() > 0,
        !awaited(s.phase, ev) ==> s.next(ev) == (s, Seq::<ReadStepView>::empty()),
{
    match ev {
        ReadEventView::Surveyed { inv, idle, writing } => {
            if inv is Ok {
                lemma_target(inv->Ok_0, s.target, s.drive, idle, writing, s.barcode);
            }
        },
        _ => {},
    }
}

/// The tape that is written leaves its drive only when it has got a full index and the service has
/// been closed.
pub proof fn law_written_tape_leaves_in_order(s: ReadRunView, ev: ReadEventView, w: usize)
    requires
        sound(s),
        s.drive == Some(w),
        s.next(ev).1.contains(ReadStepView::Unload { dev: w }),
    ensures
        s.phase == ReadPhase::Checkpointing,
        ev matches ReadEventView::Checkpointed(r) && r is Ok,
        s.next(ev).1 == seq![
            ReadStepView::Close("暂时换带读取"@),
            ReadStepView::Unload { dev: w },
        ],
{
    let v = s.next(ev).1;
    let i = choose|i: int| 0 <= i < v.len() && v[i] == (ReadStepView::Unload { dev: w });
    assert(v[i] is Unload);
    assert(v =~= seq![ReadStepView::Close("暂时换带读取"@), ReadStepView::Unload { dev: w }]);
}

/// A checkpoint that fails ends the round: the service closes, the loss is reported, and the read
/// fails. The tape stays where it is.
pub proof fn law_failed_checkpoint_ends_the_round(s: ReadRunView, e: TapeErrorView)
    requires
        s.phase == ReadPhase::Checkpointing,
    ensures
        ({
            let why = "写入带检查点失败: "@ + e.message();
            s.next(ReadEventView::Checkpointed(Err(e))) == (
                s.at(ReadPhase::Over),
                seq![
                    ReadStepView::Close(why),
                    ReadStepView::Lost(why),
                    ReadStepView::Done(Err(ReadErrorView::Failed(why))),
                ],
            )
        }),
{
}

/// A round is never lost but with the service closed first, for the same reason, and the read then
/// fails.
pub proof fn law_loss_closes_before_it_is_told(s: ReadRunView, ev: ReadEventView, why: Seq<char>)
    requires
        s.next(ev).1.contains(ReadStepView::Lost(why)),
    ensures
        s.next(ev).1.len() == 3,
        s.next(ev).1[0] == ReadStepView::Close(why),
        s.next(ev).1[1] == ReadStepView::Lost(why),
        s.next(ev).1[2] matches ReadStepView::Done(r) && r is Err,
        s.next(ev).0.phase == ReadPhase::Over,
{
    let v = s.next(ev).1;
    let i = choose|i: int| 0 <= i < v.len() && v[i] == ReadStepView::Lost(why);
    assert(v[i] is Lost);
}

/// Where the tape that is written gave way, a read succeeds only once there is a tape to write to
/// again.
pub proof fn law_drive_is_given_back(s: ReadRunView, ev: ReadEventView, n: u64)
    requires
        sound(s),
        s.swapped,
        s.next(ev).1.contains(ReadStepView::Done(Ok(n))),
    ensures
        s.phase == ReadPhase::Restoring,
        ev matches ReadEventView::Restored(Ok(said)) && s.next(ev).1 == seq![
            ReadStepView::Serving(said),
            ReadStepView::Done(Ok(n)),
        ],
{
    let v = s.next(ev).1;
    let i = choose|i: int| 0 <= i < v.len() && v[i] == ReadStepView::Done(Ok(n));
    assert(v[i] is Done);
    match ev {
        ReadEventView::Restored(r) => {
            assert(v =~= seq![ReadStepView::Serving(r->Ok_0), ReadStepView::Done(Ok(n))]);
        },
        _ => {},
    }
}

} // verus!
