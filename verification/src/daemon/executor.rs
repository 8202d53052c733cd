//! The device thread: only it touches the devices. It takes them over when it is told to, serves
//! while it holds them, and stops as soon as it no longer does.
use vstd::prelude::*;

use crate::daemon::library::{DeviceKind, DeviceView, Inventory, ManagedDevice};
use crate::daemon::node::{EventView, ExecEvent};
use crate::daemon::nodes;
use crate::daemon::reading::{ReadError, ReadErrorView, ReadTape, ReadTapeView};
use crate::daemon::reading;
use crate::daemon::reclaim::{Desk, DeskView};
use crate::error::{TapeError, TapeErrorView};
use crate::text;

verus! {

/// What the device thread is asked for.
#[derive(Debug, Clone, PartialEq, Eq)]
pub enum ExecRequest {
    /// This node executes in `round`: all devices are fenced.
    Takeover { round: u64 },
    /// The fence is confirmed: the volume is recovered, and service begins.
    Recover { round: u64 },
    /// This node no longer executes in `round`, or in any where none is given. Nothing more is done
    /// with the devices.
    Stop { round: Option<u64>, reason: String },
    /// There is something to write.
    Work,
    /// A file is read.
    Read { path: String },
    /// The node shuts down in order.
    Shutdown,
}

/// How the device thread works.
#[derive(Debug, Clone, Copy, PartialEq, Eq, Structural)]
pub struct ExecOptions {
    pub node_id: u8,
    /// Milliseconds between two rounds of periodic work.
    pub interval: u64,
    /// A small file is written with the periodic work.
    pub demo_write: bool,
    /// What is not in an index at the end of a tape is kept.
    pub salvage: bool,
    pub block_size: u32,
    /// Milliseconds after which an idle tape for reading goes back.
    pub read_idle: u64,
}

/// A round in which the thread holds the devices.
#[derive(Debug)]
pub struct Active {
    pub round: u64,
    pub serving: bool,
    /// The device of the tape that is written.
    pub drive: Option<usize>,
    pub read: Option<ReadTape>,
    /// The number of the last version of this round.
    pub seq: u64,
    pub desk: Desk,
}

#[verifier::ext_equal]
pub struct ActiveView {
    pub round: u64,
    pub serving: bool,
    pub drive: Option<usize>,
    pub read: Option<ReadTapeView>,
    pub seq: u64,
    pub desk: DeskView,
}

impl View for Active {
    type V = ActiveView;

    open spec fn view(&self) -> ActiveView {
        ActiveView {
            round: self.round,
            serving: self.serving,
            drive: self.drive,
            read: reading::read_tape(self.read),
            seq: self.seq,
            desk: self.desk@,
        }
    }
}

/// A round at its beginning.
pub open spec fn fresh(round: u64) -> ActiveView {
    ActiveView {
        round,
        serving: false,
        drive: None,
        read: None,
        seq: 0,
        desk: DeskView { current: None, failures: 0, given_up: None },
    }
}

/// Something that the thread does.
#[derive(Debug)]
pub enum ExecStep {
    /// The file service is closed, for this reason.
    Close { reason: String },
    /// All devices are fenced for a round.
    Fence { round: u64 },
    /// A tape to write is looked for.
    ChooseTape,
    /// What is staged is written, and the service is asked whether the tape is to be changed.
    Write,
    /// The tape that is written goes into this state, and another takes its place.
    ChangeTape { state: String },
    /// There is no tape to write: one is looked for again.
    ChooseAgain,
    /// The holders of the devices are looked at, with what else is done periodically.
    CheckDevices,
    /// A reclamation goes on, or begins.
    Reclaim,
    Read { path: String },
    /// A read is answered.
    Refuse(ReadError),
    Report(ExecEvent),
    /// What is staged is written, the tapes leave the drives, and the devices are released.
    ShutDown,
    /// The thread ends.
    Exit,
}

#[verifier::ext_equal]
pub enum ExecStepView {
    Close { reason: Seq<char> },
    Fence { round: u64 },
    ChooseTape,
    Write,
    ChangeTape { state: Seq<char> },
    ChooseAgain,
    CheckDevices,
    Reclaim,
    Read { path: Seq<char> },
    Refuse(ReadErrorView),
    Report(EventView),
    ShutDown,
    Exit,
}

impl View for ExecStep {
    type V = ExecStepView;

    open spec fn view(&self) -> ExecStepView {
        match *self {
            ExecStep::Close { reason } => ExecStepView::Close { reason: reason@ },
            ExecStep::Fence { round } => ExecStepView::Fence { round },
            ExecStep::ChooseTape => ExecStepView::ChooseTape,
            ExecStep::Write => ExecStepView::Write,
            ExecStep::ChangeTape { state } => ExecStepView::ChangeTape { state: state@ },
            ExecStep::ChooseAgain => ExecStepView::ChooseAgain,
            ExecStep::CheckDevices => ExecStepView::CheckDevices,
            ExecStep::Reclaim => ExecStepView::Reclaim,
            ExecStep::Read { path } => ExecStepView::Read { path: path@ },
            ExecStep::Refuse(e) => ExecStepView::Refuse(e@),
            ExecStep::Report(e) => ExecStepView::Report(e@),
            ExecStep::ShutDown => ExecStepView::ShutDown,
            ExecStep::Exit => ExecStepView::Exit,
        }
    }
}

pub open spec fn step_views(v: Seq<ExecStep>) -> Seq<ExecStepView> {
    v.map_values(|s: ExecStep| s@)
}

/// What a cycle of work waits for, in this order.
#[derive(Debug, Clone, Copy, PartialEq, Eq, Structural)]
pub enum CyclePhase {
    /// No cycle is under way.
    Idle,
    Writing,
    Changing,
    Choosing,
    Checking,
    Reclaiming,
}

/// A cycle of work.
#[derive(Debug, Clone, Copy, PartialEq, Eq, Structural)]
pub struct Cycle {
    pub phase: CyclePhase,
    /// It began because time had passed, not because there was something to write.
    pub timed: bool,
    /// Periodic work is due in it.
    pub periodic: bool,
}

/// No cycle is under way.
pub open spec fn no_cycle() -> Cycle {
    Cycle { phase: CyclePhase::Idle, timed: false, periodic: false }
}

/// What came of a step in a cycle of work.
#[derive(Debug)]
pub enum CycleEvent {
    /// Time has passed without a request.
    Timeout { now: u64 },
    /// What was staged is written, or not; the service may ask to change the tape, which goes into
    /// this state.
    Wrote { result: Result<(), String>, change: Option<String> },
    /// Another tape is written, in this device, or there is none.
    Changed(Result<(String, Option<usize>), String>),
    /// A tape to write was looked for again.
    Chosen(Result<(String, Option<usize>), TapeError>),
    Checked(Result<(), String>),
    /// A part of a reclamation is done, and there may be more.
    Reclaimed { result: Result<bool, String>, now: u64 },
}

#[verifier::ext_equal]
pub enum CycleEventView {
    Timeout { now: u64 },
    Wrote { result: Result<(), Seq<char>>, change: Option<Seq<char>> },
    Changed(Result<(Seq<char>, Option<usize>), Seq<char>>),
    Chosen(Result<(Seq<char>, Option<usize>), TapeErrorView>),
    Checked(Result<(), Seq<char>>),
    Reclaimed { result: Result<bool, Seq<char>>, now: u64 },
}

impl View for CycleEvent {
    type V = CycleEventView;

    open spec fn view(&self) -> CycleEventView {
        match *self {
            CycleEvent::Timeout { now } => CycleEventView::Timeout { now },
            CycleEvent::Wrote { result, change } => CycleEventView::Wrote {
                result: match result {
                    Ok(_) => Ok(()),
                    Err(e) => Err(e@),
                },
                change: nodes::text_view(change),
            },
            CycleEvent::Changed(r) => CycleEventView::Changed(
                match r {
                    Ok((summary, drive)) => Ok((summary@, drive)),
                    Err(e) => Err(e@),
                },
            ),
            CycleEvent::Chosen(r) => CycleEventView::Chosen(
                match r {
                    Ok((summary, drive)) => Ok((summary@, drive)),
                    Err(e) => Err(e@),
                },
            ),
            CycleEvent::Checked(r) => CycleEventView::Checked(
                match r {
                    Ok(_) => Ok(()),
                    Err(e) => Err(e@),
                },
            ),
            CycleEvent::Reclaimed { result, now } => CycleEventView::Reclaimed {
                result: match result {
                    Ok(more) => Ok(more),
                    Err(e) => Err(e@),
                },
                now,
            },
        }
    }
}

/// The device thread as far as it decides.
#[derive(Debug)]
pub struct DeviceThread {
    pub active: Option<Active>,
    /// When periodic work is due, in milliseconds.
    pub next_work: u64,
    pub interval: u64,
    pub cycle: Cycle,
}

#[verifier::ext_equal]
pub struct ThreadView {
    pub active: Option<ActiveView>,
    pub next_work: u64,
    pub interval: u64,
    pub cycle: Cycle,
}

impl View for DeviceThread {
    type V = ThreadView;

    open spec fn view(&self) -> ThreadView {
        ThreadView {
            active: match self.active {
                Some(a) => Some(a@),
                None => None,
            },
            next_work: self.next_work,
            interval: self.interval,
            cycle: self.cycle,
        }
    }
}

/// The time so many milliseconds later.
pub open spec fn later(now: u64, ms: u64) -> u64 {
    if now + ms > u64::MAX {
        u64::MAX
    } else {
        (now + ms) as u64
    }
}

impl ThreadView {
    pub open spec fn serves(self) -> bool {
        self.active is Some && self.active->0.serving
    }

    /// The thread holds no round any more.
    pub open spec fn without_round(self) -> ThreadView {
        ThreadView { active: None, cycle: no_cycle(), ..self }
    }

    /// The thread gives up its round.
    pub open spec fn lost(self, round: u64, reason: Seq<char>) -> (ThreadView, Seq<ExecStepView>) {
        (
            self.without_round(),
            seq![
                ExecStepView::Close { reason },
                ExecStepView::Report(EventView::Lost { round, reason }),
            ],
        )
    }

    /// What follows from a request.
    pub open spec fn on_request(self, req: ExecRequest) -> (ThreadView, Seq<ExecStepView>) {
        match req {
            ExecRequest::Takeover { round } => (
                self.without_round(),
                seq![
                    ExecStepView::Close { reason: "正在接管"@ },
                    ExecStepView::Fence { round },
                ],
            ),
            ExecRequest::Recover { round } => if self.active is Some && self.active->0.round
                == round {
                (self, seq![ExecStepView::ChooseTape])
            } else {
                (
                    self,
                    seq![
                        ExecStepView::Report(
                            EventView::Lost {
                                round,
                                reason: "执行线程没有该轮次的隔离状态"@,
                            },
                        ),
                    ],
                )
            },
            ExecRequest::Stop { round, reason } => if round is Some && !(self.active is Some
                && self.active->0.round == round->0) {
                (self, Seq::empty())
            } else {
                (
                    self.without_round(),
                    seq![ExecStepView::Close { reason: reason@ }],
                )
            },
            ExecRequest::Work => if self.serves() {
                (
                    self.waiting_for(CyclePhase::Writing, false, false),
                    seq![ExecStepView::Write],
                )
            } else {
                (self, Seq::empty())
            },
            ExecRequest::Read { path } => if self.serves() {
                (self, seq![ExecStepView::Read { path: path@ }])
            } else {
                (
                    self,
                    seq![
                        ExecStepView::Refuse(
                            ReadErrorView::Busy("本节点不在服务"@),
                        ),
                    ],
                )
            },
            ExecRequest::Shutdown => (
                self.without_round(),
                if self.active is Some {
                    seq![ExecStepView::ShutDown, ExecStepView::Exit]
                } else {
                    seq![ExecStepView::Exit]
                },
            ),
        }
    }

    /// A cycle waits for this.
    pub open spec fn waiting_for(self, phase: CyclePhase, timed: bool, periodic: bool) -> ThreadView {
        ThreadView { cycle: Cycle { phase, timed, periodic }, ..self }
    }

    /// The cycle goes on to this phase.
    pub open spec fn on_to(self, phase: CyclePhase) -> ThreadView {
        ThreadView { cycle: Cycle { phase, ..self.cycle }, ..self }
    }

    /// The cycle is over.
    pub open spec fn at_rest(self) -> ThreadView {
        ThreadView { cycle: no_cycle(), ..self }
    }

    /// The tape that is written is in this device, or there is none.
    pub open spec fn writing_in(self, drive: Option<usize>) -> ThreadView {
        ThreadView { active: Some(ActiveView { drive, ..self.active->0 }), ..self }
    }

    /// Reclamation has its turn where one is under way or periodic work is due; then the cycle
    /// is over.
    pub open spec fn after_checks(self) -> (ThreadView, Seq<ExecStepView>) {
        if self.active->0.desk.current is Some || self.cycle.periodic {
            (self.on_to(CyclePhase::Reclaiming), seq![ExecStepView::Reclaim])
        } else {
            (self.at_rest(), Seq::empty())
        }
    }

    /// Writing went well, and with it the change of the tape. A cycle that began with something to
    /// write is over. In another the periodic work follows where it is due: a tape is looked for
    /// again where none is written, and the devices are checked.
    pub open spec fn after_writing(self) -> (ThreadView, Seq<ExecStepView>) {
        if !self.cycle.timed {
            (self.at_rest(), Seq::empty())
        } else if !self.cycle.periodic {
            self.after_checks()
        } else if self.active->0.drive is None {
            (self.on_to(CyclePhase::Choosing), seq![ExecStepView::ChooseAgain])
        } else {
            (self.on_to(CyclePhase::Checking), seq![ExecStepView::CheckDevices])
        }
    }

    /// What follows in a cycle of work. Whatever fails ends the round.
    pub open spec fn on_cycle(self, ev: CycleEventView) -> (ThreadView, Seq<ExecStepView>) {
        let round = self.active->0.round;
        match ev {
            CycleEventView::Timeout { now } => if !self.serves() {
                (ThreadView { next_work: later(now, self.interval), ..self }, Seq::empty())
            } else {
                let periodic = now >= self.next_work;
                (
                    ThreadView {
                        next_work: if periodic {
                            later(now, self.interval)
                        } else {
                            self.next_work
                        },
                        ..self.waiting_for(CyclePhase::Writing, true, periodic)
                    },
                    seq![ExecStepView::Write],
                )
            },
            CycleEventView::Wrote { result, change } => if self.active is None || self.cycle.phase
                != CyclePhase::Writing {
                (self, Seq::empty())
            } else {
                match (result, change) {
                    (Err(e), _) => self.lost(round, e),
                    (Ok(_), Some(state)) => (
                        self.on_to(CyclePhase::Changing),
                        seq![ExecStepView::ChangeTape { state }],
                    ),
                    (Ok(_), None) => self.after_writing(),
                }
            },
            CycleEventView::Changed(r) => if self.active is None || self.cycle.phase
                != CyclePhase::Changing {
                (self, Seq::empty())
            } else {
                match r {
                    Err(e) => self.lost(round, e),
                    Ok((summary, drive)) => {
                        let (t, steps) = self.writing_in(drive).after_writing();
                        (
                            t,
                            seq![ExecStepView::Report(EventView::Serving { round, summary })]
                                + steps,
                        )
                    },
                }
            },
            CycleEventView::Chosen(r) => if self.active is None || self.cycle.phase
                != CyclePhase::Choosing {
                (self, Seq::empty())
            } else {
                match r {
                    Err(e) => self.lost(round, e.message()),
                    Ok((summary, drive)) => (
                        self.writing_in(drive).on_to(CyclePhase::Checking),
                        if drive is Some {
                            seq![
                                ExecStepView::Report(EventView::Serving { round, summary }),
                                ExecStepView::CheckDevices,
                            ]
                        } else {
                            seq![ExecStepView::CheckDevices]
                        },
                    ),
                }
            },
            CycleEventView::Checked(r) => if self.active is None || self.cycle.phase
                != CyclePhase::Checking {
                (self, Seq::empty())
            } else {
                match r {
                    Err(e) => self.lost(round, e),
                    Ok(_) => self.after_checks(),
                }
            },
            CycleEventView::Reclaimed { result, now } => if self.active is None
                || self.cycle.phase != CyclePhase::Reclaiming {
                (self, Seq::empty())
            } else {
                match result {
                    Err(e) => self.lost(round, e),
                    Ok(more) => (
                        ThreadView {
                            next_work: if more {
                                now
                            } else {
                                self.next_work
                            },
                            ..self.at_rest()
                        },
                        Seq::empty(),
                    ),
                }
            },
        }
    }
}

fn push_step(v: &mut Vec<ExecStep>, s: ExecStep)
    ensures
        step_views(final(v)@) == step_views(old(v)@).push(s@),
{
    let ghost was = v@;
    let ghost x = s@;
    v.push(s);
    assert(step_views(v@) =~= step_views(was).push(x));
}

fn no_steps() -> (r: Vec<ExecStep>)
    ensures
        step_views(r@) == Seq::<ExecStepView>::empty(),
{
    let r: Vec<ExecStep> = Vec::new();
    assert(step_views(r@) =~= Seq::<ExecStepView>::empty());
    r
}

fn one_step(s: ExecStep) -> (r: Vec<ExecStep>)
    ensures
        step_views(r@) == seq![s@],
{
    let ghost x = s@;
    let mut r = no_steps();
    push_step(&mut r, s);
    assert(step_views(r@) =~= seq![x]);
    r
}

impl DeviceThread {
    pub fn new(interval: u64, now: u64) -> (r: Self)
        ensures
            r@ == (ThreadView {
                active: None,
                next_work: later(now, interval),
                interval,
                cycle: no_cycle(),
            }),
    {
        DeviceThread {
            active: None,
            next_work: now.saturating_add(interval),
            interval,
            cycle: Cycle { phase: CyclePhase::Idle, timed: false, periodic: false },
        }
    }

    fn is_serving(&self) -> (r: bool)
        ensures
            r == self@.serves(),
    {
        match &self.active {
            Some(a) => a.serving,
            None => false,
        }
    }

    fn rest(&mut self)
        ensures
            final(self)@ == old(self)@.at_rest(),
    {
        self.cycle = Cycle { phase: CyclePhase::Idle, timed: false, periodic: false };
    }

    fn drop_round(&mut self)
        ensures
            final(self)@ == old(self)@.without_round(),
    {
        self.active = None;
        self.rest();
    }

    fn give_up(&mut self, round: u64, reason: String) -> (r: Vec<ExecStep>)
        ensures
            (final(self)@, step_views(r@)) == old(self)@.lost(round, reason@),
    {
        self.drop_round();
        let ghost why = reason@;
        let mut out = one_step(ExecStep::Close { reason: reason.clone() });
        push_step(&mut out, ExecStep::Report(ExecEvent::Lost { round, reason }));
        assert(step_views(out@) =~= seq![
            ExecStepView::Close { reason: why },
            ExecStepView::Report(EventView::Lost { round, reason: why }),
        ]);
        out
    }

    /// What follows from a request. A request to stop an older round than the one under way is
    /// passed over; one to recover a round that is not there is answered.
    pub fn on_request(&mut self, req: &ExecRequest) -> (r: Vec<ExecStep>)
        ensures
            (final(self)@, step_views(r@)) == old(self)@.on_request(*req),
    {
        match req {
            ExecRequest::Takeover { round } => {
                self.drop_round();
                let mut out = one_step(ExecStep::Close { reason: "正在接管".to_owned() });
                push_step(&mut out, ExecStep::Fence { round: *round });
                assert(step_views(out@) =~= seq![
                    ExecStepView::Close { reason: "正在接管"@ },
                    ExecStepView::Fence { round: *round },
                ]);
                out
            },
            ExecRequest::Recover { round } => {
                let held = match &self.active {
                    Some(a) => a.round == *round,
                    None => false,
                };
                if held {
                    one_step(ExecStep::ChooseTape)
                } else {
                    one_step(
                        ExecStep::Report(
                            ExecEvent::Lost {
                                round: *round,
                                reason: "执行线程没有该轮次的隔离状态".to_owned(),
                            },
                        ),
                    )
                }
            },
            ExecRequest::Stop { round, reason } => {
                let other = match round {
                    Some(n) => match &self.active {
                        Some(a) => a.round != *n,
                        None => true,
                    },
                    None => false,
                };
                if other {
                    return no_steps();
                }
                self.drop_round();
                one_step(ExecStep::Close { reason: reason.clone() })
            },
            ExecRequest::Work => {
                if self.is_serving() {
                    self.cycle =
                    Cycle { phase: CyclePhase::Writing, timed: false, periodic: false };
                    one_step(ExecStep::Write)
                } else {
                    no_steps()
                }
            },
            ExecRequest::Read { path } => {
                if self.is_serving() {
                    one_step(ExecStep::Read { path: path.clone() })
                } else {
                    one_step(
                        ExecStep::Refuse(ReadError::Busy("本节点不在服务".to_owned())),
                    )
                }
            },
            ExecRequest::Shutdown => {
                let held = self.active.is_some();
                self.drop_round();
                if held {
                    let mut out = one_step(ExecStep::ShutDown);
                    push_step(&mut out, ExecStep::Exit);
                    assert(step_views(out@) =~= seq![
                        ExecStepView::ShutDown,
                        ExecStepView::Exit,
                    ]);
                    out
                } else {
                    one_step(ExecStep::Exit)
                }
            },
        }
    }

    /// The devices are fenced for a round, or not.
    pub fn on_fenced(&mut self, round: u64, r: Result<(), TapeError>) -> (e: ExecEvent)
        ensures
            match r {
                Ok(_) => {
                    &&& final(self)@ == (ThreadView { active: Some(fresh(round)), ..old(self)@ })
                    &&& e@ == (EventView::Fenced { round })
                },
                Err(x) => {
                    &&& final(self)@ == old(self)@
                    &&& e@ == (EventView::FenceFailed { round, reason: x@.message() })
                },
            },
    {
        match r {
            Ok(_) => {
                self.active = Some(
                    Active {
                        round,
                        serving: false,
                        drive: None,
                        read: None,
                        seq: 0,
                        desk: Desk::new(),
                    },
                );
                ExecEvent::Fenced { round }
            },
            Err(x) => ExecEvent::FenceFailed { round, reason: x.message() },
        }
    }

    /// A tape to write was chosen after a recovery, in this device, or there is none; or the
    /// recovery failed.
    pub fn on_recovered(
        &mut self,
        r: Result<(String, Option<usize>), TapeError>,
        now: u64,
    ) -> (out: Vec<ExecStep>)
        requires
            old(self)@.active is Some,
        ensures
            ({
                let a = old(self)@.active->0;
                match r {
                    Ok((summary, drive)) => {
                        &&& final(self)@ == (ThreadView {
                            active: Some(ActiveView { serving: true, drive, ..a }),
                            next_work: later(now, old(self)@.interval),
                            ..old(self)@
                        })
                        &&& step_views(out@) == seq![
                            ExecStepView::Report(
                                EventView::Serving { round: a.round, summary: summary@ },
                            ),
                        ]
                    },
                    Err(e) => (final(self)@, step_views(out@)) == old(self)@.lost(
                        a.round,
                        "恢复失败: "@ + e@.message(),
                    ),
                }
            }),
    {
        let round: u64 = match &self.active {
            Some(a) => a.round,
            None => 0,
        };
        match r {
            Ok((summary, drive)) => {
                match self.active.take() {
                    Some(mut a) => {
                        a.serving = true;
                        a.drive = drive;
                        self.active = Some(a);
                    },
                    None => {},
                }
                self.next_work = now.saturating_add(self.interval);
                one_step(ExecStep::Report(ExecEvent::Serving { round, summary }))
            },
            Err(e) => {
                let why = text::cat2("恢复失败: ", e.message().as_str());
                self.give_up(round, why)
            },
        }
    }

    fn set_drive(&mut self, drive: Option<usize>)
        requires
            old(self)@.active is Some,
        ensures
            final(self)@ == old(self)@.writing_in(drive),
    {
        match self.active.take() {
            Some(mut a) => {
                a.drive = drive;
                self.active = Some(a);
            },
            None => {},
        }
    }

    fn after_checks(&mut self) -> (r: Vec<ExecStep>)
        requires
            old(self)@.active is Some,
        ensures
            (final(self)@, step_views(r@)) == old(self)@.after_checks(),
    {
        let under_way = match &self.active {
            Some(a) => a.desk.current.is_some(),
            None => false,
        };
        if under_way || self.cycle.periodic {
            self.cycle.phase = CyclePhase::Reclaiming;
            one_step(ExecStep::Reclaim)
        } else {
            self.rest();
            no_steps()
        }
    }

    fn after_writing(&mut self) -> (r: Vec<ExecStep>)
        requires
            old(self)@.active is Some,
        ensures
            (final(self)@, step_views(r@)) == old(self)@.after_writing(),
    {
        let idle = match &self.active {
            Some(a) => a.drive.is_none(),
            None => true,
        };
        if !self.cycle.timed {
            self.rest();
            no_steps()
        } else if !self.cycle.periodic {
            self.after_checks()
        } else if idle {
            self.cycle.phase = CyclePhase::Choosing;
            one_step(ExecStep::ChooseAgain)
        } else {
            self.cycle.phase = CyclePhase::Checking;
            one_step(ExecStep::CheckDevices)
        }
    }

    /// Goes on with a cycle of work: what is staged is written; where that went well and the
    /// service asks for it, the tape is changed; where periodic work is due, a tape is looked for
    /// again if none is written, and the devices are checked; last, reclamation has its turn. What
    /// fails ends the round. A cycle that began because there was something to write ends with
    /// that. An event that does not belong here changes nothing.
    pub fn on_cycle(&mut self, ev: CycleEvent) -> (r: Vec<ExecStep>)
        ensures
            (final(self)@, step_views(r@)) == old(self)@.on_cycle(ev@),
    {
        let serving = self.is_serving();
        let phase = self.cycle.phase;
        let round: u64 = match &self.active {
            Some(a) => a.round,
            None => 0,
        };
        let held = self.active.is_some();
        match ev {
            CycleEvent::Timeout { now } => {
                let due = now >= self.next_work;
                if !serving || due {
                    self.next_work = now.saturating_add(self.interval);
                }
                if !serving {
                    return no_steps();
                }
                self.cycle = Cycle { phase: CyclePhase::Writing, timed: true, periodic: due };
                one_step(ExecStep::Write)
            },
            CycleEvent::Wrote { result, change } => {
                if !held || phase != CyclePhase::Writing {
                    return no_steps();
                }
                match result {
                    Err(e) => self.give_up(round, e),
                    Ok(_) => match change {
                        Some(state) => {
                            self.cycle.phase = CyclePhase::Changing;
                            one_step(ExecStep::ChangeTape { state })
                        },
                        None => self.after_writing(),
                    },
                }
            },
            CycleEvent::Changed(r) => {
                if !held || phase != CyclePhase::Changing {
                    return no_steps();
                }
                match r {
                    Err(e) => self.give_up(round, e),
                    Ok((summary, drive)) => {
                        self.set_drive(drive);
                        let mut out = one_step(
                            ExecStep::Report(ExecEvent::Serving { round, summary }),
                        );
                        let mut more = self.after_writing();
                        let ghost a = step_views(out@);
                        let ghost b = step_views(more@);
                        out.append(&mut more);
                        assert(step_views(out@) =~= a + b);
                        out
                    },
                }
            },
            CycleEvent::Chosen(r) => {
                if !held || phase != CyclePhase::Choosing {
                    return no_steps();
                }
                match r {
                    Err(e) => self.give_up(round, e.message()),
                    Ok((summary, drive)) => {
                        self.set_drive(drive);
                        self.cycle.phase = CyclePhase::Checking;
                        if drive.is_some() {
                            let ghost said = summary@;
                            let mut out = one_step(
                                ExecStep::Report(ExecEvent::Serving { round, summary }),
                            );
                            push_step(&mut out, ExecStep::CheckDevices);
                            assert(step_views(out@) =~= seq![
                                ExecStepView::Report(EventView::Serving { round, summary: said }),
                                ExecStepView::CheckDevices,
                            ]);
                            out
                        } else {
                            one_step(ExecStep::CheckDevices)
                        }
                    },
                }
            },
            CycleEvent::Checked(r) => {
                if !held || phase != CyclePhase::Checking {
                    return no_steps();
                }
                match r {
                    Err(e) => self.give_up(round, e),
                    Ok(_) => self.after_checks(),
                }
            },
            CycleEvent::Reclaimed { result, now } => {
                if !held || phase != CyclePhase::Reclaiming {
                    return no_steps();
                }
                match result {
                    Err(e) => self.give_up(round, e),
                    Ok(more) => {
                        if more {
                            self.next_work = now;
                        }
                        self.rest();
                        no_steps()
                    },
                }
            },
        }
    }

    /// How long the thread may sleep: until periodic work is due, or the queue is.
    pub fn sleep_for(&self, now: u64, due_in: Option<u64>) -> (r: u64)
        ensures
            ({
                let rest = if self@.next_work > now {
                    (self@.next_work - now) as u64
                } else {
                    0
                };
                r == (if self@.serves() && due_in is Some && due_in->0 < rest {
                    due_in->0
                } else {
                    rest
                })
            }),
    {
        let rest: u64 = self.next_work.saturating_sub(now);
        match due_in {
            Some(d) => if self.is_serving() && d < rest {
                d
            } else {
                rest
            },
            None => rest,
        }
    }
}

impl Active {
    /// The next version of this round. Rounds ascend, and in one only this thread writes.
    pub fn next_version(&mut self) -> (r: String)
        requires
            old(self)@.seq < u64::MAX,
        ensures
            final(self)@ == (ActiveView { seq: (old(self)@.seq + 1) as u64, ..old(self)@ }),
            r@ == text::decimal(old(self)@.round as nat) + "."@ + text::decimal(
                (old(self)@.seq + 1) as nat,
            ),
    {
        self.seq = self.seq + 1;
        text::cat3(
            text::decimal_text(self.round).as_str(),
            ".",
            text::decimal_text(self.seq).as_str(),
        )
    }
}

/// The path of the small file that goes with the periodic work.
pub fn demo_path(round: u64, seq: u64) -> (r: String)
    ensures
        r@ == "/ltfsd-demo/round"@ + text::padded(round as nat, 6) + "-"@ + text::padded(
            seq as nat,
            4,
        ) + ".txt"@,
{
    let mut t = text::cat4(
        "/ltfsd-demo/round",
        text::padded_text(round, 6).as_str(),
        "-",
        text::padded_text(seq, 4).as_str(),
    );
    t.push_str(".txt");
    t
}

/// The content of the small file that goes with the periodic work.
pub fn demo_body(node_id: u8, round: u64, seq: u64) -> (r: String)
    ensures
        r@ == "node="@ + text::decimal(node_id as nat) + " round="@ + text::decimal(round as nat)
            + " seq="@ + text::decimal(seq as nat) + "\n"@,
{
    let mut t = text::cat4(
        "node=",
        text::decimal_text(node_id as u64).as_str(),
        " round=",
        text::decimal_text(round).as_str(),
    );
    t.push_str(" seq=");
    t.push_str(text::decimal_text(seq).as_str());
    t.push_str("\n");
    t
}

/// What came of fencing a device.
#[derive(Debug)]
pub enum FenceOutcome {
    Fenced,
    /// The device knows no persistent reservations.
    Unsupported,
    /// A newer round holds it.
    Superseded { node: u8, round: u64 },
    Unconfirmed { reason: String },
}

/// Whether a device counts as fenced. A changer without reservations is checked by its inventory;
/// a drive must have them.
pub open spec fn fence_result(d: DeviceView, o: FenceOutcome) -> Option<TapeErrorView> {
    match o {
        FenceOutcome::Fenced => None,
        FenceOutcome::Unsupported => if d.kind == DeviceKind::Changer {
            None
        } else {
            Some(
                TapeErrorView::NotReady("驱动器 "@ + d.name + " 不支持持久预留"@),
            )
        },
        FenceOutcome::Superseded { node, round } => Some(
            TapeErrorView::NotReady(
                d.name + " 已被更新的轮次持有（节点 "@ + text::decimal(node as nat)
                    + " 轮次 "@ + text::decimal(round as nat) + "）"@,
            ),
        ),
        FenceOutcome::Unconfirmed { reason } => Some(
            TapeErrorView::NotReady(d.name + " 隔离未能确认: "@ + reason@),
        ),
    }
}

/// Whether a device counts as fenced.
pub fn check_fence(d: &ManagedDevice, o: &FenceOutcome) -> (r: Result<(), TapeError>)
    ensures
        match fence_result(d@, *o) {
            None => r is Ok,
            Some(e) => r is Err && r->Err_0@ == e,
        },
{
    match o {
        FenceOutcome::Fenced => Ok(()),
        FenceOutcome::Unsupported => {
            if d.kind == DeviceKind::Changer {
                Ok(())
            } else {
                Err(
                    TapeError::NotReady(
                        text::cat3("驱动器 ", d.name.as_str(), " 不支持持久预留"),
                    ),
                )
            }
        },
        FenceOutcome::Superseded { node, round } => {
            let mut t = text::cat4(
                d.name.as_str(),
                " 已被更新的轮次持有（节点 ",
                text::decimal_text(*node as u64).as_str(),
                " 轮次 ",
            );
            t.push_str(text::decimal_text(*round).as_str());
            t.push_str("）");
            Err(TapeError::NotReady(t))
        },
        FenceOutcome::Unconfirmed { reason } => Err(
            TapeError::NotReady(
                text::cat3(d.name.as_str(), " 隔离未能确认: ", reason.as_str()),
            ),
        ),
    }
}

/// No drive is taken over that is not fenced.
pub proof fn law_drives_must_be_fenced(d: DeviceView, o: FenceOutcome)
    requires
        d.kind == DeviceKind::Drive,
    ensures
        fence_result(d, o) is None <==> o is Fenced,
{
}

/// Why the round is over, if a look at the holder of a device says so. A changer that knows no
/// reservations does not.
pub open spec fn holder_verdict(d: DeviceView, r: Result<(), TapeError>) -> Option<Seq<char>> {
    match r {
        Ok(_) => None,
        Err(e) => if e@.ownership_lost() {
            Some(d.name + ": "@ + e@.message())
        } else {
            None
        },
    }
}

/// Why the round is over, if a look at the holder of a device says so.
pub fn check_holder(d: &ManagedDevice, r: &Result<(), TapeError>) -> (out: Option<String>)
    ensures
        match holder_verdict(d@, *r) {
            Some(s) => out is Some && out->0@ == s,
            None => out is None,
        },
{
    match r {
        Ok(_) => None,
        Err(e) => {
            if e.ownership_lost() {
                Some(text::cat3(d.name.as_str(), ": ", e.message().as_str()))
            } else {
                None
            }
        },
    }
}

/// What follows from asking a drive whether it is ready.
#[derive(Debug)]
pub enum Ready {
    Yes,
    /// It is asked again after a pause.
    AskAgain,
    Fail(TapeError),
}

/// The drive says that it is not ready.
pub open spec fn says_not_ready(e: TapeErrorView) -> bool {
    e matches TapeErrorView::ScsiCommand { sense_key, .. } && sense_key == 2
}

/// What follows from asking a drive whether it is ready. `late` says that it has been asked for
/// long enough.
pub fn check_ready(r: Result<bool, TapeError>, late: bool) -> (out: Ready)
    ensures
        match r {
            Ok(true) => out is Yes,
            Ok(false) => if late {
                out is Fail && out->Fail_0@ == TapeErrorView::NotReady(
                    "装载后驱动器一直未就绪"@,
                )
            } else {
                out is AskAgain
            },
            Err(e) => if says_not_ready(e@) && !late {
                out is AskAgain
            } else {
                out is Fail && out->Fail_0@ == e@
            },
        },
{
    match r {
        Ok(ready) => {
            if ready {
                Ready::Yes
            } else if late {
                Ready::Fail(
                    TapeError::NotReady("装载后驱动器一直未就绪".to_owned()),
                )
            } else {
                Ready::AskAgain
            }
        },
        Err(e) => {
            let unready = match &e {
                TapeError::ScsiCommand { sense_key, .. } => *sense_key == 2,
                _ => false,
            };
            if unready && !late {
                Ready::AskAgain
            } else {
                Ready::Fail(e)
            }
        },
    }
}

/// Whether the tape that is written gets a full index before it leaves its drive.
#[derive(Debug)]
pub enum Checkpoint {
    /// Nothing is written.
    Skip,
    /// The tape in this device.
    Write { dev: usize },
    Fail(TapeError),
}

/// Whether the tape that is written gets a full index before it leaves its drive: it must still be
/// the tape that the service knows.
pub fn plan_checkpoint(
    drive: Option<usize>,
    tape: &Option<String>,
    inv: &Inventory,
) -> (r: Checkpoint)
    ensures
        match drive {
            None => r is Skip,
            Some(dev) => match *tape {
                None => r is Fail && r->Fail_0@ == TapeErrorView::NotReady(
                    "缺少写入卷身份，不能生成卸载检查点"@,
                ),
                Some(b) => if exists|i: int|
                    0 <= i < inv@.drives.len() && (#[trigger] inv@.drives[i]).dev == dev
                        && inv@.drives[i].holds(b@) {
                    r == (Checkpoint::Write { dev })
                } else {
                    r is Fail && r->Fail_0@ == TapeErrorView::NotReady(
                        "卸载检查点的介质与写入卷不符"@,
                    )
                },
            },
        },
{
    let dev = match drive {
        Some(d) => d,
        None => {
            return Checkpoint::Skip;
        },
    };
    let b = match tape {
        Some(b) => b.as_str(),
        None => {
            return Checkpoint::Fail(
                TapeError::NotReady(
                    "缺少写入卷身份，不能生成卸载检查点".to_owned(),
                ),
            );
        },
    };
    let mut i: usize = 0;
    while i < inv.drives.len()
        invariant
            i <= inv.drives@.len(),
            drive == Some(dev),
            *tape is Some && tape->0@ == b@,
            forall|j: int|
                0 <= j < i ==> !((#[trigger] inv@.drives[j]).dev == dev && inv@.drives[j].holds(b@)),
        decreases inv.drives@.len() - i,
    {
        let d = &inv.drives[i];
        assert(inv@.drives[i as int] == d@);
        let hit = match &d.loaded {
            Some(l) => text::same(l.barcode.as_str(), b),
            None => false,
        };
        if d.dev == dev && hit {
            return Checkpoint::Write { dev };
        }
        i += 1;
    }
    Checkpoint::Fail(
        TapeError::NotReady("卸载检查点的介质与写入卷不符".to_owned()),
    )
}

fn insert_device(v: &mut Vec<usize>, d: usize)
    requires
        forall|i: int, j: int| 0 <= i < j < old(v)@.len() ==> old(v)@[i] < old(v)@[j],
    ensures
        forall|i: int, j: int| 0 <= i < j < final(v)@.len() ==> final(v)@[i] < final(v)@[j],
        forall|x: usize| #[trigger]
            final(v)@.contains(x) <==> old(v)@.contains(x) || x == d,
{
    let ghost was = v@;
    let mut i: usize = 0;
    while i < v.len() && v[i] < d
        invariant
            i <= v@.len(),
            v@ == was,
            was == old(v)@,
            forall|j: int| 0 <= j < i ==> #[trigger] v@[j] < d,
        decreases v@.len() - i,
    {
        i += 1;
    }
    if i < v.len() && v[i] == d {
        assert(v@[i as int] == d);
        return;
    }
    v.insert(i, d);
    proof {
        let now = v@;
        assert(now =~= was.insert(i as int, d));
        assert forall|x: usize| #[trigger] now.contains(x) <==> was.contains(x) || x == d by {
            if was.contains(x) {
                let j = choose|j: int| 0 <= j < was.len() && was[j] == x;
                if j < i {
                    assert(now[j] == x);
                } else {
                    assert(now[j + 1] == x);
                }
            }
            if now.contains(x) {
                let j = choose|j: int| 0 <= j < now.len() && now[j] == x;
                if j < i {
                    assert(was[j] == x);
                } else if j > i {
                    assert(was[j - 1] == x);
                }
            }
            assert(now[i as int] == d);
        }
    }
}

/// The devices whose tapes leave them at a shutdown, in order and each once.
pub fn drives_to_clear(
    drive: Option<usize>,
    read: Option<usize>,
    reclaim: Option<usize>,
) -> (r: Vec<usize>)
    ensures
        forall|i: int, j: int| 0 <= i < j < r@.len() ==> r@[i] < r@[j],
        forall|x: usize| #[trigger]
            r@.contains(x) <==> drive == Some(x) || read == Some(x) || reclaim == Some(x),
{
    let mut v: Vec<usize> = Vec::new();
    match drive {
        Some(d) => insert_device(&mut v, d),
        None => {},
    }
    match read {
        Some(d) => insert_device(&mut v, d),
        None => {},
    }
    match reclaim {
        Some(d) => insert_device(&mut v, d),
        None => {},
    }
    v
}

/// What a planned shutdown does next.
#[derive(Debug, Clone, Copy, PartialEq, Eq)]
pub enum ShutdownStep {
    /// No more uploads get in.
    Drain,
    /// What was staged is written and committed.
    Write,
    /// The tape that is written gets a full index.
    Checkpoint,
    /// The service closes for this reason.
    Close { reason: &'static str },
    /// The tape in this device is unloaded; the shutdown goes on where that fails.
    Unload { dev: usize },
    /// The reservation of this device is released; the shutdown goes on where that fails.
    Release { dev: usize },
    Done,
}

#[verifier::ext_equal]
pub enum ShutdownStepView {
    Drain,
    Write,
    Checkpoint,
    Close(Seq<char>),
    Unload { dev: usize },
    Release { dev: usize },
    Done,
}

impl View for ShutdownStep {
    type V = ShutdownStepView;

    open spec fn view(&self) -> ShutdownStepView {
        match *self {
            ShutdownStep::Drain => ShutdownStepView::Drain,
            ShutdownStep::Write => ShutdownStepView::Write,
            ShutdownStep::Checkpoint => ShutdownStepView::Checkpoint,
            ShutdownStep::Close { reason } => ShutdownStepView::Close(reason@),
            ShutdownStep::Unload { dev } => ShutdownStepView::Unload { dev },
            ShutdownStep::Release { dev } => ShutdownStepView::Release { dev },
            ShutdownStep::Done => ShutdownStepView::Done,
        }
    }
}

/// What a list of steps says.
pub open spec fn shutdown_views(v: Seq<ShutdownStep>) -> Seq<ShutdownStepView> {
    v.map_values(|s: ShutdownStep| s@)
}

/// What a shutdown waits for.
#[derive(Debug, Clone, Copy, PartialEq, Eq, Structural)]
pub enum ShutdownPhase {
    Writing,
    Checkpointing,
    Over,
}

/// A planned shutdown. The order matters: no upload gets in any more; what was staged is written;
/// the tape gets a full index; the service closes; the tapes are unloaded; and last of all, when the
/// devices are not touched any more, their reservations are released. Where writing or the index
/// fails, tapes and reservations stay as they are for the next executor to recover.
#[derive(Debug)]
pub struct Shutdown {
    pub phase: ShutdownPhase,
    /// The devices whose tapes are unloaded.
    pub drives: Vec<usize>,
    /// How many devices there are.
    pub devices: usize,
}

#[verifier::ext_equal]
pub struct ShutdownView {
    pub phase: ShutdownPhase,
    pub drives: Seq<usize>,
    pub devices: usize,
}

impl View for Shutdown {
    type V = ShutdownView;

    open spec fn view(&self) -> ShutdownView {
        ShutdownView { phase: self.phase, drives: self.drives@, devices: self.devices }
    }
}

impl ShutdownView {
    /// The end of a shutdown that went well.
    pub open spec fn ending(self) -> Seq<ShutdownStepView> {
        seq![ShutdownStepView::Close("正在停机"@)] + self.drives.map_values(
            |dev: usize| ShutdownStepView::Unload { dev },
        ) + Seq::new(
            self.devices as nat,
            |i: int| ShutdownStepView::Release { dev: i as usize },
        ) + seq![ShutdownStepView::Done]
    }

    pub open spec fn over(self) -> ShutdownView {
        ShutdownView { phase: ShutdownPhase::Over, ..self }
    }

    /// What follows when the step that it waits for went well, or did not.
    pub open spec fn next(self, well: bool) -> (ShutdownView, Seq<ShutdownStepView>) {
        match self.phase {
            ShutdownPhase::Writing => if well {
                (
                    ShutdownView { phase: ShutdownPhase::Checkpointing, ..self },
                    seq![ShutdownStepView::Checkpoint],
                )
            } else {
                (
                    self.over(),
                    seq![ShutdownStepView::Close("停机提交失败"@), ShutdownStepView::Done],
                )
            },
            ShutdownPhase::Checkpointing => if well {
                (self.over(), self.ending())
            } else {
                (
                    self.over(),
                    seq![ShutdownStepView::Close("停机检查点失败"@), ShutdownStepView::Done],
                )
            },
            ShutdownPhase::Over => (self, Seq::empty()),
        }
    }
}

impl Shutdown {
    fn ending(&self) -> (r: Vec<ShutdownStep>)
        ensures
            shutdown_views(r@) == self@.ending(),
    {
        let mut v: Vec<ShutdownStep> = Vec::new();
        v.push(ShutdownStep::Close { reason: "正在停机" });
        let ghost first = seq![ShutdownStepView::Close("正在停机"@)];
        let ghost un = self.drives@.map_values(|dev: usize| ShutdownStepView::Unload { dev });
        let ghost re = Seq::new(
            self.devices as nat,
            |i: int| ShutdownStepView::Release { dev: i as usize },
        );
        let mut i: usize = 0;
        assert(shutdown_views(v@) =~= first + un.take(0));
        while i < self.drives.len()
            invariant
                i <= self.drives@.len(),
                un == self.drives@.map_values(|dev: usize| ShutdownStepView::Unload { dev }),
                shutdown_views(v@) == first + un.take(i as int),
            decreases self.drives@.len() - i,
        {
            let ghost was = shutdown_views(v@);
            let dev: usize = self.drives[i];
            v.push(ShutdownStep::Unload { dev });
            assert(shutdown_views(v@) =~= was.push(ShutdownStepView::Unload { dev }));
            assert(was.push(un[i as int]) =~= first + un.take(i + 1));
            i += 1;
        }
        assert(un.take(i as int) =~= un);
        let mut k: usize = 0;
        assert(shutdown_views(v@) =~= first + un + re.take(0));
        while k < self.devices
            invariant
                k <= self.devices,
                re == Seq::new(
                    self.devices as nat,
                    |i: int| ShutdownStepView::Release { dev: i as usize },
                ),
                shutdown_views(v@) == first + un + re.take(k as int),
            decreases self.devices - k,
        {
            let ghost was = shutdown_views(v@);
            v.push(ShutdownStep::Release { dev: k });
            assert(shutdown_views(v@) =~= was.push(ShutdownStepView::Release { dev: k }));
            assert(was.push(re[k as int]) =~= first + un + re.take(k + 1));
            k += 1;
        }
        assert(re.take(k as int) =~= re);
        let ghost was = shutdown_views(v@);
        v.push(ShutdownStep::Done);
        assert(shutdown_views(v@) =~= was.push(ShutdownStepView::Done));
        assert(shutdown_views(v@) =~= self@.ending());
        v
    }

    /// Begins a shutdown. A thread that does not serve has nothing to write.
    pub fn begin(
        serving: bool,
        drive: Option<usize>,
        read: Option<usize>,
        reclaim: Option<usize>,
        devices: usize,
    ) -> (r: (Self, Vec<ShutdownStep>))
        ensures
            r.0@.devices == devices,
            forall|i: int, j: int| 0 <= i < j < r.0@.drives.len() ==> r.0@.drives[i] < r.0@.drives[j],
            forall|x: usize| #[trigger]
                r.0@.drives.contains(x) <==> drive == Some(x) || read == Some(x) || reclaim
                    == Some(x),
            if serving {
                r.0@.phase == ShutdownPhase::Writing && shutdown_views(r.1@) == seq![
                    ShutdownStepView::Drain,
                    ShutdownStepView::Write,
                ]
            } else {
                r.0@.phase == ShutdownPhase::Over && shutdown_views(r.1@) == seq![
                    ShutdownStepView::Drain,
                ] + r.0@.ending()
            },
    {
        let drives = drives_to_clear(drive, read, reclaim);
        let mut v: Vec<ShutdownStep> = Vec::new();
        v.push(ShutdownStep::Drain);
        if serving {
            v.push(ShutdownStep::Write);
            assert(shutdown_views(v@) =~= seq![ShutdownStepView::Drain, ShutdownStepView::Write]);
            (Shutdown { phase: ShutdownPhase::Writing, drives, devices }, v)
        } else {
            let s = Shutdown { phase: ShutdownPhase::Over, drives, devices };
            let ghost was = shutdown_views(v@);
            let mut rest = s.ending();
            let ghost tail = shutdown_views(rest@);
            v.append(&mut rest);
            assert(shutdown_views(v@) =~= was + tail);
            assert(was =~= seq![ShutdownStepView::Drain]);
            (s, v)
        }
    }

    /// Goes on when the step that it waits for went well, or did not.
    pub fn on(&mut self, well: bool) -> (r: Vec<ShutdownStep>)
        ensures
            (final(self)@, shutdown_views(r@)) == old(self)@.next(well),
    {
        let mut v: Vec<ShutdownStep> = Vec::new();
        match self.phase {
            ShutdownPhase::Writing => {
                if well {
                    self.phase = ShutdownPhase::Checkpointing;
                    v.push(ShutdownStep::Checkpoint);
                    assert(shutdown_views(v@) =~= seq![ShutdownStepView::Checkpoint]);
                } else {
                    self.phase = ShutdownPhase::Over;
                    v.push(ShutdownStep::Close { reason: "停机提交失败" });
                    v.push(ShutdownStep::Done);
                    assert(shutdown_views(v@) =~= seq![
                        ShutdownStepView::Close("停机提交失败"@),
                        ShutdownStepView::Done,
                    ]);
                }
            },
            ShutdownPhase::Checkpointing => {
                self.phase = ShutdownPhase::Over;
                if well {
                    v = self.ending();
                } else {
                    v.push(ShutdownStep::Close { reason: "停机检查点失败" });
                    v.push(ShutdownStep::Done);
                    assert(shutdown_views(v@) =~= seq![
                        ShutdownStepView::Close("停机检查点失败"@),
                        ShutdownStepView::Done,
                    ]);
                }
            },
            ShutdownPhase::Over => {
                assert(shutdown_views(v@) =~= Seq::<ShutdownStepView>::empty());
            },
        }
        v
    }
}

/// Reservations are released last: only after writing and the index went well, and behind every
/// other step with the service or a device.
pub proof fn law_reservations_are_released_last(s: ShutdownView, well: bool, i: int, j: int)
    requires
        0 <= i < s.next(well).1.len(),
        0 <= j < s.next(well).1.len(),
        s.next(well).1[i] is Release,
        s.next(well).1[j] is Close || s.next(well).1[j] is Unload,
    ensures
        s.phase == ShutdownPhase::Checkpointing,
        well,
        j < i,
        s.next(well).0.phase == ShutdownPhase::Over,
{
    let un = s.drives.map_values(|dev: usize| ShutdownStepView::Unload { dev });
    let n = 1 + un.len();
    assert(s.phase == ShutdownPhase::Checkpointing && well);
    let v = s.ending();
    if i < n {
        if i > 0 {
            assert(v[i] == un[i - 1]);
        }
        assert(false);
    }
    if j >= n {
        if j < n + s.devices {
            assert(v[j] is Release);
        } else {
            assert(v[j] is Done);
        }
    }
}

/// A shutdown that cannot write, or cannot close the index, leaves tapes and reservations as they
/// are.
pub proof fn law_failed_shutdown_leaves_the_devices(s: ShutdownView, i: int)
    requires
        0 <= i < s.next(false).1.len(),
    ensures
        s.next(false).1[i] !is Unload,
        s.next(false).1[i] !is Release,
        s.next(false).0.phase == ShutdownPhase::Over,
{
}

/// What is said while the tape that is written is changed.
pub fn switching_text(barcode: &str, state: &str) -> (r: String)
    ensures
        r@ == barcode@ + " 已 "@ + state@ + "，正在换带"@,
{
    text::cat4(barcode, " 已 ", state, "，正在换带")
}

/// What has to be done before the tape of a reclamation is loaded.
#[derive(Debug)]
pub enum ReclaimStart {
    /// It is the tape that is written: another takes its place first.
    Switch,
    Load,
    Fail(TapeError),
}

/// What has to be done before the tape of a reclamation is loaded. It takes two drives.
pub fn plan_reclaim_start(drives: usize, writing: &Option<String>, barcode: &str) -> (r: ReclaimStart)
    ensures
        if drives < 2 {
            r is Fail && r->Fail_0@ == TapeErrorView::NotReady(
                "回收需要两台驱动器：一台放写入带，一台放源带"@,
            )
        } else if *writing is Some && writing->0@ == barcode@ {
            r is Switch
        } else {
            r is Load
        },
{
    if drives < 2 {
        return ReclaimStart::Fail(
            TapeError::NotReady(
                "回收需要两台驱动器：一台放写入带，一台放源带".to_owned(),
            ),
        );
    }
    match writing {
        Some(b) => {
            if text::same(b.as_str(), barcode) {
                return ReclaimStart::Switch;
            }
        },
        None => {},
    }
    ReclaimStart::Load
}

/// A request to stop touches only the round that it names.
pub proof fn law_stop_is_for_its_round(v: ThreadView, round: u64, reason: String)
    requires
        v.active is Some,
        v.active->0.round != round,
    ensures
        v.on_request(ExecRequest::Stop { round: Some(round), reason }) == (v, Seq::<
            ExecStepView,
        >::empty()),
{
}

/// No request leads to anything with the devices but a takeover while the thread holds no round:
/// it never takes them by itself.
pub proof fn law_devices_are_only_taken_on_a_takeover(v: ThreadView, req: ExecRequest)
    requires
        v.active is None,
    ensures
        forall|i: int|
            0 <= i < v.on_request(req).1.len() ==> {
                let s = #[trigger] v.on_request(req).1[i];
                s is Fence ==> req is Takeover
            } && !(v.on_request(req).1[i] is ChooseTape) && !(v.on_request(req).1[i] is Write)
                && !(v.on_request(req).1[i] is Read) && !(v.on_request(req).1[i] is ShutDown),
        v.on_request(req).0.active is None,
{
}

/// Where a phase comes in a cycle of work.
pub open spec fn place(p: CyclePhase) -> nat {
    match p {
        CyclePhase::Writing => 1,
        CyclePhase::Changing => 2,
        CyclePhase::Choosing => 3,
        CyclePhase::Checking => 4,
        CyclePhase::Reclaiming => 5,
        CyclePhase::Idle => 6,
    }
}

/// A cycle goes through its phases in one order, so that it ends: whatever came of a step, the
/// thread waits for something later or for nothing more, unless the event does not belong here.
pub proof fn law_cycle_goes_forward(v: ThreadView, ev: CycleEventView)
    requires
        ev !is Timeout,
    ensures
        place(v.on_cycle(ev).0.cycle.phase) > place(v.cycle.phase) || v.on_cycle(ev) == (
            v,
            Seq::<ExecStepView>::empty(),
        ),
{
}

/// The devices are checked and reclamation goes on only in a round that is held, and only after all
/// that came before in the cycle went well: after something that failed the round is over.
pub proof fn law_checks_only_after_success(v: ThreadView, ev: CycleEventView, i: int)
    requires
        0 <= i < v.on_cycle(ev).1.len(),
        v.on_cycle(ev).1[i] is CheckDevices || v.on_cycle(ev).1[i] is Reclaim
            || v.on_cycle(ev).1[i] is ChooseAgain,
    ensures
        v.active is Some,
        v.on_cycle(ev).0.active is Some,
        match ev {
            CycleEventView::Wrote { result, .. } => result is Ok,
            CycleEventView::Changed(r) => r is Ok,
            CycleEventView::Chosen(r) => r is Ok,
            CycleEventView::Checked(r) => r is Ok,
            _ => false,
        },
{
}

/// A failure ends the round, and nothing else follows but that the service closes and the loss is
/// reported.
pub proof fn law_failed_step_ends_the_round(v: ThreadView, reason: Seq<char>, now: u64)
    requires
        v.active is Some,
    ensures
        v.cycle.phase == CyclePhase::Writing ==> v.on_cycle(
            CycleEventView::Wrote { result: Err(reason), change: None },
        ) == v.lost(v.active->0.round, reason),
        v.cycle.phase == CyclePhase::Changing ==> v.on_cycle(
            CycleEventView::Changed(Err(reason)),
        ) == v.lost(v.active->0.round, reason),
        v.cycle.phase == CyclePhase::Checking ==> v.on_cycle(
            CycleEventView::Checked(Err(reason)),
        ) == v.lost(v.active->0.round, reason),
        v.cycle.phase == CyclePhase::Reclaiming ==> v.on_cycle(
            CycleEventView::Reclaimed { result: Err(reason), now },
        ) == v.lost(v.active->0.round, reason),
{
}

/// After looking for a tape again the thread says that it serves only where it found one.
pub proof fn law_serving_is_reported_with_a_tape(
    v: ThreadView,
    summary: Seq<char>,
    drive: Option<usize>,
    i: int,
)
    requires
        0 <= i < v.on_cycle(CycleEventView::Chosen(Ok((summary, drive)))).1.len(),
        v.on_cycle(CycleEventView::Chosen(Ok((summary, drive)))).1[i] is Report,
    ensures
        drive is Some,
        v.on_cycle(CycleEventView::Chosen(Ok((summary, drive)))).0.active->0.drive == drive,
{
}

/// A thread that gives up its round closes the service before it reports.
pub proof fn law_loss_closes_the_service(v: ThreadView, round: u64, reason: Seq<char>)
    ensures
        v.lost(round, reason).0.active is None,
        v.lost(round, reason).1[0] == (ExecStepView::Close { reason }),
        v.lost(round, reason).1[1] == ExecStepView::Report(EventView::Lost { round, reason }),
{
}

} // verus!
