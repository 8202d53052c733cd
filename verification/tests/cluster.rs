//! What a node decides, and what its device thread does.
use std::sync::Arc;

use tape_rs::daemon::codec::ControlSnapshot;
use tape_rs::daemon::directory::Directory;
use tape_rs::daemon::executor::{
    CycleEvent, CyclePhase,
    check_fence, check_holder, check_ready, demo_body, demo_path, drives_to_clear, plan_checkpoint,
    plan_reclaim_start, switching_text, Checkpoint, DeviceThread, ExecRequest, Shutdown, ShutdownPhase,
    ShutdownStep,
    ExecStep, FenceOutcome, Ready, ReclaimStart,
};
use tape_rs::daemon::library::{DeviceKind, DriveSlot, Inventory, Loaded, ManagedDevice};
use tape_rs::daemon::node::{
    admin_reply, replay_into, snapshot_point, yield_target, AdminReply, ExecEvent, LogEntry,
    NodeAction, NodeState,
};
use tape_rs::daemon::state::{Applied, Command, ControlState, FileRec};
use tape_rs::daemon::status::NodeStatus;
use tape_rs::error::TapeError;
use tape_rs::json::Json;
use tape_rs::strmap::StrMap;

fn node(id: u64) -> NodeState {
    NodeState {
        id,
        peers: vec![1, 2, 3],
        tick: 100,
        cooldown: 20_000,
        ctl: ControlState::default(),
        applied: 0,
        has_directory: true,
        directory_pending: None,
        fetch_running: false,
        claimed_term: None,
        my_round: None,
        last_yield: None,
        proposed_term: None,
        cooldown_until: 0,
        local: String::new(),
    }
}

#[test]
fn a_leader_claims_execution_once_in_a_term() {
    let mut n = node(1);
    assert!(n.on_cycle(false, 4, 1000).is_empty());
    let a = n.on_cycle(true, 4, 1000);
    assert_eq!(a.len(), 1);
    assert!(matches!(&a[0], NodeAction::Propose(Command::Takeover { node: 1, term: 4 })));
    n.takeover_sent(4);
    assert!(n.on_cycle(true, 4, 1001).is_empty());
    assert!(!n.on_cycle(true, 5, 1002).is_empty());
}

#[test]
fn a_takeover_of_ones_own_is_carried_out_and_recovered_after_the_fence() {
    let mut n = node(1);
    let (out, a) = n.on_committed(5, &Command::Takeover { node: 1, term: 4 }, true, 4);
    assert!(matches!(out, Applied::NewExecutor(_)));
    assert!(matches!(a.as_slice(), [NodeAction::Takeover { round: 5 }]));
    n.advance(5);
    assert_eq!(n.applied, 5);
    let a = n.on_exec(&ExecEvent::Fenced { round: 5 }, 0, true, 0);
    assert!(matches!(
        a.as_slice(),
        [NodeAction::Propose(Command::Fenced { node: 1, round: 5 })]
    ));
    let (_, a) = n.on_committed(6, &Command::Fenced { node: 1, round: 5 }, true, 4);
    assert!(matches!(a.as_slice(), [NodeAction::Recover { round: 5 }]));
    // Another node takes over: this one stops.
    let (_, a) = n.on_committed(7, &Command::Takeover { node: 2, term: 5 }, false, 5);
    assert!(matches!(a.as_slice(), [NodeAction::Stop { round: 5, .. }]));
}

#[test]
fn a_fence_that_fails_is_given_up_and_yielded() {
    let mut n = node(1);
    n.on_committed(5, &Command::Takeover { node: 1, term: 4 }, true, 4);
    let a = n.on_exec(
        &ExecEvent::FenceFailed { round: 5, reason: "没回应".into() },
        0,
        true,
        0,
    );
    assert!(a.iter().any(|x| matches!(
        x,
        NodeAction::Propose(Command::Abandoned { node: 1, round: 5, .. })
    )));
    assert_eq!(yield_target(&vec![1, 2, 3], 1), Some(2));
    assert_eq!(yield_target(&vec![1], 1), None);
}

fn commit(generation: u64, files: Vec<FileRec>, full: bool) -> ExecEvent {
    ExecEvent::Committed {
        round: 5,
        barcode: "T1".into(),
        volume_uuid: "v".into(),
        generation,
        files_total: files.len() as u64,
        bytes_used: 0,
        bytes_written: 0,
        files,
        full,
    }
}

#[test]
fn a_commit_is_logged_in_parts_with_a_summary() {
    let mut n = node(1);
    n.on_committed(5, &Command::Takeover { node: 1, term: 4 }, true, 4);
    let a = n.on_exec(&commit(3, vec![], true), 0, true, 0);
    assert_eq!(a.len(), 2);
    assert!(matches!(&a[0], NodeAction::Propose(Command::CatalogPart { part: 0, .. })));
    assert!(matches!(
        &a[1],
        NodeAction::Propose(Command::TapeCommitted { parts: 1, generation: 3, full: true, .. })
    ));
    // The directory has that generation already; a tape behind it is to be looked at.
    assert!(n.on_exec(&commit(3, vec![], true), 3, true, 0).is_empty());
    let a = n.on_exec(&commit(3, vec![], true), 4, true, 0);
    assert!(matches!(
        a.as_slice(),
        [NodeAction::Propose(Command::TapeState { barcode, state })]
            if barcode == "T1" && state == "check"
    ));
}

#[test]
fn a_commit_that_lost_a_part_is_made_good() {
    let mut n = node(1);
    let mut d = Directory::new();
    let mut index = 0;
    let mut run = |n: &mut NodeState, d: &mut Directory, c: Command| {
        index += 1;
        let (out, _) = n.on_committed(index, &c, true, 4);
        d.apply(index, &c, &out).unwrap();
    };
    run(&mut n, &mut d, Command::PoolCreate { uuid: "u".into(), name: "p".into(), file_limit: 9 });
    run(&mut n, &mut d, Command::TapeAssign { barcode: "T1".into(), pool: "p".into() });
    for _ in 0..2 {
        run(&mut n, &mut d, Command::TapeState { barcode: "T1".into(), state: "online".into() });
    }
    run(&mut n, &mut d, Command::Takeover { node: 1, term: 4 });
    let file = FileRec {
        path: "/a".into(),
        length: 3,
        sha256: String::new(),
        version: (5, 1),
        deleted: false,
        metadata: Arc::new(Json::Null),
    };
    // The summary arrives, its part does not.
    let actions = n.on_exec(&commit(3, vec![file.clone()], false), 0, true, 0);
    for a in actions.into_iter().skip(1) {
        if let NodeAction::Propose(c) = a {
            run(&mut n, &mut d, c);
        }
    }
    assert_eq!(d.tape_generation("T1"), 0);
    assert!(d.stat("u", "/a").is_none());
    // The full list of that generation is logged, though its summary is known.
    let listed = d.tape_generation("T1");
    for a in n.on_exec(&commit(3, vec![file], true), listed, true, 0) {
        if let NodeAction::Propose(c) = a {
            assert!(c.can_encode());
            run(&mut n, &mut d, c);
        }
    }
    assert_eq!(d.tape_generation("T1"), 3);
    assert_eq!(d.stat("u", "/a").unwrap().length, 3);
}

#[test]
fn a_snapshot_lies_within_the_directory() {
    assert_eq!(snapshot_point(10, Some(12), 3), Some((10, 12)));
    assert_eq!(snapshot_point(3, Some(12), 3), None);
    let mut n = node(1);
    assert!(!n.makes_snapshot(true, None, 0));
    n.advance(5);
    assert!(n.makes_snapshot(true, None, 0));
    assert!(!n.makes_snapshot(true, None, 5));
    assert!(!n.makes_snapshot(false, None, 0));
    let mut n = node(1);
    n.on_snapshot(
        40,
        ControlSnapshot { control: ControlState::default(), source: 3, directory_index: 39 },
    );
    assert_eq!(n.begin_fetch(), Some((3, 39)));
    assert_eq!(n.begin_fetch(), None);
    n.directory_failed(false, "断开");
    assert_eq!(n.begin_fetch(), Some((3, 39)));
    n.directory_installed();
    assert_eq!(n.directory_pending, None);
}

#[test]
fn replaying_the_log_brings_the_directory_up_to_date() {
    let entry = |index: u64, c: Command| LogEntry { index, data: c.encode() };
    let log = vec![
        entry(1, Command::PoolCreate { uuid: "u".into(), name: "p".into(), file_limit: 1 }),
        LogEntry { index: 2, data: vec![] },
        entry(3, Command::TapeAssign { barcode: "T1".into(), pool: "p".into() }),
    ];
    let mut d = Directory::new();
    let c = replay_into(&ControlState::default(), &log, &mut d).unwrap();
    assert_eq!(c.tapes.get("T1").unwrap(), "u");
    assert!(d.matches(&c));
    assert_eq!(d.applied_index(), 3);
}

#[test]
fn an_administrator_learns_what_came_of_a_command() {
    assert_eq!(
        admin_reply(&Applied::Admin(Ok("u".into()))),
        AdminReply::Done("u".into())
    );
    assert_eq!(
        admin_reply(&Applied::Admin(Err("no".into()))),
        AdminReply::Rejected("no".into())
    );
}

#[test]
fn the_status_lists_every_tape() {
    let mut c = ControlState::default();
    c.apply(1, &Command::PoolCreate { uuid: "u".into(), name: "p".into(), file_limit: 9 });
    c.apply(2, &Command::TapeAssign { barcode: "T1".into(), pool: "p".into() });
    let s = NodeStatus::of(1, "Leader", 4, 1, &c, "在服务");
    assert_eq!(s.pools.len(), 1);
    assert_eq!(s.tapes.get("T1").unwrap().state, "appendable");
    let j = s.json();
    assert_eq!(j.num_in("id"), Some(1));
    assert_eq!(j.text_in("role"), Some("Leader".into()));
}

fn drive(name: &str) -> ManagedDevice {
    ManagedDevice { name: name.into(), serial: "S".into(), kind: DeviceKind::Drive }
}

fn changer() -> ManagedDevice {
    ManagedDevice { name: "c".into(), serial: "C".into(), kind: DeviceKind::Changer }
}

fn taken(round: u64) -> DeviceThread {
    let mut t = DeviceThread::new(3000, 0);
    let steps = t.on_request(&ExecRequest::Takeover { round });
    assert!(steps.iter().any(|s| matches!(s, ExecStep::Fence { round: r } if *r == round)));
    assert!(matches!(t.on_fenced(round, Ok(())), ExecEvent::Fenced { round: r } if r == round));
    t
}

#[test]
fn devices_are_fenced_before_they_are_used() {
    let mut t = DeviceThread::new(3000, 0);
    t.on_request(&ExecRequest::Takeover { round: 5 });
    assert!(matches!(
        t.on_fenced(5, Err(TapeError::NotReady("x".into()))),
        ExecEvent::FenceFailed { round: 5, .. }
    ));
    assert!(t.active.is_none());
    let mut t = taken(5);
    // Another round's recovery is not for this one.
    let s = t.on_request(&ExecRequest::Recover { round: 4 });
    assert!(matches!(
        s.as_slice(),
        [ExecStep::Report(ExecEvent::Lost { round: 4, .. })]
    ));
    let s = t.on_request(&ExecRequest::Recover { round: 5 });
    assert!(matches!(s.as_slice(), [ExecStep::ChooseTape]));
    let s = t.on_recovered(Ok(("T1 在带".into(), Some(1))), 10);
    assert!(s.iter().any(|x| matches!(
        x,
        ExecStep::Report(ExecEvent::Serving { round: 5, .. })
    )));
    assert!(t.active.as_ref().unwrap().serving);
}

#[test]
fn a_stop_is_for_its_round_and_a_loss_closes() {
    let mut t = taken(5);
    assert!(t.on_request(&ExecRequest::Stop { round: Some(4), reason: "旧".into() }).is_empty());
    assert!(t.active.is_some());
    t.on_request(&ExecRequest::Stop { round: Some(5), reason: "换届".into() });
    assert!(t.active.is_none());
    let mut t = taken(6);
    t.on_request(&ExecRequest::Recover { round: 6 });
    t.on_recovered(Ok(("ok".into(), Some(1))), 10);
    t.on_request(&ExecRequest::Work);
    let s = t.on_cycle(CycleEvent::Wrote { result: Err("预留被抢占".into()), change: None });
    assert!(s.iter().any(|x| matches!(x, ExecStep::Close { .. })));
    assert!(s.iter().any(|x| matches!(
        x,
        ExecStep::Report(ExecEvent::Lost { round: 6, .. })
    )));
    assert!(t.active.is_none());
}

#[test]
fn fencing_outcomes_decide() {
    assert!(check_fence(&drive("d0"), &FenceOutcome::Fenced).is_ok());
    assert!(check_fence(&drive("d0"), &FenceOutcome::Unsupported).is_err());
    assert!(check_fence(&changer(), &FenceOutcome::Unsupported).is_ok());
    assert!(check_fence(&drive("d0"), &FenceOutcome::Superseded { node: 2, round: 9 }).is_err());
    let conflict = Err(TapeError::ReservationConflict { device: "d0".into() });
    assert!(check_holder(&drive("d0"), &conflict).is_some());
    assert!(check_holder(&drive("d0"), &Ok(())).is_none());
    assert!(matches!(check_ready(Ok(true), false), Ready::Yes));
    assert!(matches!(check_ready(Ok(false), false), Ready::AskAgain));
    assert!(matches!(check_ready(Ok(false), true), Ready::Fail(_)));
}

#[test]
fn an_orderly_end_keeps_what_is_not_written() {
    assert_eq!(drives_to_clear(Some(1), Some(2), Some(3)).len(), 3);
    assert!(drives_to_clear(None, None, None).is_empty());
    let mut inv = Inventory { drives: vec![], slots: StrMap::new(), empty_slots: vec![] };
    assert!(matches!(plan_checkpoint(None, &None, &inv), Checkpoint::Skip));
    inv.drives.push(DriveSlot {
        dev: 1,
        addr: 2,
        loaded: Some(Loaded { barcode: "T1".into(), home: None }),
    });
    assert!(matches!(
        plan_checkpoint(Some(1), &Some("T1".to_string()), &inv),
        Checkpoint::Write { dev: 1 }
    ));
    assert!(switching_text("T1", "full").contains("T1"));
    assert!(matches!(plan_reclaim_start(1, &None, "T1"), ReclaimStart::Fail(_)));
    assert!(matches!(
        plan_reclaim_start(2, &Some("T1".to_string()), "T1"),
        ReclaimStart::Switch
    ));
    assert!(matches!(
        plan_reclaim_start(2, &Some("T2".to_string()), "T1"),
        ReclaimStart::Load
    ));
    assert!(demo_path(3, 4).contains('3'));
    assert!(demo_body(1, 3, 4).contains('4'));
}

fn serving(round: u64, drive: Option<usize>) -> DeviceThread {
    let mut t = taken(round);
    t.on_request(&ExecRequest::Recover { round });
    t.on_recovered(Ok(("ok".into(), drive)), 10);
    t
}

fn wrote(t: &mut DeviceThread) -> Vec<ExecStep> {
    t.on_cycle(CycleEvent::Wrote { result: Ok(()), change: None })
}

#[test]
fn periodic_work_comes_in_its_interval_unless_there_is_a_hurry() {
    let mut t = serving(6, Some(1));
    let first = t.sleep_for(10, None);
    // When it is due the devices are checked, and then reclamation has its turn.
    let s = t.on_cycle(CycleEvent::Timeout { now: 10 + first });
    assert!(matches!(s.as_slice(), [ExecStep::Write]));
    assert!(matches!(wrote(&mut t).as_slice(), [ExecStep::CheckDevices]));
    let s = t.on_cycle(CycleEvent::Checked(Ok(())));
    assert!(matches!(s.as_slice(), [ExecStep::Reclaim]));
    assert!(t.on_cycle(CycleEvent::Reclaimed { result: Ok(false), now: 12 + first }).is_empty());
    assert_eq!(t.cycle.phase, CyclePhase::Idle);
    assert_eq!(t.sleep_for(10 + first, None), 3000);
    assert_eq!(t.sleep_for(10 + first, Some(40)), 40);
    // Before that there is only writing.
    t.on_cycle(CycleEvent::Timeout { now: 11 + first });
    assert!(wrote(&mut t).is_empty());
    assert_eq!(t.cycle.phase, CyclePhase::Idle);
    assert!(t.on_cycle(CycleEvent::Checked(Ok(()))).is_empty());
    // Where there is more to reclaim the next cycle comes at once.
    let due = 10 + first + 3000;
    t.on_cycle(CycleEvent::Timeout { now: due });
    wrote(&mut t);
    t.on_cycle(CycleEvent::Checked(Ok(())));
    t.on_cycle(CycleEvent::Reclaimed { result: Ok(true), now: due + 1 });
    assert_eq!(t.sleep_for(due + 1, None), 0);
    // A thread that does not serve only waits on.
    let mut t = DeviceThread::new(3000, 0);
    assert!(t.on_cycle(CycleEvent::Timeout { now: 3000 }).is_empty());
    assert_eq!(t.sleep_for(3000, None), 3000);
}

#[test]
fn a_cycle_keeps_its_order_and_ends_with_the_first_failure() {
    // A request to write brings no periodic work, but the tape may be changed.
    let mut t = serving(6, Some(1));
    assert!(matches!(t.on_request(&ExecRequest::Work).as_slice(), [ExecStep::Write]));
    let s = t.on_cycle(CycleEvent::Wrote { result: Ok(()), change: Some("full".into()) });
    assert!(matches!(s.as_slice(), [ExecStep::ChangeTape { state }] if state == "full"));
    let s = t.on_cycle(CycleEvent::Changed(Ok(("T2".into(), Some(0)))));
    assert!(matches!(
        s.as_slice(),
        [ExecStep::Report(ExecEvent::Serving { round: 6, summary })] if summary == "T2"
    ));
    assert_eq!(t.active.as_ref().unwrap().drive, Some(0));
    // Without a tape one is looked for again; only one that is found is reported.
    let mut t = serving(7, None);
    let due = 10 + t.sleep_for(10, None);
    t.on_cycle(CycleEvent::Timeout { now: due });
    assert!(matches!(wrote(&mut t).as_slice(), [ExecStep::ChooseAgain]));
    let s = t.on_cycle(CycleEvent::Chosen(Ok(("没有".into(), None))));
    assert!(matches!(s.as_slice(), [ExecStep::CheckDevices]));
    t.on_cycle(CycleEvent::Checked(Ok(())));
    t.on_cycle(CycleEvent::Reclaimed { result: Ok(false), now: due });
    t.on_cycle(CycleEvent::Timeout { now: due + 3000 });
    wrote(&mut t);
    let s = t.on_cycle(CycleEvent::Chosen(Ok(("T1".into(), Some(1)))));
    assert!(matches!(
        s.as_slice(),
        [ExecStep::Report(ExecEvent::Serving { round: 7, .. }), ExecStep::CheckDevices]
    ));
    // A failure to choose ends the round, and nothing is checked.
    let mut t = serving(8, None);
    t.on_cycle(CycleEvent::Timeout { now: 10_000 });
    wrote(&mut t);
    let s = t.on_cycle(CycleEvent::Chosen(Err(TapeError::NotReady("没有驱动器".into()))));
    assert!(matches!(
        s.as_slice(),
        [ExecStep::Close { .. }, ExecStep::Report(ExecEvent::Lost { round: 8, .. })]
    ));
    assert!(t.active.is_none());
    assert_eq!(t.cycle.phase, CyclePhase::Idle);
}

#[test]
fn a_shutdown_releases_the_devices_last() {
    let (mut s, v) = Shutdown::begin(true, Some(2), Some(1), Some(2), 3);
    assert_eq!(v, vec![ShutdownStep::Drain, ShutdownStep::Write]);
    assert_eq!(s.on(true), vec![ShutdownStep::Checkpoint]);
    let end = vec![
        ShutdownStep::Close { reason: "正在停机" },
        ShutdownStep::Unload { dev: 1 },
        ShutdownStep::Unload { dev: 2 },
        ShutdownStep::Release { dev: 0 },
        ShutdownStep::Release { dev: 1 },
        ShutdownStep::Release { dev: 2 },
        ShutdownStep::Done,
    ];
    assert_eq!(s.on(true), end);
    assert!(s.on(true).is_empty());
    // What cannot be written, or cannot be closed, is left to the next executor.
    let (mut s, _) = Shutdown::begin(true, Some(2), None, None, 3);
    assert_eq!(
        s.on(false),
        vec![ShutdownStep::Close { reason: "停机提交失败" }, ShutdownStep::Done]
    );
    let (mut s, _) = Shutdown::begin(true, Some(2), None, None, 3);
    s.on(true);
    assert_eq!(
        s.on(false),
        vec![ShutdownStep::Close { reason: "停机检查点失败" }, ShutdownStep::Done]
    );
    // A thread that does not serve has nothing to write.
    let (s, v) = Shutdown::begin(false, None, None, None, 1);
    assert_eq!(s.phase, ShutdownPhase::Over);
    assert_eq!(
        v,
        vec![
            ShutdownStep::Drain,
            ShutdownStep::Close { reason: "正在停机" },
            ShutdownStep::Release { dev: 0 },
            ShutdownStep::Done,
        ]
    );
}
