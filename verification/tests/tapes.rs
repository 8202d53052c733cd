//! Which tapes lie where, which one is written, read or reclaimed.
use std::sync::Arc;

use tape_rs::changer::element::{ElementStatus, ElementType};
use tape_rs::daemon::batch::{batch_report, full_report, plan_change, VolumeOp};
use tape_rs::daemon::files::{BatchPolicy, FileService, Stat, TapeIdent, TapeLimits, Upload};
use tape_rs::daemon::library::{
    inventory, DeviceKind, DriveSlot, Inventory, Loaded, ManagedDevice, SgProvider,
};
use tape_rs::daemon::node::ExecEvent;
use tape_rs::daemon::nodes::{catalog_of, IndexFile, Xattr};
use tape_rs::daemon::state::FileRec;
use tape_rs::daemon::opening::{
    bytes_written, count_plain, reserve, volume_id, Capacity, FormatProbe, MountFacts, OpenStep,
    Opening, TailReport, UNKNOWN_CAPACITY,
};
use tape_rs::daemon::paths::ServiceError;
use tape_rs::daemon::read_run::{ReadEvent, ReadPhase, ReadRun, ReadStep};
use tape_rs::daemon::reading::{
    address_of, choose_target, is_idle, needs_report, plan_read, slot_of, ReadError, ReadPlan,
    ReadTape, Target,
};
use tape_rs::daemon::reclaim::{
    check_hash, count_drives, judge_failure, on_refusal, paths_to_place, pending_reclaim,
    plan_aside, plan_copy, plan_load, pool_of, work_list, Aside, ChunkStep, Copied, CopyPlan, Desk, DeskStep, Failure, Gate, Located, Moving,
    OnTape, Reclaim, RECLAIM_START_ATTEMPTS,
};
use tape_rs::daemon::state::{Command, ControlState};
use tape_rs::daemon::status::NodeStatus;
use tape_rs::daemon::tape_switch::{SwitchEvent, SwitchPhase, SwitchStep, TapeSwitch};
use tape_rs::daemon::write_tape::{candidates, SearchStep, TapeSearch};
use tape_rs::engine::tree::DirNode;
use tape_rs::error::TapeError;
use tape_rs::json::Json;
use tape_rs::strmap::{StrMap, StrSet};

fn devices() -> Vec<ManagedDevice> {
    vec![
        ManagedDevice { name: "sg0".into(), serial: "CHG".into(), kind: DeviceKind::Changer },
        ManagedDevice { name: "sg1".into(), serial: "DRV1".into(), kind: DeviceKind::Drive },
        ManagedDevice { name: "sg2".into(), serial: "DRV2".into(), kind: DeviceKind::Drive },
    ]
}

fn slot(addr: u16, tag: Option<&str>) -> ElementStatus {
    ElementStatus {
        address: addr,
        element_type: ElementType::Storage,
        full: tag.is_some(),
        volume_tag: tag.map(|t| format!("{}   ", t)),
        source_address: None,
        drive_id: None,
    }
}

fn bay(addr: u16, id: &str, tag: Option<&str>, source: Option<u16>) -> ElementStatus {
    ElementStatus {
        address: addr,
        element_type: ElementType::DataTransfer,
        full: tag.is_some(),
        volume_tag: tag.map(String::from),
        source_address: source,
        drive_id: Some(id.into()),
    }
}

/// T1 in a slot, T2 in the first drive, the second drive empty.
fn shelf() -> Inventory {
    inventory(
        &devices(),
        &vec![
            bay(1, "IBM DRV1", Some("T2"), Some(0x101)),
            bay(2, "IBM DRV2", None, None),
            slot(0x100, Some("T1")),
            slot(0x101, None),
        ],
    )
}

fn status() -> NodeStatus {
    let mut c = ControlState::default();
    c.apply(1, &Command::PoolCreate { uuid: "u".into(), name: "p".into(), file_limit: 9 });
    for (i, b) in ["T1", "T2"].iter().enumerate() {
        c.apply(2 + i as u64, &Command::TapeAssign { barcode: b.to_string(), pool: "p".into() });
    }
    NodeStatus::of(1, "Leader", 4, 1, &c, "")
}

#[test]
fn devices_are_found_by_their_serial_numbers() {
    let p = SgProvider {
        changer_serial: Some("CHG".into()),
        drive_serials: vec!["DRV1".into(), "DRV2".into()],
    };
    let mut s = p.search();
    assert!(s.offer("CHG", "/dev/sg0"));
    assert!(!s.offer("OTHER", "/dev/sg9"));
    assert!(s.offer("DRV2", "/dev/sg2"));
    assert!(s.finish().is_err());
    let mut s = p.search();
    for (serial, path) in [("CHG", "a"), ("DRV1", "b"), ("DRV2", "c")] {
        s.offer(serial, path);
    }
    assert_eq!(s.finish().unwrap().len(), 3);
}

#[test]
fn the_inventory_follows_the_tapes() {
    let mut inv = shelf();
    assert!(inv.is_in_drive("T2"));
    assert!(!inv.is_in_drive("T1"));
    assert_eq!(*inv.slots.get("T1").unwrap(), 0x100);
    assert_eq!(inv.find_tape("T2"), 0);
    assert_eq!(inv.find_free(), 1);
    // A tape goes home.
    assert_eq!(inv.unload_to(0).unwrap(), Some(0x101));
    inv.unloaded(0);
    assert!(!inv.is_in_drive("T2"));
    inv.loaded("T1", 0x100, 1);
    assert!(inv.is_in_drive("T1"));
    assert!(inv.slots.get("T1").is_none());
    assert_eq!(inv.unload_to(1).unwrap(), Some(0x100));
}

#[test]
fn a_tape_is_looked_for_among_the_assigned() {
    let st = status();
    let c = candidates(&shelf(), &st);
    assert_eq!(c.len(), 2);
    assert!(c.iter().all(|c| c.pool_name == "p" && c.file_limit == 9));
    let mut s = TapeSearch::begin(shelf(), &st);
    // The tape in a drive comes first.
    assert!(matches!(s.step(), SearchStep::Open { dev: 1 }));
    let m = s.on_refused("标签不符".into(), "label_mismatch");
    assert_eq!((m.barcode.as_str(), m.state.as_str()), ("T2", "label_mismatch"));
    s.on_passed(true);
    assert!(matches!(s.step(), SearchStep::Load { from: 0x100, .. }));
    s.on_loaded();
    assert!(s.on_opened("ok".into()).contains("ok"));
}

#[test]
fn only_blank_tapes_are_formatted() {
    let st = status();
    let c = candidates(&shelf(), &st);
    let o = Opening::begin(&c[0], "sg1");
    assert!(matches!(o.on_probe(FormatProbe::Blank), OpenStep::Format { .. }));
    assert!(matches!(o.on_probe(FormatProbe::Ltfs), OpenStep::Mount));
    assert!(matches!(
        o.on_probe(FormatProbe::Foreign("x".into())),
        OpenStep::Refuse { .. }
    ));
    assert!(matches!(o.on_format(Ok(())), OpenStep::Mount));
    let mut o = Opening::begin(&c[0], "sg1");
    let facts = MountFacts {
        generation: 3,
        files: 2,
        tail: "完整".into(),
        open_tail: true,
        writable: false,
        restricted: None,
    };
    assert!(matches!(
        o.on_mount(Ok(facts), false),
        OpenStep::CloseTail { salvage: false }
    ));
    let tail = TailReport { first_block: 1, end_block: 2, generation: 4 };
    assert!(matches!(o.on_tail(Ok(tail), true, &None), OpenStep::Look));
    assert!(matches!(o.on_look(&Some("other".into())), OpenStep::Refuse { .. }));
    assert!(matches!(o.on_look(&None), OpenStep::WriteMark));
    assert!(matches!(o.on_look(&Some("u".into())), OpenStep::Measure));
    assert!(matches!(o.on_mark(Ok(())), OpenStep::Measure));
    assert_eq!(volume_id("TR8000L08").chars().count(), 6);
    assert!(reserve(1_000_000, 0) > 0);
    assert_eq!(bytes_written(Some(Capacity { total: 100, remaining: 30 })), 70);
    assert_eq!(bytes_written(None), 0);
    assert!(UNKNOWN_CAPACITY > 1 << 40);
}

fn stat(barcode: &str) -> Stat {
    Stat {
        len: 5,
        generation: 2,
        round: 1,
        barcode: barcode.into(),
        sha256: "ab".into(),
        deleted: false,
        version: (1, 1),
        metadata: Arc::new(Json::Null),
    }
}

#[test]
fn a_file_is_read_from_its_tape() {
    let mut svc = FileService::new();
    assert!(matches!(
        plan_read(&svc, "/a", Some(stat("T1")), None, &None),
        ReadPlan::Refused(_)
    ));
    svc.close_no_tape(7, Some("u".into()), "没有带");
    assert!(matches!(
        plan_read(&svc, "/a", Some(stat("T1")), None, &None),
        ReadPlan::Fetch { barcode } if barcode == "T1"
    ));
    let read = Some(ReadTape { dev: 2, barcode: "T1".into(), used: 0 });
    assert!(matches!(
        plan_read(&svc, "/a", Some(stat("T1")), None, &read),
        ReadPlan::Loaded { dev: 2 }
    ));
    let inv = shelf();
    assert_eq!(slot_of(&inv, "T1").unwrap(), 0x100);
    assert!(slot_of(&inv, "T9").is_err());
    assert_eq!(address_of(&inv, 1).unwrap(), 1);
    assert!(address_of(&inv, 9).is_err());
    assert!(matches!(
        choose_target(&inv, None, Some(1), true, "T2", "T1"),
        Target::Device { dev: 2 }
    ));
    assert!(needs_report(0, 3));
    assert!(!needs_report(3, 3));
    let t = ReadTape { dev: 2, barcode: "T1".into(), used: 1000 };
    assert!(!is_idle(&t, 1500, 1000));
    assert!(is_idle(&t, 2000, 1000));
}

fn only_drive() -> Inventory {
    let mut slots: StrMap<u16> = StrMap::new();
    slots.insert("T1".into(), 0x100);
    let loaded = Some(Loaded { barcode: "T2".into(), home: Some(0x101) });
    Inventory { drives: vec![DriveSlot { dev: 1, addr: 5, loaded }], slots, empty_slots: vec![] }
}

fn surveyed(inv: Inventory, idle: bool) -> ReadEvent {
    ReadEvent::Surveyed { inv: Ok(inv), idle, writing: "T2".into() }
}

/// The read from the only drive, up to the checkpoint of the tape that is written.
fn swapping() -> ReadRun {
    let (mut run, s) =
        ReadRun::begin(ReadPlan::Fetch { barcode: "T1".into() }, Some(1), None);
    assert!(matches!(s.as_slice(), [ReadStep::Survey]));
    assert!(matches!(run.on(surveyed(only_drive(), true)).as_slice(), [ReadStep::Survey]));
    assert!(matches!(run.on(surveyed(only_drive(), true)).as_slice(), [ReadStep::Checkpoint]));
    run
}

#[test]
fn the_tape_that_is_written_gives_way_in_order() {
    let mut run = swapping();
    assert!(run.on(ReadEvent::Unloaded(Ok(()))).is_empty(), "不是在等的事件");
    assert!(matches!(
        run.on(ReadEvent::Checkpointed(Ok(()))).as_slice(),
        [ReadStep::Close(_), ReadStep::Unload { dev: 1 }]
    ));
    assert!(matches!(run.on(ReadEvent::Unloaded(Ok(()))).as_slice(), [ReadStep::Survey]));
    assert_eq!(run.drive, None);
    assert!(matches!(
        run.on(surveyed(only_drive(), true)).as_slice(),
        [ReadStep::Load { from: 0x100, to: 5, dev: 1 }]
    ));
    assert!(matches!(
        run.on(ReadEvent::Loaded { generation: Ok(4), listed: 3, now: 9 }).as_slice(),
        [ReadStep::Report { dev: 1 }, ReadStep::Read { dev: 1 }]
    ));
    assert!(matches!(
        run.on(ReadEvent::Read { bytes: Ok(12), now: 9 }).as_slice(),
        [ReadStep::Survey]
    ));
    assert!(matches!(
        run.on(surveyed(only_drive(), true)).as_slice(),
        [ReadStep::Unload { dev: 1 }]
    ));
    assert!(matches!(run.on(ReadEvent::Unloaded(Ok(()))).as_slice(), [ReadStep::Restore]));
    assert!(matches!(
        run.on(ReadEvent::Restored(Ok("T2 在带".into()))).as_slice(),
        [ReadStep::Serving(_), ReadStep::Done(Ok(12))]
    ));
    assert_eq!(run.phase, ReadPhase::Over);
}

#[test]
fn a_failed_step_of_a_read_has_its_meaning() {
    // The checkpoint: the round is over.
    let mut run = swapping();
    match run.on(ReadEvent::Checkpointed(Err(TapeError::NotReady("x".into())))).as_slice() {
        [ReadStep::Close(a), ReadStep::Lost(b), ReadStep::Done(Err(ReadError::Failed(c)))] => {
            assert!(a.starts_with("写入带检查点失败: "));
            assert_eq!((a, a), (b, c));
        }
        other => panic!("{:?}", other),
    }
    // The write side is busy: the client tries again.
    let (mut run, _) = ReadRun::begin(ReadPlan::Fetch { barcode: "T1".into() }, Some(1), None);
    run.on(surveyed(only_drive(), false));
    assert!(matches!(
        run.on(surveyed(only_drive(), false)).as_slice(),
        [ReadStep::Done(Err(ReadError::Busy(_)))]
    ));
    // The device is lost: the service closes, and the client tries another node.
    let lost = || TapeError::ReservationConflict { device: "d".into() };
    let (mut run, _) = ReadRun::begin(ReadPlan::Written { dev: 1 }, Some(1), None);
    assert!(matches!(
        run.on(ReadEvent::Read { bytes: Err(lost()), now: 0 }).as_slice(),
        [ReadStep::Close(_), ReadStep::Lost(_), ReadStep::Done(Err(ReadError::Busy(_)))]
    ));
    // A tape that is not in the library.
    let (mut run, _) = ReadRun::begin(ReadPlan::Fetch { barcode: "T9".into() }, Some(1), None);
    assert!(matches!(
        run.on(surveyed(only_drive(), true)).as_slice(),
        [ReadStep::Done(Err(ReadError::Failed(_)))]
    ));
}

#[test]
fn a_second_drive_keeps_its_tape_for_the_next_read() {
    let read = Some(ReadTape { dev: 2, barcode: "T8".into(), used: 0 });
    let (mut run, _) = ReadRun::begin(ReadPlan::Fetch { barcode: "T1".into() }, Some(1), read);
    let mut inv = only_drive();
    inv.drives.push(DriveSlot {
        dev: 2,
        addr: 6,
        loaded: Some(Loaded { barcode: "T8".into(), home: None }),
    });
    assert!(matches!(run.on(surveyed(inv, false)).as_slice(), [ReadStep::Unload { dev: 2 }]));
    assert!(matches!(run.on(ReadEvent::Unloaded(Ok(()))).as_slice(), [ReadStep::Survey]));
    let mut inv = only_drive();
    inv.drives.push(DriveSlot { dev: 2, addr: 6, loaded: None });
    assert!(matches!(run.on(surveyed(inv, false)).as_slice(), [ReadStep::Survey]));
    let mut inv = only_drive();
    inv.drives.push(DriveSlot { dev: 2, addr: 6, loaded: None });
    assert!(matches!(
        run.on(surveyed(inv, false)).as_slice(),
        [ReadStep::Load { from: 0x100, to: 6, dev: 2 }]
    ));
    assert!(matches!(
        run.on(ReadEvent::Loaded { generation: Ok(4), listed: 4, now: 9 }).as_slice(),
        [ReadStep::Read { dev: 2 }]
    ));
    assert!(matches!(
        run.on(ReadEvent::Read { bytes: Ok(7), now: 11 }).as_slice(),
        [ReadStep::Done(Ok(7))]
    ));
    assert_eq!(run.read, Some(ReadTape { dev: 2, barcode: "T1".into(), used: 11 }));
    assert_eq!(run.drive, Some(1));
}

#[test]
fn a_reclaim_is_started_tried_again_and_given_up() {
    let mut c = ControlState::default();
    c.apply(1, &Command::PoolCreate { uuid: "u".into(), name: "p".into(), file_limit: 9 });
    for (i, b) in ["T1", "T2"].iter().enumerate() {
        c.apply(2 + i as u64, &Command::TapeAssign { barcode: b.to_string(), pool: "p".into() });
    }
    c.apply(4, &Command::TapeReclaim { barcode: "T1".into() });
    let st = NodeStatus::of(1, "Leader", 4, 1, &c, "");
    assert_eq!(pending_reclaim(&st.tapes), Some("T1".to_string()));
    assert_eq!(pool_of(&st, "T1"), Some(("u".to_string(), "p".to_string())));
    let mut d = Desk::new();
    assert_eq!(d.cycle(&st.tapes), DeskStep::Start { barcode: "T1".into() });
    let e = TapeError::NotReady("x".into());
    for _ in 1..RECLAIM_START_ATTEMPTS {
        assert!(d.on_start_failed("T1", &e, 2).is_none());
    }
    assert!(d.on_start_failed("T1", &e, 2).is_some());
    let mut d = Desk::new();
    d.cycle(&st.tapes);
    d.started(Reclaim::begin("T1", 2, vec!["/a".into(), "/b".into()]));
    assert_eq!(d.cycle(&st.tapes), DeskStep::Continue);
    let (a, drive) = d.abort("哈希不符", true).unwrap();
    assert_eq!((a.barcode.as_str(), drive), ("T1", 2));
    assert!(d.abort("x", true).is_none());
}

#[test]
fn nothing_live_is_formatted() {
    let policy = BatchPolicy { max_bytes: 100, max_files: 10, idle: 1, max_wait: 1 };
    let st = status();
    let mut r = Reclaim::begin("T1", 2, vec!["/a".into()]);
    let step = r.next(Some((0, 0)), &policy);
    assert!(matches!(&step, ChunkStep::Look { path } if path == "/a"));
    assert!(r.took("/a".into(), &Copied::Moved(5)));
    assert_eq!((r.copied, r.bytes), (1, 5));
    assert!(matches!(r.next(Some((0, 0)), &policy), ChunkStep::Done));
    let placed: StrMap<String> = StrMap::new();
    assert!(!matches!(r.gate(Some(1), &vec![], &placed, &st), Gate::Format { .. }));
    assert!(!matches!(
        r.gate(Some(0), &vec!["/a".into()], &placed, &st),
        Gate::Format { .. }
    ));
    let mut placed: StrMap<String> = StrMap::new();
    placed.insert("/a".into(), "T2".into());
    assert!(matches!(
        r.gate(Some(0), &vec!["/a".into()], &placed, &st),
        Gate::Format { .. }
    ));
}

#[test]
fn what_is_moved_goes_by_what_is_current() {
    let at = |b: &str| Ok(Some(Located { barcode: b.into(), deleted: false }));
    assert!(matches!(plan_copy("T1", &OnTape::File, &at("T1")), CopyPlan::CopyFile));
    assert!(matches!(plan_copy("T1", &OnTape::File, &at("T2")), CopyPlan::Superseded));
    assert!(matches!(plan_copy("T1", &OnTape::Symlink, &at("T1")), CopyPlan::MoveSymlink));
    assert!(matches!(plan_copy("T1", &OnTape::Directory, &at("T1")), CopyPlan::MoveDirectory));
    assert_eq!(
        on_refusal(Moving::File, "/a", &ServiceError::PathBusy("/a".into())).unwrap(),
        Copied::Retry
    );
    assert!(check_hash("T1", "/a", "ab", "ab").is_ok());
    assert!(check_hash("T1", "/a", "ab", "cd").is_err());
    assert_eq!(
        judge_failure(&TapeError::ReservationConflict { device: "d".into() }),
        Failure::RoundOver
    );
    assert!(matches!(
        judge_failure(&TapeError::Ltfs("x".into())),
        Failure::GiveUp { .. }
    ));
    let inv = shelf();
    assert!(matches!(plan_aside(&inv, "T2", None, None), Aside::There { dev: 1 }));
    assert!(matches!(plan_aside(&inv, "T1", Some(1), None), Aside::Load));
    assert!(plan_load(&inv, "T1", Some(1)).is_ok());
}

fn upload(path: &str) -> Upload {
    Upload {
        task: 1,
        path: path.into(),
        spool: "spool/1".into(),
        len: 5,
        delete: false,
        directory: false,
        symlink_target: None,
        rename_from: None,
        xattr_change: None,
        metadata: None,
    }
}

fn rec(path: &str) -> FileRec {
    FileRec {
        path: path.into(),
        length: 5,
        sha256: "ab".into(),
        version: (7, 1),
        deleted: false,
        metadata: Arc::new(Json::Null),
    }
}

#[test]
fn a_change_becomes_operations_on_the_volume() {
    let mut svc = FileService::new();
    let rows: StrMap<Stat> = StrMap::new();
    assert!(plan_change(&svc, &rows, &upload("/f"), &vec![], &vec![], "7.1").is_err());
    svc.open(
        7,
        TapeIdent { barcode: "T1".into(), pool_uuid: "u".into() },
        TapeLimits { file_limit: 100, usable_capacity: 1000 },
        Arc::new(DirNode::default()),
        3,
        1000,
        true,
        &vec![],
        0,
    );
    let u = upload("/f");
    let all = vec![upload("/f")];
    let c = plan_change(&svc, &rows, &u, &all, &vec![], "7.1").unwrap();
    assert!(c.changed.contains("/f"));
    assert!(c.ops.iter().any(|o| matches!(
        o,
        VolumeOp::AppendFile { path, spool, version, .. }
            if path == "/f" && spool == "spool/1" && version == "7.1"
    )));
    let mut gone = upload("/f");
    gone.delete = true;
    let c = plan_change(&svc, &rows, &gone, &vec![], &vec![], "7.2").unwrap();
    assert!(c.ops.iter().any(|o| matches!(o, VolumeOp::AppendTombstone { path, .. } if path == "/f")));
    let mut link = upload("/l");
    link.symlink_target = Some("target".into());
    let c = plan_change(&svc, &rows, &link, &vec![], &vec![], "7.3").unwrap();
    assert!(c.ops.iter().any(|o| matches!(
        o,
        VolumeOp::AddSymlink { path, target, .. } if path == "/l" && target == "target"
    )));
}

#[test]
fn a_report_holds_what_changed() {
    let all = vec![rec("/a"), rec("/b")];
    assert_eq!(count_plain(&all), 2);
    let r = batch_report(7, "T1", "v", 4, &all, 10, 20, &StrSet::of(&["/b"]));
    assert!(!r.full);
    assert_eq!(r.records.len(), 1);
    assert_eq!(r.records[0].path, "/b");
    assert_eq!((r.files_total, r.bytes_used, r.bytes_written), (2, 10, 20));
    let f = full_report(7, "T1", "v", 4, all, 10, 20);
    assert!(f.full);
    assert_eq!(f.records.len(), 2);
    assert!(matches!(
        f.event(),
        ExecEvent::Committed { round: 7, generation: 4, files_total: 2, full: true, files, .. }
            if files.len() == 2
    ));
}

fn indexed(path: &str, tombstone: bool, length: u64, xattrs: Vec<Xattr>) -> IndexFile {
    IndexFile {
        path: path.into(),
        tombstone,
        length,
        sha256: Some("ab".into()),
        modify_time: "m".into(),
        symlink: None,
        xattrs,
    }
}

fn xattr(key: &str, value: &str) -> Xattr {
    Xattr { key: key.into(), value: value.into(), base64: false }
}

#[test]
fn an_index_is_listed_with_versions_and_tombstones() {
    let files = vec![
        indexed("a", false, 5, vec![xattr("tapers.version", "7.3")]),
        indexed(
            ".tapers/x",
            true,
            0,
            vec![xattr("tapers.version", "7.4"), xattr("tapers.deletedPath", "/gone")],
        ),
    ];
    let (records, bytes) = catalog_of(&files, &vec![]);
    assert_eq!(bytes, 5);
    let a = records.iter().find(|r| r.path == "/a").unwrap();
    assert_eq!((a.version, a.length, a.deleted), ((7, 3), 5, false));
    let gone = records.iter().find(|r| r.path == "/gone").unwrap();
    assert!(gone.deleted);
    assert_eq!(gone.version, (7, 4));
    assert_eq!(count_drives(&devices()), 2);
    assert!(work_list(&files, &vec![]).contains(&"/a".to_string()));
    assert!(paths_to_place(&files, &vec![]).contains(&"/a".to_string()));
}

#[test]
fn a_search_goes_on_where_a_tape_does_not_load() {
    let mut s = TapeSearch::begin(shelf(), &status());
    assert!(matches!(s.step(), SearchStep::Open { .. }));
    s.on_refused("x".into(), "check");
    s.on_passed(true);
    assert!(matches!(s.step(), SearchStep::Load { .. }));
    let m = s.on_load_failed(&TapeError::NotReady("x".into()));
    assert_eq!(m.barcode, "T1");
    assert!(matches!(s.step(), SearchStep::Nothing));
    assert!(!s.on_nothing(&devices()).is_empty());
    let c = candidates(&shelf(), &status());
    let mut o = Opening::begin(&c[0], "sg1");
    match o.on_measure(0, 1, Some(Capacity { total: 1_000_000_000, remaining: 900_000_000 })) {
        OpenStep::Serve { usable, free } => {
            assert!(usable < 1_000_000_000);
            assert!(free < 900_000_000);
        }
        other => panic!("{:?}", other),
    }
}

#[test]
fn a_full_tape_is_changed_in_order() {
    let (mut t, v) = TapeSwitch::begin("T2", "data-full");
    assert!(matches!(v.as_slice(), [SwitchStep::Write]));
    assert!(t.on(SwitchEvent::Unloaded).is_empty(), "不是在等的事件");
    assert!(matches!(t.on(SwitchEvent::Written(Ok(()))).as_slice(), [SwitchStep::Checkpoint]));
    match t.on(SwitchEvent::Checkpointed(Ok(()))).as_slice() {
        [SwitchStep::Close(why), SwitchStep::Mark { barcode, state }, SwitchStep::Survey] => {
            assert_eq!(why, "T2 已 data-full，正在换带");
            assert_eq!((barcode.as_str(), state.as_str()), ("T2", "data-full"));
        }
        other => panic!("{:?}", other),
    }
    assert!(matches!(
        t.on(SwitchEvent::Surveyed(Ok(only_drive()))).as_slice(),
        [SwitchStep::Unload { dev: 1 }]
    ));
    assert!(matches!(t.on(SwitchEvent::Unloaded).as_slice(), [SwitchStep::Choose]));
    assert!(matches!(
        t.on(SwitchEvent::Chosen(Ok("T3".into()))).as_slice(),
        [SwitchStep::Done(Ok(s))] if s == "T3"
    ));
    assert_eq!(t.phase, SwitchPhase::Over);
    // What cannot be written, or not be closed, stays in its drive.
    let (mut t, _) = TapeSwitch::begin("T2", "full");
    assert!(matches!(
        t.on(SwitchEvent::Written(Err("坏块".into()))).as_slice(),
        [SwitchStep::Done(Err(e))] if e == "坏块"
    ));
    let (mut t, _) = TapeSwitch::begin("T2", "full");
    t.on(SwitchEvent::Written(Ok(())));
    assert!(matches!(
        t.on(SwitchEvent::Checkpointed(Err(TapeError::NotReady("x".into())))).as_slice(),
        [SwitchStep::Done(Err(_))]
    ));
}
