//! The file service, from an upload to its commit.
use std::sync::Arc;

use tape_rs::daemon::batch::VolumeOp;
use tape_rs::daemon::batch_run::{BatchEvent, BatchPhase, BatchRun, BatchStep};
use tape_rs::daemon::copying::{begin_copy, can_copy, finish_copy, CopyStart, TapeNode};
use tape_rs::daemon::files::{
    BatchPolicy, DirEntry, FileService, Flight, NodeInfo, NodeRow, Opened, TapeIdent, TapeLimits,
    TaskStatus,
};
use tape_rs::daemon::nodes::FileMetadata;
use tape_rs::daemon::state::FileRec;
use tape_rs::daemon::node::ExecEvent;
use tape_rs::daemon::net::sha256_hex;
use tape_rs::daemon::paths::{InFlight, ServiceError};
use tape_rs::daemon::reclaim::{Copied, Located};
use tape_rs::engine::tree::DirNode;
use tape_rs::error::TapeError;
use tape_rs::json::Json;
use tape_rs::strmap::StrMap;

fn record(path: &str, length: u64, version: (u64, u64)) -> FileRec {
    FileRec {
        path: path.into(),
        length,
        sha256: "aa".into(),
        version,
        deleted: false,
        metadata: Arc::new(Json::Null),
    }
}

fn opened(limits: TapeLimits, records: Vec<FileRec>) -> FileService {
    let mut s = FileService::with_policy(BatchPolicy {
        max_bytes: 100,
        max_files: 3,
        idle: 1000,
        max_wait: 5000,
    });
    let records: Vec<Opened> =
        records.into_iter().map(|record| Opened { record, indexed: None }).collect();
    s.open(
        7,
        TapeIdent { barcode: "T1".into(), pool_uuid: "u".into() },
        limits,
        Arc::new(DirNode::default()),
        3,
        1_000_000,
        true,
        &records,
        0,
    );
    s
}

fn roomy() -> TapeLimits {
    TapeLimits { file_limit: 100, usable_capacity: 1_000_000 }
}

/// The serial number of the service's volume, as a caller sees it when it looks paths up.
fn seen(s: &FileService) -> u64 {
    s.namespace_target("/x").unwrap().1
}

fn nothing() -> StrMap<bool> {
    StrMap::new()
}

#[test]
fn a_service_that_is_not_open_refuses() {
    let mut s = FileService::new();
    assert!(matches!(s.begin("/a", 1, 0, &nothing(), 0), Err(ServiceError::NotServing(_))));
    assert!(matches!(s.stat("/a", None), Err(ServiceError::NotServing(_))));
    assert_eq!(s.serving_round(), None);
    assert_eq!(s.due_in(7, 0), None);
}

#[test]
fn an_upload_is_committed_with_its_batch() {
    let mut s = opened(roomy(), vec![]);
    let at = seen(&s);
    assert_eq!(s.serving_round(), Some(7));
    let h = s.begin("/d/../b", 10, at, &nothing(), 0);
    assert!(matches!(h, Err(ServiceError::BadPath(_))));
    assert!(s.has_room(2));
    assert!(!s.has_room(u64::MAX));
    let h = s.begin("/d/b", 10, at, &nothing(), 0).unwrap();
    assert_eq!(h.path, "/d/b");
    assert!(s.can_take(&h, 10));
    assert!(s.can_end(10));
    s.ingest(&h, 10).unwrap();
    // Until it is committed the path is only under way.
    let st = s.stat_full("/d/b", None).unwrap();
    assert!(st.committed.is_none());
    assert_eq!(st.in_flight, Some(Flight { kind: InFlight::Uploading, len: 10 }));
    assert!(matches!(
        s.begin("/d/b", 1, at, &nothing(), 0),
        Err(ServiceError::PathBusy(_))
    ));
    let task = s.finish(h, "spool/1".into(), 10, Ok(None), 0).unwrap();
    assert_eq!(s.task(task), Some(TaskStatus::Staged));
    assert!(!s.wait_over(task, false));
    assert_eq!(
        s.stat_full("/d/b", None).unwrap().in_flight,
        Some(Flight { kind: InFlight::Staged, len: 10 })
    );
    assert_eq!(s.queued(7), Some((1, 10)));
    // Nothing is due before the queue has been idle.
    assert_eq!(s.due_in(7, 400), Some(600));
    assert!(s.take_batch(7, 400).is_none());
    let (batch, uploads) = s.take_batch(7, 1000).unwrap();
    assert_eq!(uploads.len(), 1);
    assert_eq!(uploads[0].path, "/d/b");
    assert_eq!(uploads[0].spool, "spool/1");
    let mut done: StrMap<FileRec> = StrMap::new();
    done.insert("/d/b".into(), record("/d/b", 10, (7, 1)));
    s.batch_done(7, &batch, &uploads, Ok((4, done)));
    assert_eq!(s.task(task), Some(TaskStatus::Committed { generation: 4 }));
    assert!(s.wait_over(task, false));
    let st = s.stat("/d/b", None).unwrap().unwrap();
    assert_eq!((st.len, st.generation, st.round, st.barcode.as_str()), (10, 4, 7, "T1"));
    assert_eq!(st.sha256, "aa");
    assert!(s.write_side_idle(7));
}

#[test]
fn what_came_of_a_batch_that_failed_is_unknown() {
    let mut s = opened(roomy(), vec![]);
    let at = seen(&s);
    let h = s.begin("/x", 5, at, &nothing(), 0).unwrap();
    s.ingest(&h, 5).unwrap();
    let task = s.finish(h, "p".into(), 5, Ok(None), 0).unwrap();
    let (batch, uploads) = s.take_batch_now(7, 0).unwrap();
    s.batch_done(7, &batch, &uploads, Err("坏块".into()));
    assert_eq!(s.task(task), Some(TaskStatus::Indeterminate { reason: "坏块".into() }));
    assert!(s.stat("/x", None).unwrap().is_none());
}

#[test]
fn a_full_queue_is_due_at_once() {
    let mut s = opened(roomy(), vec![]);
    let at = seen(&s);
    for p in ["/1", "/2", "/3"] {
        let h = s.begin(p, 1, at, &nothing(), 50).unwrap();
        s.ingest(&h, 1).unwrap();
        s.finish(h, "p".into(), 1, Ok(None), 50).unwrap();
    }
    assert_eq!(s.due_in(7, 50), Some(0));
    let (_, uploads) = s.take_batch(7, 50).unwrap();
    assert_eq!(uploads.len(), 3);
}

#[test]
fn a_file_too_large_for_any_tape_is_refused_for_good() {
    let mut s = opened(TapeLimits { file_limit: 100, usable_capacity: 1000 }, vec![]);
    let at = seen(&s);
    assert_eq!(
        s.begin("/x", 1001, at, &nothing(), 0),
        Err(ServiceError::TooLarge { requested: 1001, tape_capacity: 1000 })
    );
}

#[test]
fn a_tape_with_its_files_reached_is_switched() {
    let mut s = opened(
        TapeLimits { file_limit: 1, usable_capacity: 1000 },
        vec![record("/old", 3, (7, 1))],
    );
    let at = seen(&s);
    assert!(matches!(
        s.begin("/new", 1, at, &nothing(), 0),
        Err(ServiceError::SwitchingTape(_))
    ));
    assert!(s.switch_requested(7).is_some());
}

#[test]
fn directories_are_made_and_removed() {
    let mut s = opened(roomy(), vec![]);
    let at = seen(&s);
    let t = s.mkdir("/dir", at, &nothing(), 0).unwrap();
    let (batch, uploads) = s.take_batch_now(7, 0).unwrap();
    assert!(uploads[0].directory);
    let mut done: StrMap<FileRec> = StrMap::new();
    let mut r = record("/dir", 0, (7, 1));
    r.metadata = Arc::new(Json::read(br#"{"kind":"directory"}"#).unwrap());
    done.insert("/dir".into(), r);
    s.batch_done(7, &batch, &uploads, Ok((4, done)));
    assert_eq!(s.task(t), Some(TaskStatus::Committed { generation: 4 }));
    let mut live: StrMap<bool> = StrMap::new();
    live.insert("/dir".into(), true);
    assert!(matches!(s.mkdir("/dir", at + 1, &live, 0), Err(ServiceError::NotServing(_))));
    assert!(matches!(s.mkdir("/dir", at, &live, 0), Err(ServiceError::Exists(_))));
    live.insert("/dir/f".into(), false);
    assert!(matches!(s.rmdir("/dir", at, &live, 0), Err(ServiceError::NotEmpty(_))));
    assert!(matches!(s.delete("/dir", at, &live, 0), Err(ServiceError::IsDirectory(_))));
    assert!(matches!(s.rmdir("/none", at, &live, 0), Err(ServiceError::NotFound(_))));
    assert!(matches!(s.rmdir("/dir/f", at, &live, 0), Err(ServiceError::NotDirectory(_))));
    let rows = vec![
        NodeRow { path: "/dir".into(), info: NodeInfo { len: 0, directory: true } },
        NodeRow { path: "/dir/f".into(), info: NodeInfo { len: 6, directory: false } },
    ];
    let l = s.list_dir("/", false, &rows).unwrap().unwrap();
    assert_eq!(l.len(), 1);
    assert_eq!(*l.get("dir").unwrap(), DirEntry::Dir);
    let l = s.list_dir("/dir", false, &rows).unwrap().unwrap();
    assert_eq!(
        *l.get("f").unwrap(),
        DirEntry::File { committed: Some(6), in_flight: None }
    );
}

#[test]
fn a_path_that_exists_is_not_created_again() {
    let mut s = opened(roomy(), vec![record("/a", 3, (7, 1))]);
    let at = seen(&s);
    let mut live: StrMap<bool> = StrMap::new();
    live.insert("/a".into(), false);
    assert!(matches!(
        s.begin_with("/a", 1, true, at, &live, 0),
        Err(ServiceError::Exists(_))
    ));
}

#[test]
fn closing_fails_what_waits_and_keeps_what_is_uncertain() {
    let mut s = opened(roomy(), vec![]);
    let at = seen(&s);
    let h = s.begin("/q", 1, at, &nothing(), 0).unwrap();
    s.ingest(&h, 1).unwrap();
    let queued = s.finish(h, "q".into(), 1, Ok(None), 0).unwrap();
    let (_, _) = s.take_batch_now(7, 0).unwrap();
    let h = s.begin("/r", 1, at, &nothing(), 0).unwrap();
    s.ingest(&h, 1).unwrap();
    let waiting = s.finish(h, "r".into(), 1, Ok(None), 0).unwrap();
    let spools = s.close("换届");
    assert!(spools.contains(&"r".to_string()));
    assert!(matches!(s.task(queued), Some(TaskStatus::Indeterminate { .. })));
    assert!(matches!(s.task(waiting), Some(TaskStatus::Failed { .. })));
    assert_eq!(s.serving_round(), None);
}

#[test]
fn without_a_tape_reading_goes_on() {
    let mut s = opened(roomy(), vec![]);
    let at = seen(&s);
    s.close_no_tape(7, Some("u".into()), "没有可写的带");
    assert!(matches!(s.begin("/a", 1, at, &nothing(), 0), Err(ServiceError::NoTape(_))));
    assert_eq!(s.reading(), Ok((7, "u".to_string())));
}

/// Commits what is queued, with a record for each path that is not removed.
fn commit(s: &mut FileService, generation: u64) {
    let (batch, uploads) = s.take_batch_now(7, 0).unwrap();
    let mut done: StrMap<FileRec> = StrMap::new();
    for u in &uploads {
        let mut r = record(&u.path, u.len, (7, generation));
        r.deleted = u.delete;
        done.insert(u.path.clone(), r);
    }
    s.batch_done(7, &batch, &uploads, Ok((generation, done)));
}

fn known(paths: &[&str]) -> StrMap<bool> {
    let mut m: StrMap<bool> = StrMap::new();
    for p in paths {
        m.insert(p.to_string(), false);
    }
    m
}

#[test]
fn a_removed_file_is_gone_once_that_is_committed() {
    let mut s = opened(roomy(), vec![record("/a", 3, (7, 1))]);
    let at = seen(&s);
    assert!(s.stat("/a", None).unwrap().is_some());
    assert!(matches!(s.delete("/none", at, &known(&["/a"]), 0), Err(ServiceError::NotFound(_))));
    let t = s.delete("/a", at, &known(&["/a"]), 0).unwrap();
    assert!(s.stat("/a", None).unwrap().is_some());
    assert_eq!(s.stat_full("/a", None).unwrap().in_flight.unwrap().kind, InFlight::Deleting);
    commit(&mut s, 4);
    assert_eq!(s.task(t), Some(TaskStatus::Committed { generation: 4 }));
    assert!(s.stat("/a", None).unwrap().is_none());
    assert!(s.lookup("/a", None).unwrap().unwrap().deleted);
}

#[test]
fn a_file_is_renamed_with_its_content() {
    let mut s = opened(roomy(), vec![record("/a", 3, (7, 1))]);
    let at = seen(&s);
    let live = known(&["/a"]);
    assert!(matches!(
        s.rename("/none", "/b", false, at, &live, at, &live, 0),
        Err(ServiceError::NotFound(_))
    ));
    s.rename("/a", "/b", false, at, &live, at, &live, 0).unwrap();
    commit(&mut s, 4);
    assert!(s.stat("/a", None).unwrap().is_none());
    assert_eq!(s.stat("/b", None).unwrap().unwrap().len, 3);
}

#[test]
fn attributes_are_changed_and_links_made() {
    let mut listed = record("/a", 3, (7, 1));
    listed.metadata = Arc::new(Json::read(br#"{"xattrs":[]}"#).unwrap());
    let mut s = opened(roomy(), vec![listed, record("/bare", 3, (7, 1))]);
    let at = seen(&s);
    let live = known(&["/a", "/bare", "/elsewhere"]);
    assert!(matches!(
        s.change_xattr("/bare", "user.x", Some(b"1"), 0, at, &live, 0),
        Err(ServiceError::Io(_))
    ));
    assert!(matches!(
        s.change_xattr("/elsewhere", "user.x", Some(b"1"), 0, at, &live, 0),
        Err(ServiceError::CrossDevice(_))
    ));
    assert!(matches!(
        s.change_xattr("/a", "user.x", Some(&[0; 65537]), 0, at, &live, 0),
        Err(ServiceError::AttributeTooLarge)
    ));
    assert!(matches!(
        s.change_xattr("/a", "user.x", None, 0, at, &live, 0),
        Err(ServiceError::NoAttribute(_))
    ));
    assert!(matches!(
        s.change_xattr("/a", "user.tapers.version", Some(b"1"), 0, at, &live, 0),
        Err(ServiceError::ProtectedAttribute(_))
    ));
    // A value is kept as base64.
    s.change_xattr("/a", "user.x", Some(&[0xff, 0, 1]), 0, at, &live, 0).unwrap();
    let (_, uploads) = s.take_batch_now(7, 0).unwrap();
    let change = uploads[0].xattr_change.as_ref().unwrap();
    let value = change.value.as_ref().unwrap();
    assert_eq!((change.key.as_str(), value.value.as_str(), value.base64), ("x", "/wAB", true));
    let mut s = opened(roomy(), vec![]);
    let at = seen(&s);
    assert!(s.symlink("", "/l", at, &nothing(), 0).is_err());
    s.symlink("target", "/l", at, &nothing(), 0).unwrap();
    let (_, uploads) = s.take_batch_now(7, 0).unwrap();
    assert_eq!(uploads[0].symlink_target, Some("target".to_string()));
}

#[test]
fn what_another_tape_held_is_taken_over() {
    let mut s = opened(roomy(), vec![]);
    let at = seen(&s);
    s.relocate_tombstone("/gone", at, &nothing(), 0).unwrap();
    s.relocate_tombstone_kind("/gone-dir", true, at, &nothing(), 0).unwrap();
    let meta = || FileMetadata { meta: None, xattrs: vec![] };
    s.relocate_directory("/dir", meta(), at, &nothing(), 0).unwrap();
    let (_, uploads) = s.take_batch_now(7, 0).unwrap();
    assert_eq!(uploads.len(), 3);
    assert!(uploads[0].delete && !uploads[0].directory);
    assert!(uploads[1].delete && uploads[1].directory);
    assert!(!uploads[2].delete && uploads[2].directory);
    let mut s = opened(roomy(), vec![]);
    let at = seen(&s);
    s.relocate_symlink("/l", "t", meta(), at, &nothing(), 0).unwrap();
    assert_eq!(s.queued(7), Some((1, 0)));
}

fn plain() -> FileMetadata {
    FileMetadata { meta: None, xattrs: vec![] }
}

fn on(barcode: &str) -> Result<Option<Located>, ServiceError> {
    Ok(Some(Located { barcode: barcode.into(), deleted: false }))
}

fn file_node(sha256: &str) -> TapeNode {
    TapeNode::File { len: 3, sha256: sha256.into(), metadata: plain() }
}

#[test]
fn a_copy_is_finished_only_with_its_hash() {
    let mut s = opened(roomy(), vec![]);
    let at = seen(&s);
    let want = sha256_hex(b"abc");
    // The content agrees: the copy is queued.
    let start = begin_copy(&mut s, "T0", "/a", file_node(&want), &on("T0"), at, &nothing(), 0);
    let c = match start {
        CopyStart::Read(c) => c,
        other => panic!("{:?}", other),
    };
    assert!(can_copy(&s, &c));
    let r = finish_copy(&mut s, c, "spool/1".into(), Ok(b"abc".to_vec()), 0);
    assert_eq!(r.unwrap(), Copied::Moved(3));
    assert_eq!(s.queued(7), Some((1, 3)));
    // It does not: the copy is given up, and its path is free again.
    let start = begin_copy(&mut s, "T0", "/b", file_node(&want), &on("T0"), at, &nothing(), 0);
    let c = match start {
        CopyStart::Read(c) => c,
        other => panic!("{:?}", other),
    };
    let e = finish_copy(&mut s, c, "spool/2".into(), Ok(b"abd".to_vec()), 0).unwrap_err();
    assert!(e.message().contains("T0 上的 /b 读出来是 "));
    assert_eq!(s.queued(7), Some((1, 3)));
    // So it is where reading fails. An index without a hash is taken at its word.
    let start = begin_copy(&mut s, "T0", "/b", file_node(""), &on("T0"), at, &nothing(), 0);
    let c = match start {
        CopyStart::Read(c) => c,
        other => panic!("{:?}", other),
    };
    let broken = Err(TapeError::NotReady("读错误".into()));
    assert!(finish_copy(&mut s, c, "spool/3".into(), broken, 0).is_err());
    let start = begin_copy(&mut s, "T0", "/b", file_node(""), &on("T0"), at, &nothing(), 0);
    let c = match start {
        CopyStart::Read(c) => c,
        other => panic!("{:?}", other),
    };
    let r = finish_copy(&mut s, c, "spool/4".into(), Ok(b"abd".to_vec()), 0);
    assert_eq!(r.unwrap(), Copied::Moved(3));
    assert_eq!(s.queued(7), Some((2, 6)));
}

#[test]
fn a_path_that_needs_no_reading_is_settled_at_once() {
    let mut s = opened(roomy(), vec![]);
    let at = seen(&s);
    let settled = |c: CopyStart| match c {
        CopyStart::Settled(r) => r.unwrap(),
        other => panic!("{:?}", other),
    };
    let n = nothing();
    let c = begin_copy(&mut s, "T0", "/a", file_node(""), &on("T9"), at, &n, 0);
    assert_eq!(settled(c), Copied::Superseded);
    let c = begin_copy(&mut s, "T0", "/a", TapeNode::Nothing, &on("T0"), at, &n, 0);
    assert_eq!(settled(c), Copied::Superseded);
    let dir = TapeNode::Directory { metadata: plain() };
    let c = begin_copy(&mut s, "T0", "/d", dir, &on("T0"), at, &n, 0);
    assert_eq!(settled(c), Copied::Moved(0));
    let link = TapeNode::Symlink { target: "x".into(), metadata: plain() };
    let c = begin_copy(&mut s, "T0", "/l", link, &on("T0"), at, &n, 0);
    assert_eq!(settled(c), Copied::Moved(0));
    // A client that writes the path goes first.
    let _h = s.begin("/a", 1, at, &n, 0).unwrap();
    let c = begin_copy(&mut s, "T0", "/a", file_node(""), &on("T0"), at, &n, 0);
    assert_eq!(settled(c), Copied::Retry);
    // Without a tape to write all waits.
    let mut closed = FileService::new();
    let c = begin_copy(&mut closed, "T0", "/a", file_node(""), &on("T0"), 0, &n, 0);
    assert!(matches!(settled(c), Copied::Halt(_)));
}

#[test]
fn a_batch_is_published_and_reported_after_its_commit() {
    let mut s = opened(roomy(), vec![]);
    let at = seen(&s);
    for path in ["/a", "/b"] {
        let h = s.begin(path, 10, at, &nothing(), 0).unwrap();
        s.ingest(&h, 10).unwrap();
        s.finish(h, format!("spool{}", path), 10, Ok(None), 0).unwrap();
    }
    let (batch, uploads) = s.take_batch_now(7, 0).unwrap();
    let (mut run, steps) = BatchRun::begin(7, 4, uploads);
    assert!(matches!(steps.as_slice(), [BatchStep::Mount]));
    let mut steps = run.on(&s, BatchEvent::Mounted);
    for (path, version) in [("/a", "7.5"), ("/b", "7.6")] {
        assert!(matches!(steps.as_slice(), [BatchStep::Look { path: p }] if p == path));
        let seen = BatchEvent::Seen { rows: StrMap::new(), catalog: vec![] };
        let ops = run.on(&s, seen);
        match ops.as_slice() {
            [BatchStep::Apply(ops)] => assert!(ops.iter().any(|o| matches!(
                o,
                VolumeOp::AppendFile { path: p, version: v, .. } if p == path && v == version
            ))),
            other => panic!("{:?}", other),
        }
        // Nothing is published on the word of a commit that was not asked for.
        assert!(run.on(&s, BatchEvent::Mounted).is_empty());
        steps = run.on(&s, BatchEvent::Applied);
    }
    assert!(matches!(steps.as_slice(), [BatchStep::Commit]));
    assert_eq!(run.seq, 6);
    let catalog = vec![record("/a", 10, (7, 5)), record("/b", 10, (7, 6)), record("/c", 1, (6, 1))];
    let steps = run.on(
        &s,
        BatchEvent::Committed {
            barcode: "T1".into(),
            volume_uuid: "v".into(),
            generation: 4,
            catalog,
            bytes_used: 21,
            bytes_written: 30,
        },
    );
    assert_eq!(run.phase, BatchPhase::Over);
    let mut steps = steps.into_iter();
    match steps.next() {
        Some(BatchStep::Publish { generation, records }) => {
            assert_eq!((generation, records.len()), (4, 2));
            s.batch_done(7, &batch, &run.uploads, Ok((generation, records)));
        }
        other => panic!("{:?}", other),
    }
    match steps.next() {
        Some(BatchStep::Report(ExecEvent::Committed { files, files_total, full, .. })) => {
            assert_eq!((files.len(), files_total, full), (2, 3, false));
        }
        other => panic!("{:?}", other),
    }
    assert_eq!(s.stat("/b", None).unwrap().unwrap().version, (7, 6));
}

#[test]
fn a_batch_that_fails_is_left_open_and_ends_the_round() {
    let mut s = opened(roomy(), vec![]);
    let at = seen(&s);
    let h = s.begin("/a", 10, at, &nothing(), 0).unwrap();
    s.ingest(&h, 10).unwrap();
    s.finish(h, "spool".into(), 10, Ok(None), 0).unwrap();
    let (_, uploads) = s.take_batch_now(7, 0).unwrap();
    let (mut run, _) = BatchRun::begin(7, 0, uploads);
    run.on(&s, BatchEvent::Mounted);
    let steps = run.on(&s, BatchEvent::Failed(TapeError::NotReady("断电".into())));
    assert!(matches!(
        steps.as_slice(),
        [BatchStep::LeaveOpen { reason: a }, BatchStep::EndRound { reason: b }]
            if a == b && a.contains("断电")
    ));
    assert!(run.on(&s, BatchEvent::Applied).is_empty());
}
