//! The control state that all nodes agree on.
use std::sync::Arc;

use tape_rs::daemon::codec::{ControlSnapshot, METADATA_DEPTH};
use tape_rs::daemon::state::{
    split_catalog, Applied, Command, ControlState, Executor, FileRec, TapeSummary,
    CATALOG_PART_BYTES, HISTORY_KEPT,
};
use tape_rs::daemon::tape_state;
use tape_rs::json::{Fields, Items, Json};

#[test]
fn commands_roundtrip() {
    for c in [
        Command::Takeover { node: 2, term: 7 },
        Command::Fenced { node: 2, round: 41 },
        Command::Abandoned { node: 2, round: 41, reason: "预留被抢占".into() },
    ] {
        assert_eq!(Command::decode(&c.encode()), Some(c));
    }
    assert_eq!(Command::decode(b"{}"), None);
}

#[test]
fn round_is_the_log_index_of_the_takeover() {
    let mut s = ControlState::default();
    let a = s.apply(5, &Command::Takeover { node: 1, term: 2 });
    assert_eq!(a, Applied::NewExecutor(Executor { node: 1, term: 2, round: 5, fenced: false }));
    assert!(
        matches!(s.apply(6, &Command::Fenced { node: 1, round: 5 }), Applied::FenceConfirmed(e) if e.fenced)
    );
}

/// The fence of one node is applied after the takeover by the next: it no longer counts.
#[test]
fn fenced_after_a_newer_takeover_is_superseded() {
    let mut s = ControlState::default();
    s.apply(5, &Command::Takeover { node: 2, term: 2 });
    s.apply(6, &Command::Takeover { node: 3, term: 3 });
    assert_eq!(
        s.apply(7, &Command::Fenced { node: 2, round: 5 }),
        Applied::FenceSuperseded { node: 2, round: 5 }
    );
    assert_eq!(s.executor.as_ref().map(|e| (e.node, e.round, e.fenced)), Some((3, 6, false)));
    // Nor does a late report that it gave up touch the new executor.
    assert_eq!(
        s.apply(8, &Command::Abandoned { node: 2, round: 5, reason: String::new() }),
        Applied::Nothing
    );
    assert!(s.executor.is_some());
}

#[test]
fn admin_commands_roundtrip_and_are_validated_deterministically() {
    for c in [
        Command::PoolCreate { uuid: "u-1".into(), name: "archive".into(), file_limit: 200_000 },
        Command::TapeAssign { barcode: "TR8000L08".into(), pool: "archive".into() },
        Command::TapeUnassign { barcode: "TR8000L08".into() },
    ] {
        assert_eq!(Command::decode(&c.encode()), Some(c));
    }
    let mut s = ControlState::default();
    let mk = |u: &str, n: &str| Command::PoolCreate {
        uuid: u.into(),
        name: n.into(),
        file_limit: 10,
    };
    let assign = |b: &str, p: &str| Command::TapeAssign { barcode: b.into(), pool: p.into() };
    let unassign = |b: &str| Command::TapeUnassign { barcode: b.into() };
    assert_eq!(s.apply(1, &mk("u-1", "archive")), Applied::Admin(Ok("u-1".into())));
    assert!(matches!(s.apply(2, &mk("u-2", "archive")), Applied::Admin(Err(_))), "重名");
    assert!(matches!(s.apply(3, &mk("u-1", "other")), Applied::Admin(Err(_))), "UUID 重复");
    assert!(matches!(s.apply(4, &assign("T1", "nope")), Applied::Admin(Err(_))));
    // A pool goes by its name or its identifier.
    assert!(matches!(s.apply(5, &assign("T1", "archive")), Applied::Admin(Ok(_))));
    assert!(matches!(s.apply(6, &assign("T2", "u-1")), Applied::Admin(Ok(_))));
    assert!(matches!(s.apply(7, &assign("T1", "archive")), Applied::Admin(Err(_))), "已归属");
    assert_eq!(s.tapes.len(), 2);
    assert!(matches!(s.apply(8, &unassign("T1")), Applied::Admin(Ok(_))));
    assert!(matches!(s.apply(9, &unassign("T1")), Applied::Admin(Err(_))));
    assert_eq!(s.tapes.len(), 1);
    assert_eq!(s.tapes.key_at(0), "T2");
    // A command that is refused changes nothing.
    assert_eq!(s.pools.len(), 1);
}

#[test]
fn catalog_commands_roundtrip_and_split() {
    let files: Vec<FileRec> = (0..10_000)
        .map(|i| FileRec {
            path: format!("/dir/sub/object-{:08}.bin", i),
            length: i,
            sha256: "ab".repeat(32),
            version: (7, i),
            deleted: false,
            metadata: Arc::new(Json::Null),
        })
        .collect();
    let parts = split_catalog(&files);
    assert!(parts.len() >= 2, "一万条记录超过 1 MiB，应当分片");
    assert_eq!(parts.iter().map(Vec::len).sum::<usize>(), files.len());
    for (i, p) in parts.iter().enumerate() {
        let c = Command::CatalogPart {
            barcode: "T1".into(),
            generation: 7,
            part: i as u32,
            files: p.clone(),
        };
        let enc = c.encode();
        assert!(enc.len() < 2 * CATALOG_PART_BYTES, "{}", enc.len());
        assert_eq!(Command::decode(&enc), Some(c));
    }
    assert_eq!(split_catalog(&[]), vec![Vec::<FileRec>::new()]);
    let t = Command::TapeCommitted {
        barcode: "T1".into(),
        volume_uuid: "v".into(),
        generation: 7,
        files: 3,
        bytes_used: 9,
        bytes_written: 12,
        parts: 2,
        full: true,
    };
    assert_eq!(Command::decode(&t.encode()), Some(t));
}

/// A node restores itself from a snapshot: it must hold everything.
#[test]
fn a_snapshot_restores_the_whole_control_state() {
    let mut s = ControlState::default();
    s.apply(
        1,
        &Command::PoolCreate { uuid: "u-1".into(), name: "archive".into(), file_limit: 100 },
    );
    s.apply(2, &Command::TapeAssign { barcode: "T1".into(), pool: "archive".into() });
    s.apply(3, &Command::TapeAssign { barcode: "T2".into(), pool: "archive".into() });
    s.apply(4, &Command::Takeover { node: 2, term: 3 });
    s.apply(5, &Command::Fenced { node: 2, round: 4 });
    s.apply(6, &Command::TapeState { barcode: "T2".into(), state: tape_state::FULL.into() });
    s.apply(
        7,
        &Command::TapeCommitted {
            barcode: "T1".into(),
            volume_uuid: "v-9".into(),
            generation: 12,
            files: 40,
            bytes_used: 900,
            bytes_written: 1200,
            parts: 1,
            full: false,
        },
    );
    let snap = ControlSnapshot { control: s.clone(), source: 2, directory_index: 7 };
    let back = ControlSnapshot::decode(&snap.encode()).expect("能解回来");
    assert_eq!(back, snap);
    assert_eq!(
        back.control.executor.unwrap(),
        Executor { node: 2, term: 3, round: 4, fenced: true }
    );
    assert_eq!(back.control.tape_summary.get("T1").unwrap().generation, 12);
    assert_eq!(back.control.tape_state.get("T2").unwrap(), tape_state::FULL);
    assert_eq!(ControlSnapshot::decode(b"{}"), None);
    // What is applied after a restoration gives what it gives without one.
    let mut restored = ControlSnapshot::decode(&snap.encode()).unwrap().control;
    let next = Command::TapeUnassign { barcode: "T2".into() };
    assert_eq!(restored.apply(8, &next), s.apply(8, &next));
    assert_eq!(restored, s);
}

/// Reclaiming a tape formats it: only an assigned, healthy tape is accepted, and only where its
/// pool has another tape to take its files.
#[test]
fn reclaim_is_only_accepted_for_an_assigned_healthy_tape() {
    let mut s = ControlState::default();
    s.apply(1, &Command::PoolCreate { uuid: "u".into(), name: "p".into(), file_limit: 10 });
    let reclaim = |b: &str| Command::TapeReclaim { barcode: b.into() };
    assert!(matches!(s.apply(2, &reclaim("T1")), Applied::Admin(Err(_))), "未归属的带不受理");
    s.apply(3, &Command::TapeAssign { barcode: "T1".into(), pool: "p".into() });
    assert!(
        matches!(s.apply(4, &reclaim("T1")), Applied::Admin(Err(e)) if e.contains("目标")),
        "池里只有这一盘带，没有目标"
    );
    assert_eq!(s.tape_state.get("T1"), None, "被拒绝的命令不改状态");
    s.apply(5, &Command::TapeAssign { barcode: "T2".into(), pool: "p".into() });
    s.apply(6, &Command::TapeState { barcode: "T2".into(), state: tape_state::FULL.into() });
    assert!(matches!(s.apply(7, &reclaim("T1")), Applied::Admin(Err(_))), "写满的带不算目标");
    s.apply(8, &Command::TapeState { barcode: "T2".into(), state: tape_state::APPENDABLE.into() });
    assert!(matches!(s.apply(4, &reclaim("T1")), Applied::Admin(Ok(_))));
    assert_eq!(s.tape_state.get("T1").unwrap(), tape_state::RECLAIMING);
    assert!(matches!(s.apply(5, &reclaim("T1")), Applied::Admin(Err(_))), "重复下发不受理");
    assert!(
        matches!(s.apply(5, &reclaim("T2")), Applied::Admin(Err(_))),
        "T1 在回收中，不能再当 T2 的目标"
    );

    // A tape with something wrong is first looked at by hand.
    s.apply(6, &Command::TapeState { barcode: "T1".into(), state: tape_state::CHECK.into() });
    assert!(matches!(s.apply(7, &reclaim("T1")), Applied::Admin(Err(_))));

    // Done: the summary is back at the first generation, and the tape can be written.
    s.apply(8, &Command::TapeState { barcode: "T1".into(), state: tape_state::FULL.into() });
    s.apply(
        9,
        &Command::TapeCommitted {
            barcode: "T1".into(),
            volume_uuid: "old".into(),
            generation: 40,
            files: 7,
            bytes_used: 90,
            bytes_written: 100,
            parts: 1,
            full: false,
        },
    );
    let done = Command::TapeReclaimed { barcode: "T1".into(), volume_uuid: "new".into() };
    assert_eq!(s.apply(10, &done), Applied::Nothing, "不在回收中的带不接受完成上报");
    assert_eq!(s.tape_summary.get("T1").unwrap().generation, 40);
    assert!(matches!(s.apply(11, &reclaim("T1")), Applied::Admin(Ok(_))));
    assert_eq!(s.apply(12, &done), Applied::Reclaimed);
    assert_eq!(
        *s.tape_summary.get("T1").unwrap(),
        TapeSummary {
            volume_uuid: "new".into(),
            generation: 1,
            files: 0,
            bytes_used: 0,
            bytes_written: 0
        }
    );
    assert_eq!(s.tape_state.get("T1").unwrap(), tape_state::APPENDABLE);
    // A late second report must not clear a tape that has been written again.
    s.apply(
        13,
        &Command::TapeCommitted {
            barcode: "T1".into(),
            volume_uuid: "new".into(),
            generation: 2,
            files: 3,
            bytes_used: 30,
            bytes_written: 30,
            parts: 1,
            full: false,
        },
    );
    assert_eq!(s.apply(14, &done), Applied::Nothing);
    assert_eq!(s.tape_summary.get("T1").unwrap().files, 3);
    assert_eq!(Command::decode(&reclaim("T1").encode()), Some(reclaim("T1")));
    assert_eq!(Command::decode(&done.encode()), Some(done));
}

/// The history of takeovers goes into every snapshot: it must not grow for ever.
#[test]
fn takeover_history_is_bounded() {
    let mut s = ControlState::default();
    for i in 1..=(HISTORY_KEPT as u64 * 3) {
        s.apply(i, &Command::Takeover { node: 1, term: i });
    }
    assert_eq!(s.history.len(), HISTORY_KEPT);
    assert_eq!(s.history[0].0, HISTORY_KEPT as u64 * 2 + 1, "留的是最近的");
    assert_eq!(s.executor.unwrap().round, HISTORY_KEPT as u64 * 3);
}

#[test]
fn summaries_only_move_forward_and_block_unassign() {
    let mut s = ControlState::default();
    s.apply(1, &Command::PoolCreate { uuid: "u".into(), name: "p".into(), file_limit: 10 });
    let commit = |g: u64, files: u64| Command::TapeCommitted {
        barcode: "T1".into(),
        volume_uuid: "v".into(),
        generation: g,
        files,
        bytes_used: 1,
        bytes_written: 1,
        parts: 1,
        full: false,
    };
    assert_eq!(s.apply(2, &commit(5, 1)), Applied::Nothing, "未归属的带不接受");
    s.apply(3, &Command::TapeAssign { barcode: "T1".into(), pool: "p".into() });
    assert_eq!(s.apply(4, &commit(5, 2)), Applied::CatalogCommitted);
    assert_eq!(s.apply(5, &commit(4, 1)), Applied::Nothing, "代数回退的迟到批次被忽略");
    assert_eq!(s.tape_summary.get("T1").unwrap().generation, 5);
    assert!(matches!(
        s.apply(6, &Command::TapeUnassign { barcode: "T1".into() }),
        Applied::Admin(Err(_))
    ));
    assert_eq!(s.apply(7, &commit(6, 0)), Applied::CatalogCommitted);
    assert!(matches!(
        s.apply(8, &Command::TapeUnassign { barcode: "T1".into() }),
        Applied::Admin(Ok(_))
    ));
}

#[test]
fn removals_and_directories_are_logged_as_they_are() {
    let rec = |path: &str, deleted: bool, metadata: Json| FileRec {
        path: path.into(),
        length: 0,
        sha256: String::new(),
        version: (7, 2),
        deleted,
        metadata: Arc::new(metadata),
    };
    let part = |files: Vec<FileRec>| Command::CatalogPart {
        barcode: "T1".into(),
        generation: 7,
        part: 0,
        files,
    };
    let directory = Fields::new().with("kind", Json::str_of("directory")).done();
    let c = part(vec![rec("/gone", true, Json::Null), rec("/d", false, directory)]);
    assert!(c.can_encode());
    assert_eq!(Command::decode(&c.encode()), Some(c));
    // A record without more is of a file that is there.
    let old = br#"{"op":"catalog_part","barcode":"T1","generation":7,"part":0,"files":[["/a",1,"ab"]]}"#;
    match Command::decode(old) {
        Some(Command::CatalogPart { files, .. }) => {
            assert_eq!((files[0].version, files[0].deleted), ((0, 0), false));
            assert!(files[0].metadata.is_null());
        }
        other => panic!("{:?}", other),
    }
    // What nests too deep to be read back for sure is not logged.
    let mut deep = Json::Num(1);
    for _ in 0..METADATA_DEPTH {
        deep = Items::new().with(deep).done();
    }
    assert!(part(vec![rec("/a", false, Json::Null)]).can_encode());
    let c = part(vec![rec("/a", false, deep)]);
    assert!(c.can_encode());
    assert_eq!(Command::decode(&c.encode()), Some(c));
    let mut deeper = Json::Num(1);
    for _ in 0..METADATA_DEPTH + 1 {
        deeper = Items::new().with(deeper).done();
    }
    assert!(!part(vec![rec("/a", false, deeper)]).can_encode());
    let other = Fields::new().with("size", Json::Other).done();
    assert!(!part(vec![rec("/a", false, other)]).can_encode());
}
