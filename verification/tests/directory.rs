//! The directory of all files.
use std::sync::Arc;

use tape_rs::daemon::directory::{Directory, PoolRow, Staged, TapeEntry};
use tape_rs::daemon::state::{Applied, Command, ControlState, FileRec};
use tape_rs::json::{Fields, Json};
use tape_rs::strmap::StrMap;

/// The record of a file that is there.
fn file(path: &str, length: u64, sha256: String, version: (u64, u64)) -> FileRec {
    FileRec {
        path: path.into(),
        length,
        sha256,
        version,
        deleted: false,
        metadata: Arc::new(Json::Null),
    }
}

fn script() -> Vec<Command> {
    vec![
        Command::PoolCreate { uuid: "u-1".into(), name: "archive".into(), file_limit: 100 },
        // refused
        Command::PoolCreate { uuid: "u-2".into(), name: "archive".into(), file_limit: 100 },
        Command::TapeAssign { barcode: "T1".into(), pool: "archive".into() },
        Command::TapeAssign { barcode: "T2".into(), pool: "u-1".into() },
        Command::Takeover { node: 1, term: 1 },
        Command::TapeUnassign { barcode: "T1".into() },
    ]
}

#[test]
fn replay_after_restart_is_idempotent_and_matches_the_state_machine() {
    let mut ctl = ControlState::default();
    let mut d = Directory::new();
    for (i, c) in script().iter().enumerate().take(4) {
        let out = ctl.apply(i as u64 + 1, c);
        d.apply(i as u64 + 1, c, &out).unwrap();
    }
    assert_eq!(d.applied_index(), 4);
    // After a restart the control state is replayed from the start; the directory skips what it
    // already holds.
    let mut ctl2 = ControlState::default();
    assert_eq!(d.applied_index(), 4);
    for (i, c) in script().iter().enumerate() {
        let out = ctl2.apply(i as u64 + 1, c);
        d.apply(i as u64 + 1, c, &out).unwrap();
    }
    assert_eq!(d.applied_index(), 6);
    assert!(d.matches(&ctl2));
    assert_eq!(
        d.pools(),
        vec![PoolRow {
            uuid: "u-1".into(),
            name: "archive".into(),
            file_limit: 100,
            tapes: vec!["T2".into()]
        }]
    );
}

struct Run {
    ctl: ControlState,
    d: Directory,
    idx: u64,
}

impl Run {
    fn new() -> Run {
        Run { ctl: ControlState::default(), d: Directory::new(), idx: 0 }
    }

    fn go(&mut self, c: Command) -> Applied {
        self.idx += 1;
        let out = self.ctl.apply(self.idx, &c);
        self.d.apply(self.idx, &c, &out).unwrap();
        out
    }

    /// A whole batch: one part and its summary.
    fn batch(&mut self, b: &str, g: u64, len: u64, ver: (u64, u64), full: bool) {
        let f = file("/a", len, String::new(), ver);
        self.go(Command::CatalogPart {
            barcode: b.into(),
            generation: g,
            part: 0,
            files: vec![f],
        });
        self.go(Command::TapeCommitted {
            barcode: b.into(),
            volume_uuid: "v".into(),
            generation: g,
            files: 1,
            bytes_used: len,
            bytes_written: len,
            parts: 1,
            full,
        });
    }

    fn where_is(&self) -> (String, u64) {
        self.d.stat("u", "/a").map(|f| (f.barcode, f.length)).unwrap()
    }
}

#[test]
fn a_batch_becomes_visible_atomically_and_incomplete_batches_are_dropped() {
    let mut t = Run::new();
    let rec = |p: &str, n: u64| file(p, n, format!("{:064x}", n), (1, n));
    let part = |g: u64, part: u32, files: Vec<FileRec>| Command::CatalogPart {
        barcode: "T1".into(),
        generation: g,
        part,
        files,
    };
    t.go(Command::PoolCreate { uuid: "u".into(), name: "p".into(), file_limit: 10 });
    t.go(Command::TapeAssign { barcode: "T1".into(), pool: "p".into() });
    let commit = |g: u64, parts: u32, files: u64, full: bool| Command::TapeCommitted {
        barcode: "T1".into(),
        volume_uuid: "v".into(),
        generation: g,
        files,
        bytes_used: 100,
        bytes_written: 100,
        parts,
        full,
    };

    // A batch of two parts: nothing of it is seen before both have come and been summed up.
    t.go(part(2, 0, vec![rec("/a", 1)]));
    assert_eq!(t.d.stat("u", "/a"), None);
    t.go(part(2, 1, vec![rec("/b", 2)]));
    assert_eq!(t.go(commit(2, 2, 2, false)), Applied::CatalogCommitted);
    assert_eq!(
        t.d.stat("u", "/a").map(|f| (f.barcode, f.generation, f.length)),
        Some(("T1".into(), 2, 1))
    );
    assert_eq!(t.d.tape_generation("T1"), 2);

    // A batch that lacks a part is dropped; the directory stays where it was.
    t.go(part(3, 0, vec![rec("/c", 3)]));
    t.go(commit(3, 2, 3, false));
    assert_eq!(t.d.stat("u", "/c"), None);
    assert_eq!(t.d.tape_generation("T1"), 2);

    // A full list replaces all that was known of the tape.
    t.go(part(4, 0, vec![rec("/a", 9), rec("/c", 3)]));
    t.go(commit(4, 1, 2, true));
    assert_eq!(t.d.list("u"), vec![("/a".to_string(), 9), ("/c".to_string(), 3)]);
    assert_eq!(t.d.tape_generation("T1"), 4);
    assert_eq!(t.d.stat("u", "/c").unwrap().sha256, format!("{:064x}", 3));
}

/// A path can stand on two tapes at once. Which copy counts goes by the version, never by the
/// order in which the tapes report.
#[test]
fn the_newest_version_wins_whatever_order_the_tapes_are_reconciled_in() {
    let mut t = Run::new();
    t.go(Command::PoolCreate { uuid: "u".into(), name: "p".into(), file_limit: 10 });
    for b in ["T1", "T2"] {
        t.go(Command::TapeAssign { barcode: b.into(), pool: "p".into() });
    }
    // First written to T1, then again to T2.
    t.batch("T1", 2, 10, (1, 1), false);
    assert_eq!(t.where_is(), ("T1".to_string(), 10));
    t.batch("T2", 2, 20, (1, 5), false);
    assert_eq!(t.where_is(), ("T2".to_string(), 20));

    // T1 is loaded and reports all that it holds: the old copy must not win.
    t.batch("T1", 3, 10, (1, 1), true);
    assert_eq!(t.where_is(), ("T2".to_string(), 20), "旧版本不得覆盖新版本");
    assert_eq!(t.d.live_on("T1"), (0, 0), "T1 上已经没有活着的文件，可以回收");
    assert_eq!(t.d.live_on("T2"), (1, 20));
    assert_eq!(t.d.paths_on("T2"), vec!["/a".to_string()]);

    // The other way round: the directory still points to T1, and T2 corrects it.
    let rec = |len: u64, ver: (u64, u64)| file("/b", len, String::new(), ver);
    t.go(Command::CatalogPart {
        barcode: "T1".into(),
        generation: 5,
        part: 0,
        files: vec![rec(10, (1, 2))],
    });
    t.go(Command::TapeCommitted {
        barcode: "T1".into(),
        volume_uuid: "v".into(),
        generation: 5,
        files: 1,
        bytes_used: 10,
        bytes_written: 10,
        parts: 1,
        full: true,
    });
    assert_eq!(t.d.stat("u", "/b").unwrap().barcode, "T1");
    t.go(Command::CatalogPart {
        barcode: "T2".into(),
        generation: 6,
        part: 0,
        files: vec![
            file("/a", 20, String::new(), (1, 5)),
            rec(30, (2, 9)),
        ],
    });
    t.go(Command::TapeCommitted {
        barcode: "T2".into(),
        volume_uuid: "v".into(),
        generation: 6,
        files: 2,
        bytes_used: 50,
        bytes_written: 50,
        parts: 1,
        full: true,
    });
    assert_eq!(
        t.d.stat("u", "/b").map(|f| (f.barcode, f.length)),
        Some(("T2".to_string(), 30))
    );
}

/// What is stored and restored is the directory that was, waiting parts and all.
#[test]
fn a_stored_directory_is_restored() {
    let mut t = Run::new();
    t.go(Command::PoolCreate { uuid: "u".into(), name: "p".into(), file_limit: 10 });
    t.go(Command::PoolCreate { uuid: "v".into(), name: "q".into(), file_limit: 10 });
    t.go(Command::TapeAssign { barcode: "T1".into(), pool: "p".into() });
    t.batch("T1", 2, 10, (1, 1), false);
    let waiting = file("/w", 7, "x".into(), (1, 2));
    t.go(Command::CatalogPart {
        barcode: "T1".into(),
        generation: 3,
        part: 0,
        files: vec![waiting],
    });
    let mut pools = StrMap::new();
    for i in 0..t.d.stored_pools().len() {
        pools.insert(
            t.d.stored_pools().key_at(i).clone(),
            t.d.stored_pools().value_at(i).clone(),
        );
    }
    let mut tapes = StrMap::new();
    for i in 0..t.d.stored_tapes().len() {
        let e = t.d.stored_tapes().value_at(i);
        tapes.insert(
            t.d.stored_tapes().key_at(i).clone(),
            TapeEntry { pool_uuid: e.pool_uuid.clone(), summary: e.summary.clone() },
        );
    }
    let staging: Vec<Staged> = t
        .d
        .stored_staging()
        .iter()
        .map(|s| Staged {
            barcode: s.barcode.clone(),
            generation: s.generation,
            part: s.part,
            file: s.file.clone(),
        })
        .collect();
    assert_eq!(staging.len(), 1);
    t.d = Directory::restore(t.d.applied_index(), pools, tapes, &t.d.stored_rows(), staging);
    assert!(t.d.matches(&t.ctl));
    assert_eq!(t.where_is(), ("T1".to_string(), 10));
    t.go(Command::TapeCommitted {
        barcode: "T1".into(),
        volume_uuid: "v".into(),
        generation: 3,
        files: 2,
        bytes_used: 17,
        bytes_written: 17,
        parts: 1,
        full: false,
    });
    assert_eq!(t.d.stat("u", "/w").unwrap().length, 7);
}

#[test]
fn a_record_without_a_version_takes_no_path_from_another_tape() {
    let mut t = Run::new();
    t.go(Command::PoolCreate { uuid: "u".into(), name: "p".into(), file_limit: 10 });
    for b in ["T1", "T2"] {
        t.go(Command::TapeAssign { barcode: b.into(), pool: "p".into() });
    }
    t.batch("T1", 2, 10, (0, 0), false);
    assert_eq!(t.where_is(), ("T1".to_string(), 10));
    t.batch("T2", 2, 20, (0, 0), false);
    assert_eq!(t.where_is(), ("T1".to_string(), 10));
    t.batch("T1", 3, 30, (0, 0), false);
    assert_eq!(t.where_is(), ("T1".to_string(), 30));
}

#[test]
fn a_removal_hides_its_path_and_a_directory_is_no_file() {
    let mut t = Run::new();
    t.go(Command::PoolCreate { uuid: "u".into(), name: "p".into(), file_limit: 10 });
    for b in ["T1", "T2"] {
        t.go(Command::TapeAssign { barcode: b.into(), pool: "p".into() });
    }
    t.batch("T1", 2, 10, (1, 1), false);
    let mut gone = file("/a", 0, String::new(), (1, 5));
    gone.deleted = true;
    let mut dir = file("/d", 0, String::new(), (1, 6));
    dir.metadata = Arc::new(Fields::new().with("kind", Json::str_of("directory")).done());
    t.go(Command::CatalogPart {
        barcode: "T2".into(),
        generation: 2,
        part: 0,
        files: vec![gone, dir, file("/f", 7, String::new(), (1, 7))],
    });
    t.go(Command::TapeCommitted {
        barcode: "T2".into(),
        volume_uuid: "v".into(),
        generation: 2,
        files: 1,
        bytes_used: 7,
        bytes_written: 7,
        parts: 1,
        full: true,
    });
    assert_eq!(t.d.stat("u", "/a"), None);
    let row = t.d.lookup("u", "/a").unwrap();
    assert_eq!((row.barcode.as_str(), row.deleted), ("T2", true));
    assert_eq!(t.d.list("u"), vec![("/f".to_string(), 7)]);
    assert_eq!(
        t.d.list_nodes("u"),
        vec![("/d".to_string(), 0, true), ("/f".to_string(), 7, false)]
    );
    // The older copy does not come back when its tape reports again.
    t.batch("T1", 3, 10, (1, 1), true);
    assert_eq!(t.d.stat("u", "/a"), None);
    assert_eq!(t.d.live_on("T1"), (0, 0));
}
