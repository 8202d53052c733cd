//! The state of a volume.
use std::sync::Arc;

use tape_rs::engine::committed::{committed_view, IndexBranch, IndexLeaf, IndexTree};
use tape_rs::engine::tree::{DirNode, FileVersion, PublishStats};
use tape_rs::engine::volume_state::{S4Evidence, SessionState, StateError, VolumeState};
use tape_rs::strmap::StrSet;

#[test]
fn rename_reference_uses_no_capacity_and_removals_do_not_recreate_ancestors() {
    let mut root = Arc::new(DirNode::default());
    let mut stats = PublishStats::default();
    root = root.with_directory(&["a", "empty"], false, &mut stats);
    root = root.with_file(
        &["a"],
        "file",
        Some(Arc::new(FileVersion { version: 1, len: 4096, partial: false })),
        &mut stats,
    );
    let mut state = VolumeState::new(1, root, 1, 0, true);
    state.open_session(1, u64::MAX);
    for p in ["/a", "/a/empty", "/a/file"] {
        state.admit_removal(1, p, 0).unwrap();
        state.complete(p).unwrap();
    }
    for (p, n) in [("/b", 0), ("/b/empty", 0), ("/b/file", 4096)] {
        state.admit_write(1, p, 0, 0).unwrap();
        state.stage_reference(p, n).unwrap();
        state.complete(p).unwrap();
    }
    let batch = state.freeze(&[]).unwrap();
    state
        .publish_namespace(
            &batch,
            S4Evidence { batch_id: batch.batch_id, generation: batch.generation },
            &StrSet::of(&["/a", "/a/empty", "/b", "/b/empty"]),
        )
        .unwrap();
    let root = state.load();
    assert!(!root.committed.subdirs.contains_key("a"));
    assert_eq!(root.committed.get("/b/file").unwrap().len, 4096);
    assert_eq!(root.ledger.consumed_since_cut, 0);
    assert!(root.pending.is_empty());
}

#[test]
fn directory_publication_is_atomic_and_does_not_create_a_file() {
    let mut state = VolumeState::new(1, Arc::new(DirNode::default()), 1, 1024, true);
    let directories = StrSet::of(&["/empty"]);
    state.open_session(1, u64::MAX);
    state.admit_write(1, "/empty", 0, 0).unwrap();
    state.complete("/empty").unwrap();
    let batch = state.freeze(&[]).unwrap();
    let before = state.load();
    let proof = S4Evidence { batch_id: batch.batch_id, generation: batch.generation };
    state.publish_namespace(&batch, proof, &directories).unwrap();
    assert!(before.committed.subdirs.is_empty());
    let created = state.load();
    assert!(created.committed.subdirs.contains_key("empty"));
    assert!(created.committed.files.is_empty());
    assert!(created.pending.is_empty());
    state.open_session(2, u64::MAX);
    state.admit_removal(2, "/empty", 1).unwrap();
    state.complete("/empty").unwrap();
    let batch = state.freeze(&[]).unwrap();
    let proof = S4Evidence { batch_id: batch.batch_id, generation: batch.generation };
    state.publish_namespace(&batch, proof, &directories).unwrap();
    assert!(created.committed.subdirs.contains_key("empty"));
    assert!(state.load().committed.subdirs.is_empty());
    assert!(state.load().committed.files.is_empty());
}

fn fresh() -> VolumeState {
    let mut v = VolumeState::new(1, Arc::new(DirNode::default()), 1, 1000, true);
    v.open_session(1, 100);
    v
}

fn evidence(b: &tape_rs::engine::volume_state::FrozenBatch) -> S4Evidence {
    S4Evidence { batch_id: b.batch_id, generation: b.generation }
}

#[test]
fn space_is_reserved_used_and_given_back() {
    let mut v = fresh();
    v.admit_write(1, "/a", 600, 0).unwrap();
    assert_eq!(v.load().ledger.available(), 400);
    assert_eq!(
        v.admit_write(1, "/b", 500, 0),
        Err(StateError::InsufficientCapacity { requested: 500, available: 400 })
    );
    v.ingest("/a", 100).unwrap();
    assert_eq!(v.load().ledger.available(), 400);
    assert_eq!(v.admit_write(1, "/a", 1, 0), Err(StateError::PathBusy("/a".into())));
    // Ending the session gives back what was not used.
    v.cancel(1).unwrap();
    assert_eq!(v.load().ledger.available(), 900);
    assert!(v.load().pending.is_empty());
    assert!(v.cancel(7).is_err());
    // A look at the device sets the account right.
    v.calibrate(5000);
    assert_eq!(v.load().ledger.available(), 5000);
}

#[test]
fn sessions_expire_unless_they_are_renewed() {
    let mut v = fresh();
    assert_eq!(v.admit_write(2, "/a", 1, 0), Err(StateError::SessionInvalid(2)));
    let seen = v.load().epoch;
    v.renew(1, 500).unwrap();
    // What was seen before the renewal no longer counts.
    assert!(v.tick(200, seen).is_empty());
    assert!(v.renew(9, 500).is_err());
    let seen = v.load().epoch;
    assert_eq!(v.tick(501, seen), vec![1]);
    assert!(matches!(v.admit_write(1, "/a", 1, 502), Err(StateError::SessionInvalid(1))));
}

#[test]
fn a_batch_is_published_once_and_waiters_are_told_once() {
    let mut v = fresh();
    v.admit_write(1, "/d/a", 10, 0).unwrap();
    v.ingest("/d/a", 10).unwrap();
    assert_eq!(v.ingest("/x", 1), Err(StateError::NoSuchPending("/x".into())));
    let w = v.wait_for("/d/a", 10);
    v.complete("/d/a").unwrap();
    let b = v.freeze(&[]).unwrap();
    assert!(matches!(v.freeze(&[]), Err(StateError::CommitSlotOccupied(_))));
    let wrong = S4Evidence { batch_id: b.batch_id + 1, generation: b.generation };
    assert!(matches!(v.publish(&b, wrong), Err(StateError::EvidenceMismatch { .. })));
    let before = v.load();
    let out = v.publish(&b, evidence(&b)).unwrap();
    assert_eq!(out.notified, vec![w]);
    assert!(!out.duplicate);
    assert_eq!(v.load().committed.get("/d/a").unwrap().len, 10);
    assert_eq!(v.load().epoch, before.epoch + 1);
    // A reader keeps the root that it has.
    assert!(before.committed.get("/d/a").is_none());
    let again = v.publish(&b, evidence(&b)).unwrap();
    assert!(again.duplicate);
    assert!(again.notified.is_empty());
    assert_eq!(v.renotify(&b), vec![w]);
    assert!(v.waiter(w).unwrap().notified);
    assert_eq!(v.load().committed.count_files(), 1);
    // Roots that no one reads are let go.
    let kept = v.retired_count();
    drop(before);
    assert_eq!(v.reclaim() + v.retired_count(), kept);
    assert_eq!(v.retired_count(), 0);
}

#[test]
fn a_publication_that_fails_leaves_the_view() {
    let mut v = fresh();
    v.admit_write(1, "/a", 10, 0).unwrap();
    v.ingest("/a", 10).unwrap();
    v.complete("/a").unwrap();
    let b = v.freeze(&[]).unwrap();
    v.fail_next_publish();
    assert!(matches!(v.publish(&b, evidence(&b)), Err(StateError::PublishFailed { .. })));
    assert!(v.load().committed.get("/a").is_none());
    assert!(matches!(v.admit_write(1, "/b", 1, 0), Err(StateError::NotWritable(_))));
    assert_eq!(v.stats().poisoned, 1);
    let mut other = VolumeState::new(2, Arc::new(DirNode::default()), 1, 1000, true);
    assert!(matches!(
        other.publish(&b, evidence(&b)),
        Err(StateError::StaleInstance { batch: 1, current: 2 })
    ));
    let mut read_only = VolumeState::new(3, Arc::new(DirNode::default()), 1, 1000, false);
    read_only.open_session(1, 100);
    assert!(matches!(read_only.admit_write(1, "/b", 1, 0), Err(StateError::NotWritable(_))));
}

#[test]
fn an_index_becomes_the_tree_that_is_served() {
    let leaf = |name: &str, uid: u64, length: u64| IndexLeaf { name: name.into(), uid, length };
    let t = committed_view(&IndexTree {
        files: vec![leaf("a", 2, 5)],
        subdirs: vec![IndexBranch {
            name: "d".into(),
            tree: IndexTree { files: vec![leaf("b", 3, 7)], subdirs: vec![] },
        }],
    });
    assert_eq!(t.get("/a").unwrap().len, 5);
    assert_eq!(t.get("/d/b").unwrap().len, 7);
    assert!(t.get("/d").is_none());
    assert_eq!(t.count_files(), 2);
}

#[test]
fn a_frozen_change_outlives_its_session() {
    let mut v = VolumeState::new(1, Arc::new(DirNode::default()), 1, 100, true);
    v.open_session(1, u64::MAX);
    v.admit_write(1, "/p", 10, 0).unwrap();
    v.ingest("/p", 10).unwrap();
    let b = v.freeze(&["/p"]).unwrap();
    v.cancel(1).unwrap();
    assert_eq!(v.load().sessions.get(1).unwrap().state, SessionState::Closing);
    assert!(v.load().pending.contains_key("/p"));
    assert_eq!(v.load().pending.get("/p").unwrap().version, b.cover.get("/p").unwrap().version);

    // A change that is in no batch ends with its session, and its place is free again.
    let mut v = VolumeState::new(1, Arc::new(DirNode::default()), 1, 100, true);
    v.open_session(1, u64::MAX);
    v.admit_write(1, "/p", 10, 0).unwrap();
    v.cancel(1).unwrap();
    assert_eq!(v.load().sessions.get(1).unwrap().state, SessionState::Expired);
    assert!(!v.load().pending.contains_key("/p"));
}
