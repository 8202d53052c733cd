//! The log that a node keeps.
use protobuf::Message as _;
use raft::eraftpb;
use tape_rs::daemon::net::{receive, FrameHead, Received};
use tape_rs::daemon::store::{
    read_row, read_snapshot, read_vote, EntryRow, NewEntry, RaftStore, SnapshotDesk,
    SnapshotPolicy, StoredVote,
};

fn entry(index: u64, term: u8, data: &[u8]) -> NewEntry {
    let mut encoded = vec![term];
    encoded.extend_from_slice(data);
    NewEntry { index, row: EntryRow { data_len: data.len() as u64, encoded } }
}

/// What a store holds, as it would be read again after a restart.
fn stored(s: &RaftStore, upto: u64) -> Vec<NewEntry> {
    (0..=upto).filter_map(|i| s.entry(i).map(|row| NewEntry { index: i, row })).collect()
}

/// The term, the vote and the log are what was stored of them, and what a newer term overwrote is
/// gone.
#[test]
fn term_vote_and_log_survive_a_restart() {
    let row = |index: u64, term: u64, data: &[u8]| read_row(entry_bytes(index, term, data)).unwrap();
    let mut s = RaftStore::open(&vec![], &None).unwrap();
    s.append(&vec![row(1, 1, b"a"), row(2, 1, b"b"), row(3, 2, b"c")]).unwrap();
    let mut hs = eraftpb::HardState::default();
    hs.term = 2;
    hs.vote = 3;
    hs.commit = 2;
    let vote = Some(hs.write_to_bytes().unwrap());
    // From index 3 on entries of a newer term take over.
    s.append(&vec![row(3, 3, b"c2")]).unwrap();
    let rows: Vec<Vec<u8>> = stored(&s, 20).into_iter().map(|e| e.row.encoded).collect();
    let s = RaftStore::open(&rows, &None).unwrap();
    assert_eq!(
        read_vote(&vote).unwrap().map(|v| (v.term, v.vote, v.commit)),
        Some((2, 3, 2))
    );
    assert_eq!(s.last_index(), 3);
    assert_eq!(s.first_index(), 1);
    assert_eq!(term_of(&s, 3), 3);
    assert_eq!(s.entry(3).unwrap().encoded, entry_bytes(3, 3, b"c2"));
    assert!(read_snapshot(&None).unwrap().is_none());
    assert_eq!(s.snapshot_index(), 0);
}

/// After a compaction only the snapshot's entry and what follows is left, and nothing before it
/// can be overwritten.
#[test]
fn compaction_bounds_the_log_and_survives_a_restart() {
    let row = |index: u64, term: u64, data: &[u8]| read_row(entry_bytes(index, term, data)).unwrap();
    let mut s = RaftStore::open(&vec![], &None).unwrap();
    let ents: Vec<NewEntry> = (1..=10).map(|i| row(i, 1, b"x")).collect();
    s.append(&ents).unwrap();
    assert!(s.due(&SnapshotPolicy { entries: 10, bytes: u64::MAX }));
    let snap = Some(snapshot_bytes(8, b"control"));
    s.compact_to(8);
    assert!(!s.due(&SnapshotPolicy { entries: 10, bytes: u64::MAX }), "计数在快照后归零");
    assert_eq!(s.len(), 3, "只剩索引 8、9、10");
    assert!(s.append(&vec![row(7, 2, b"y")]).is_err());
    // The tail behind the snapshot can be rolled back.
    s.append(&vec![row(9, 2, b"y")]).unwrap();
    assert_eq!(s.last_index(), 9);
    assert_eq!(s.entry(10), None);
    assert_eq!(term_of(&s, 8), 1, "快照点的任期留着给匹配用");
    let rows: Vec<Vec<u8>> = stored(&s, 20).into_iter().map(|e| e.row.encoded).collect();
    let s = RaftStore::open(&rows, &snap).unwrap();
    assert_eq!(s.snapshot_index(), 8);
    assert_eq!(read_snapshot(&snap).unwrap().unwrap().data, b"control");
    assert_eq!(s.first_index(), 9);
    assert_eq!(s.last_index(), 9);
    assert_eq!(term_of(&s, 9), 2);
    assert_eq!(s.len(), 1);
}

/// A snapshot from the leader: the whole log is void.
#[test]
fn installing_a_snapshot_rolls_the_whole_log_back() {
    let mut s = RaftStore::reopen(&vec![], 0);
    s.append(&vec![entry(1, 1, b"a"), entry(2, 1, b"b")]).unwrap();
    s.install_snapshot(50);
    assert_eq!(s.len(), 0);
    assert_eq!(s.snapshot_index(), 50);
    s.append(&vec![entry(51, 7, b"c")]).unwrap();
    let rows = stored(&s, 60);
    let s = RaftStore::reopen(&rows, 50);
    assert_eq!(s.snapshot_index(), 50);
    assert_eq!(s.entry(51).unwrap().encoded, vec![7, b'c']);
}

/// Where no snapshot can be given, the request is remembered.
#[test]
fn an_unavailable_snapshot_is_recorded_as_a_request() {
    let mut desk = SnapshotDesk { latest: None, wanted: 0 };
    assert!(!desk.request(1));
    assert_eq!(desk.take_wanted(), Some(1));
    assert_eq!(desk.take_wanted(), None, "请求只报一次");
}

fn term_of(s: &RaftStore, index: u64) -> u64 {
    eraftpb::Entry::parse_from_bytes(&s.entry(index).unwrap().encoded).unwrap().term
}

fn entry_bytes(index: u64, term: u64, data: &[u8]) -> Vec<u8> {
    let mut e = eraftpb::Entry::default();
    e.index = index;
    e.term = term;
    e.set_data(data.to_vec().into());
    e.write_to_bytes().unwrap()
}

fn snapshot_bytes(index: u64, data: &[u8]) -> Vec<u8> {
    let mut s = eraftpb::Snapshot::default();
    s.set_data(data.to_vec().into());
    s.mut_metadata().index = index;
    s.write_to_bytes().unwrap()
}

/// A log that is opened from the bytes that were stored of it is the same log.
#[test]
fn a_log_is_opened_from_its_bytes() {
    let mut s = RaftStore::open(&vec![], &None).unwrap();
    assert_eq!((s.snapshot_index(), s.len()), (0, 0));
    let new: Vec<NewEntry> =
        (1..=5).map(|i| read_row(entry_bytes(i, 2, &[7; 10])).unwrap()).collect();
    assert_eq!(new[2].index, 3);
    assert_eq!(new[2].row.data_len, 10);
    s.append(&new).unwrap();
    s.compact_to(3);
    let snap = Some(snapshot_bytes(3, b"state"));
    let read = read_snapshot(&snap).unwrap().unwrap();
    assert_eq!((read.index, read.data.as_slice()), (3, &b"state"[..]));
    let rows: Vec<Vec<u8>> = (4..=5).map(|i| s.entry(i).unwrap().encoded).collect();
    let r = RaftStore::open(&rows, &snap).unwrap();
    assert_eq!(r.snapshot_index(), 3);
    assert_eq!(r.len(), 2);
    assert_eq!(r.entry(5), s.entry(5));
    assert!(r.due(&SnapshotPolicy { entries: 100, bytes: 20 }));
    assert!(!r.due(&SnapshotPolicy { entries: 100, bytes: 21 }));
}

/// What cannot be read is told, the snapshot first.
#[test]
fn damaged_rows_are_told() {
    let bad = vec![0xff, 0xff];
    let text = |r: Result<RaftStore, tape_rs::error::TapeError>| r.unwrap_err().message();
    assert!(text(RaftStore::open(&vec![bad.clone()], &Some(bad.clone()))).contains("快照损坏: "));
    assert!(text(RaftStore::open(&vec![entry_bytes(1, 1, b""), bad.clone()], &None))
        .contains("日志条目损坏: "));
    assert!(read_row(bad.clone()).is_err());
    assert!(read_snapshot(&None).unwrap().is_none());
    let mut hs = eraftpb::HardState::default();
    hs.term = 4;
    hs.vote = 2;
    hs.commit = 9;
    let b = hs.write_to_bytes().unwrap();
    assert_eq!(read_vote(&Some(b)).unwrap(), Some(StoredVote { term: 4, vote: 2, commit: 9 }));
    assert_eq!(read_vote(&None).unwrap(), None);
    assert!(read_vote(&Some(bad)).unwrap_err().message().contains("HardState 损坏: "));
}

/// A frame brings a message, a request, or the end of the connection.
#[test]
fn frames_bring_messages_and_requests() {
    let mut m = eraftpb::Message::default();
    m.from = 3;
    m.to = 1;
    let b = m.write_to_bytes().unwrap();
    assert!(matches!(receive(FrameHead::Raft(b.len()), &b), Received::Message(x) if x == m));
    assert!(matches!(receive(FrameHead::Raft(2), &[0xff, 0xff]), Received::Hangup(_)));
    assert!(matches!(
        receive(FrameHead::Directory(8), &[0, 0, 0, 0, 0, 0, 1, 2]),
        Received::Fetch(258)
    ));
    assert!(matches!(receive(FrameHead::Directory(0), &[]), Received::Fetch(0)));
    assert!(matches!(
        receive(FrameHead::Unknown(9), &[]),
        Received::Hangup(s) if s == "未知的帧种类 9，断开"
    ));
    assert!(matches!(
        receive(FrameHead::TooLarge(7), &[]),
        Received::Hangup(s) if s == "收到过大的帧 (7 字节)，断开"
    ));
}
