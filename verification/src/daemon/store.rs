//! What is kept of the consensus log: its entries and how far a snapshot covers them.
//!
//! New entries overwrite what conflicts with them, never what a snapshot covers. Compaction drops
//! what lies before a snapshot, so the log stays bounded. A snapshot from another node makes the
//! whole log void.
use protobuf::Message;
use raft::eraftpb::{Entry, HardState, Snapshot};
use vstd::prelude::*;

use crate::error::{TapeError, TapeErrorView};
use crate::idmap;
use crate::idmap::IdMap;
use crate::strmap::Dup;
use crate::text;

verus! {

/// When a snapshot is made and the log compacted: as soon as either is reached.
#[derive(Debug, Clone, Copy, PartialEq, Eq, Structural)]
pub struct SnapshotPolicy {
    /// Entries since the last snapshot.
    pub entries: u64,
    /// Bytes of entry data since the last snapshot.
    pub bytes: u64,
}

impl Default for SnapshotPolicy {
    fn default() -> (r: Self)
        ensures
            r == (SnapshotPolicy { entries: 2_000, bytes: 0x1000_0000 }),
    {
        SnapshotPolicy { entries: 2_000, bytes: 0x1000_0000 }
    }
}

/// An entry: the length of its data, and all of it as it is stored.
#[derive(Debug, PartialEq, Eq)]
pub struct EntryRow {
    pub data_len: u64,
    pub encoded: Vec<u8>,
}

#[verifier::ext_equal]
pub struct EntryView {
    pub data_len: u64,
    pub encoded: Seq<u8>,
}

impl View for EntryRow {
    type V = EntryView;

    open spec fn view(&self) -> EntryView {
        EntryView { data_len: self.data_len, encoded: self.encoded@ }
    }
}

impl Dup for EntryRow {
    fn dup(&self) -> (r: Self) {
        let mut encoded: Vec<u8> = Vec::new();
        encoded.extend_from_slice(self.encoded.as_slice());
        assert(encoded@ =~= self.encoded@);
        EntryRow { data_len: self.data_len, encoded }
    }
}

/// An entry and its index.
#[derive(Debug, PartialEq, Eq)]
pub struct NewEntry {
    pub index: u64,
    pub row: EntryRow,
}

#[verifier::ext_equal]
pub struct ItemView {
    pub index: u64,
    pub row: EntryView,
}

impl View for NewEntry {
    type V = ItemView;

    open spec fn view(&self) -> ItemView {
        ItemView { index: self.index, row: self.row@ }
    }
}

/// What a list of entries says.
pub open spec fn items(v: Seq<NewEntry>) -> Seq<ItemView> {
    v.map_values(|e: NewEntry| e@)
}

pub type Entries = Map<u64, EntryView>;

/// The entries before `index`.
pub open spec fn before(m: Entries, index: u64) -> Entries {
    Map::new(|k: u64| m.contains_key(k) && k < index, |k: u64| m[k])
}

/// The entries from `index` on.
pub open spec fn from_on(m: Entries, index: u64) -> Entries {
    Map::new(|k: u64| m.contains_key(k) && k >= index, |k: u64| m[k])
}

/// `m` with the new entries.
pub open spec fn with_new(m: Entries, v: Seq<ItemView>) -> Entries
    decreases v.len(),
{
    if v.len() == 0 {
        m
    } else {
        with_new(m, v.drop_last()).insert(v.last().index, v.last().row)
    }
}

/// The bytes of data of the new entries.
pub open spec fn new_bytes(v: Seq<ItemView>) -> nat
    decreases v.len(),
{
    if v.len() == 0 {
        0
    } else {
        new_bytes(v.drop_last()) + v.last().row.data_len as nat
    }
}

proof fn lemma_new_bytes_take(v: Seq<ItemView>, i: int)
    requires
        0 <= i <= v.len(),
    ensures
        new_bytes(v.take(i)) <= new_bytes(v),
    decreases v.len() - i,
{
    if i < v.len() {
        assert(v.take(i + 1).drop_last() =~= v.take(i));
        lemma_new_bytes_take(v, i + 1);
    } else {
        assert(v.take(i) =~= v);
    }
}

/// The log as it is kept.
#[derive(Debug)]
pub struct RaftStore {
    entries: IdMap<EntryRow>,
    snapshot_index: u64,
    since_entries: u64,
    since_bytes: u64,
}

#[verifier::ext_equal]
pub struct StoreView {
    pub entries: Entries,
    /// The snapshot covers the log up to here.
    pub snapshot_index: u64,
    /// What has been added since the snapshot.
    pub since_entries: u64,
    pub since_bytes: u64,
}

impl View for RaftStore {
    type V = StoreView;

    closed spec fn view(&self) -> StoreView {
        StoreView {
            entries: self.entries@,
            snapshot_index: self.snapshot_index,
            since_entries: self.since_entries,
            since_bytes: self.since_bytes,
        }
    }
}

impl StoreView {
    /// Why entries from `first` on cannot be added, if they cannot.
    pub open spec fn append_refusal(self, first: u64) -> Option<Seq<char>> {
        if first <= self.snapshot_index {
            Some(
                "日志回滚越过快照点：要从索引 "@ + text::decimal(first as nat)
                    + " 起覆写，但快照已覆盖到 "@ + text::decimal(
                    self.snapshot_index as nat,
                ),
            )
        } else {
            None
        }
    }

    /// With entries added, which overwrite everything from the first of them on.
    pub open spec fn appended(self, v: Seq<ItemView>) -> StoreView {
        StoreView {
            entries: with_new(before(self.entries, v[0].index), v),
            since_entries: (self.since_entries + v.len()) as u64,
            since_bytes: (self.since_bytes + new_bytes(v)) as u64,
            ..self
        }
    }

    /// With the snapshot at `index` made here.
    pub open spec fn compacted(self, index: u64) -> StoreView {
        if index <= self.snapshot_index {
            self
        } else {
            StoreView {
                entries: from_on(self.entries, index),
                snapshot_index: index,
                since_entries: 0,
                since_bytes: 0,
            }
        }
    }

    /// With the snapshot at `index` of another node.
    pub open spec fn installed(self, index: u64) -> StoreView {
        StoreView {
            entries: Map::empty(),
            snapshot_index: index,
            since_entries: 0,
            since_bytes: 0,
        }
    }

    /// A snapshot is due.
    pub open spec fn due(self, policy: SnapshotPolicy) -> bool {
        self.since_entries >= policy.entries || self.since_bytes >= policy.bytes
    }
}

/// What `raft::eraftpb::Entry::parse_from_bytes` reads in bytes: the index of an entry and the
/// length of its data, or why it is none.
pub uninterp spec fn entry_in(b: Seq<u8>) -> Result<(u64, u64), Seq<char>>;

/// What `raft::eraftpb::Snapshot::parse_from_bytes` reads in bytes: the index that a snapshot covers
/// and its data, or why it is none.
pub uninterp spec fn snapshot_in(b: Seq<u8>) -> Result<(u64, Seq<u8>), Seq<char>>;

/// What `raft::eraftpb::HardState::parse_from_bytes` reads in bytes: the term, the vote and how far
/// the log is committed, or why it is none.
pub uninterp spec fn hard_state_in(b: Seq<u8>) -> Result<(u64, u64, u64), Seq<char>>;

/// `raft::eraftpb::Entry::parse_from_bytes`: what it reads depends on the bytes alone.
#[verifier::external_body]
fn parse_entry(b: &[u8]) -> (r: Result<(u64, u64), String>)
    ensures
        match r {
            Ok(x) => entry_in(b@) == Ok::<(u64, u64), Seq<char>>(x),
            Err(e) => entry_in(b@) == Err::<(u64, u64), Seq<char>>(e@),
        },
{
    match Entry::parse_from_bytes(b) {
        Ok(e) => Ok((e.index, e.data.len() as u64)),
        Err(e) => Err(e.to_string()),
    }
}

/// `raft::eraftpb::Snapshot::parse_from_bytes`: what it reads depends on the bytes alone.
#[verifier::external_body]
fn parse_snapshot(b: &[u8]) -> (r: Result<(u64, Vec<u8>), String>)
    ensures
        match r {
            Ok(x) => snapshot_in(b@) == Ok::<(u64, Seq<u8>), Seq<char>>((x.0, x.1@)),
            Err(e) => snapshot_in(b@) == Err::<(u64, Seq<u8>), Seq<char>>(e@),
        },
{
    match Snapshot::parse_from_bytes(b) {
        Ok(s) => Ok((s.get_metadata().index, s.get_data().to_vec())),
        Err(e) => Err(e.to_string()),
    }
}

/// `raft::eraftpb::HardState::parse_from_bytes`: what it reads depends on the bytes alone.
#[verifier::external_body]
fn parse_hard_state(b: &[u8]) -> (r: Result<(u64, u64, u64), String>)
    ensures
        match r {
            Ok(x) => hard_state_in(b@) == Ok::<(u64, u64, u64), Seq<char>>(x),
            Err(e) => hard_state_in(b@) == Err::<(u64, u64, u64), Seq<char>>(e@),
        },
{
    match HardState::parse_from_bytes(b) {
        Ok(h) => Ok((h.term, h.vote, h.commit)),
        Err(e) => Err(e.to_string()),
    }
}

/// The entry that a row holds.
pub open spec fn item_in(b: Seq<u8>) -> Result<ItemView, TapeErrorView> {
    match entry_in(b) {
        Ok(x) => Ok(ItemView { index: x.0, row: EntryView { data_len: x.1, encoded: b } }),
        Err(e) => Err(TapeErrorView::Ltfs("控制存储里的日志条目损坏: "@ + e)),
    }
}

/// The entry that a row holds.
pub fn read_row(encoded: Vec<u8>) -> (r: Result<NewEntry, TapeError>)
    ensures
        match r {
            Ok(e) => item_in(encoded@) == Ok::<ItemView, TapeErrorView>(e@),
            Err(e) => item_in(encoded@) == Err::<ItemView, TapeErrorView>(e@),
        },
{
    match parse_entry(encoded.as_slice()) {
        Ok(x) => Ok(NewEntry { index: x.0, row: EntryRow { data_len: x.1, encoded } }),
        Err(e) => Err(
            TapeError::Ltfs(text::cat2("控制存储里的日志条目损坏: ", e.as_str())),
        ),
    }
}

/// The entries that the rows hold, or what is wrong with the first that holds none.
pub open spec fn items_in(rows: Seq<Seq<u8>>) -> Result<Seq<ItemView>, TapeErrorView>
    decreases rows.len(),
{
    if rows.len() == 0 {
        Ok(Seq::empty())
    } else {
        match items_in(rows.drop_last()) {
            Ok(v) => match item_in(rows.last()) {
                Ok(e) => Ok(v.push(e)),
                Err(e) => Err(e),
            },
            Err(e) => Err(e),
        }
    }
}

/// What a list of rows holds.
pub open spec fn row_views(rows: Seq<Vec<u8>>) -> Seq<Seq<u8>> {
    rows.map_values(|v: Vec<u8>| v@)
}

proof fn lemma_items_in(rows: Seq<Seq<u8>>, i: int)
    requires
        0 <= i <= rows.len(),
        items_in(rows.take(i)) is Err,
    ensures
        items_in(rows) == items_in(rows.take(i)),
    decreases rows.len() - i,
{
    if i < rows.len() {
        assert(rows.take(i + 1).drop_last() =~= rows.take(i));
        lemma_items_in(rows, i + 1);
    } else {
        assert(rows.take(i) =~= rows);
    }
}

/// The entries that the rows hold.
fn read_rows(rows: &Vec<Vec<u8>>) -> (r: Result<Vec<NewEntry>, TapeError>)
    ensures
        match r {
            Ok(v) => items_in(row_views(rows@)) == Ok::<Seq<ItemView>, TapeErrorView>(items(v@)),
            Err(e) => items_in(row_views(rows@)) == Err::<Seq<ItemView>, TapeErrorView>(e@),
        },
{
    let ghost all = row_views(rows@);
    let mut out: Vec<NewEntry> = Vec::new();
    let mut i: usize = 0;
    assert(all.take(0) =~= Seq::<Seq<u8>>::empty());
    assert(items(out@) =~= Seq::<ItemView>::empty());
    while i < rows.len()
        invariant
            i <= rows@.len(),
            all == row_views(rows@),
            items_in(all.take(i as int)) == Ok::<Seq<ItemView>, TapeErrorView>(items(out@)),
        decreases rows@.len() - i,
    {
        let mut b: Vec<u8> = Vec::new();
        b.extend_from_slice(rows[i].as_slice());
        assert(b@ =~= all[i as int]);
        let ghost was = items(out@);
        assert(all.take(i + 1).drop_last() =~= all.take(i as int));
        assert(all.take(i + 1).last() == b@);
        match read_row(b) {
            Ok(e) => {
                out.push(e);
                assert(items(out@) =~= was.push(e@));
            },
            Err(e) => {
                proof {
                    lemma_items_in(all, i + 1);
                }
                return Err(e);
            },
        }
        i += 1;
    }
    assert(all.take(i as int) =~= all);
    Ok(out)
}

/// A snapshot as it was stored: how far it covers the log, and its data.
#[derive(Debug, PartialEq, Eq)]
pub struct StoredSnapshot {
    pub index: u64,
    pub data: Vec<u8>,
}

/// The snapshot that is stored, if any is.
pub open spec fn stored_snapshot(b: Option<Seq<u8>>) -> Result<
    Option<(u64, Seq<u8>)>,
    TapeErrorView,
> {
    match b {
        None => Ok(None),
        Some(b) => match snapshot_in(b) {
            Ok(x) => Ok(Some(x)),
            Err(e) => Err(TapeErrorView::Ltfs("控制存储里的快照损坏: "@ + e)),
        },
    }
}

/// What may be stored.
pub open spec fn opt_bytes(b: Option<Vec<u8>>) -> Option<Seq<u8>> {
    match b {
        Some(v) => Some(v@),
        None => None,
    }
}

/// Reads the snapshot that is stored, if any is.
pub fn read_snapshot(stored: &Option<Vec<u8>>) -> (r: Result<Option<StoredSnapshot>, TapeError>)
    ensures
        stored_snapshot(opt_bytes(*stored)) == (match r {
            Ok(Some(s)) => Ok(Some((s.index, s.data@))),
            Ok(None) => Ok(None),
            Err(e) => Err(e@),
        }),
{
    match stored {
        None => Ok(None),
        Some(b) => match parse_snapshot(b.as_slice()) {
            Ok(x) => Ok(Some(StoredSnapshot { index: x.0, data: x.1 })),
            Err(e) => Err(TapeError::Ltfs(text::cat2("控制存储里的快照损坏: ", e.as_str()))),
        },
    }
}

/// What a node must not forget of its votes.
#[derive(Debug, Clone, Copy, PartialEq, Eq, Structural)]
pub struct StoredVote {
    pub term: u64,
    pub vote: u64,
    pub commit: u64,
}

/// Reads the vote that is stored, if any is.
pub fn read_vote(stored: &Option<Vec<u8>>) -> (r: Result<Option<StoredVote>, TapeError>)
    ensures
        match opt_bytes(*stored) {
            None => r == Ok::<Option<StoredVote>, TapeError>(None),
            Some(b) => match hard_state_in(b) {
                Ok(x) => r == Ok::<Option<StoredVote>, TapeError>(
                    Some(StoredVote { term: x.0, vote: x.1, commit: x.2 }),
                ),
                Err(e) => r is Err && r->Err_0@ == TapeErrorView::Ltfs(
                    "控制存储里的 HardState 损坏: "@ + e,
                ),
            },
        },
{
    match stored {
        None => Ok(None),
        Some(b) => match parse_hard_state(b.as_slice()) {
            Ok(x) => Ok(Some(StoredVote { term: x.0, vote: x.1, commit: x.2 })),
            Err(e) => Err(
                TapeError::Ltfs(text::cat2("控制存储里的 HardState 损坏: ", e.as_str())),
            ),
        },
    }
}

/// What a node finds stored: the snapshot is read first, then the rows in their order.
pub open spec fn opened(rows: Seq<Seq<u8>>, snapshot: Option<Seq<u8>>) -> Result<
    StoreView,
    TapeErrorView,
> {
    match stored_snapshot(snapshot) {
        Err(e) => Err(e),
        Ok(s) => match items_in(rows) {
            Err(e) => Err(e),
            Ok(v) => if new_bytes(v) > u64::MAX {
                Err(TapeErrorView::Ltfs("控制存储里的日志过大"@))
            } else {
                Ok(
                    reopened(
                        v,
                        match s {
                            Some(x) => x.0,
                            None => 0,
                        },
                    ),
                )
            },
        },
    }
}

/// Whether the data of the entries can be counted.
fn fits(v: &Vec<NewEntry>) -> (r: bool)
    ensures
        r == (new_bytes(items(v@)) <= u64::MAX),
{
    let ghost all = items(v@);
    let mut sum: u64 = 0;
    let mut i: usize = 0;
    assert(all.take(0) =~= Seq::<ItemView>::empty());
    while i < v.len()
        invariant
            i <= v@.len(),
            all == items(v@),
            sum == new_bytes(all.take(i as int)),
        decreases v@.len() - i,
    {
        proof {
            assert(all.take(i + 1).drop_last() =~= all.take(i as int));
            lemma_new_bytes_take(all, i + 1);
        }
        match sum.checked_add(v[i].row.data_len) {
            Some(x) => {
                sum = x;
            },
            None => {
                return false;
            },
        }
        i += 1;
    }
    assert(all.take(i as int) =~= all);
    true
}

impl RaftStore {
    /// The log from what is stored: the rows that hold its entries, in order, and the snapshot. A
    /// snapshot or a row that cannot be read is an error, and so is more data than can be counted.
    pub fn open(rows: &Vec<Vec<u8>>, snapshot: &Option<Vec<u8>>) -> (r: Result<Self, TapeError>)
        ensures
            match r {
                Ok(s) => opened(row_views(rows@), opt_bytes(*snapshot)) == Ok::<
                    StoreView,
                    TapeErrorView,
                >(s@),
                Err(e) => opened(row_views(rows@), opt_bytes(*snapshot)) == Err::<
                    StoreView,
                    TapeErrorView,
                >(e@),
            },
    {
        let covered: u64 = match read_snapshot(snapshot) {
            Ok(Some(s)) => s.index,
            Ok(None) => 0,
            Err(e) => {
                return Err(e);
            },
        };
        match read_rows(rows) {
            Ok(v) => if fits(&v) {
                Ok(RaftStore::reopen(&v, covered))
            } else {
                Err(TapeError::Ltfs("控制存储里的日志过大".to_owned()))
            },
            Err(e) => Err(e),
        }
    }

    /// The log as it was stored: what the snapshot covers is not read again, and what lies after
    /// it counts towards the next one.
    pub fn reopen(stored: &Vec<NewEntry>, snapshot_index: u64) -> (r: Self)
        requires
            new_bytes(items(stored@)) <= u64::MAX,
        ensures
            r@ == reopened(items(stored@), snapshot_index),
    {
        let ghost all = items(stored@);
        let mut entries: IdMap<EntryRow> = IdMap::new();
        let mut since_entries: u64 = 0;
        let mut since_bytes: u64 = 0;
        let mut i: usize = 0;
        assert(all.take(0) =~= Seq::<ItemView>::empty());
        assert(after(all.take(0), snapshot_index) =~= Seq::<ItemView>::empty());
        while i < stored.len()
            invariant
                i <= stored@.len(),
                all == items(stored@),
                new_bytes(all) <= u64::MAX,
                entries@ == with_new(
                    Map::empty(),
                    after(all.take(i as int), snapshot_index),
                ),
                since_entries == after(all.take(i as int), snapshot_index).len(),
                since_entries <= i,
                since_bytes == new_bytes(after(all.take(i as int), snapshot_index)),
                since_bytes <= new_bytes(all.take(i as int)),
            decreases stored@.len() - i,
        {
            let e = &stored[i];
            proof {
                assert(all.take(i + 1).drop_last() =~= all.take(i as int));
                lemma_new_bytes_take(all, i + 1);
                let rest = after(all.take(i as int), snapshot_index);
                assert(rest.push(e@).drop_last() =~= rest);
            }
            if e.index > snapshot_index {
                entries.insert(e.index, e.row.dup());
                since_entries = since_entries + 1;
                since_bytes = since_bytes + e.row.data_len;
            }
            i += 1;
        }
        assert(all.take(i as int) =~= all);
        RaftStore { entries, snapshot_index, since_entries, since_bytes }
    }

    pub fn snapshot_index(&self) -> (r: u64)
        ensures
            r == self@.snapshot_index,
    {
        self.snapshot_index
    }

    /// The index of the first entry behind the snapshot.
    pub fn first_index(&self) -> (r: u64)
        requires
            self@.snapshot_index < u64::MAX,
        ensures
            r == self@.snapshot_index + 1,
    {
        self.snapshot_index + 1
    }

    /// The index of the last entry, that of the snapshot where none lies behind it.
    pub fn last_index(&self) -> (r: u64)
        ensures
            r >= self@.snapshot_index,
            r == self@.snapshot_index || self@.entries.contains_key(r),
            forall|k: u64| #[trigger] self@.entries.contains_key(k) ==> k <= r,
    {
        let ks = self.entries.keys();
        let n = ks.len();
        if n == 0 {
            proof {
                assert forall|k: u64| #[trigger] self@.entries.contains_key(k) implies k
                    <= self.snapshot_index by {
                    assert(ks@.contains(k));
                }
            }
            return self.snapshot_index;
        }
        let last: u64 = ks[n - 1];
        proof {
            assert forall|k: u64| #[trigger] self@.entries.contains_key(k) implies k <= last by {
                assert(ks@.contains(k));
                let j = choose|j: int| 0 <= j < ks@.len() && ks@[j] == k;
                if j < n - 1 {
                    assert(ks@[j] < ks@[n - 1]);
                }
            }
        }
        if last > self.snapshot_index {
            last
        } else {
            self.snapshot_index
        }
    }

    /// Whether a snapshot is due.
    pub fn due(&self, policy: &SnapshotPolicy) -> (r: bool)
        ensures
            r == self@.due(*policy),
    {
        self.since_entries >= policy.entries || self.since_bytes >= policy.bytes
    }

    /// How many entries are kept.
    pub fn len(&self) -> (r: usize)
        ensures
            r == self@.entries.dom().len(),
    {
        self.entries.len()
    }

    /// The entry at `index`.
    pub fn entry(&self, index: u64) -> (r: Option<EntryRow>)
        ensures
            r is Some <==> self@.entries.contains_key(index),
            r is Some ==> r->0@ == self@.entries[index],
    {
        match self.entries.get(index) {
            Some(e) => Some(e.dup()),
            None => None,
        }
    }

    fn keep(&self, lowest: u64, highest: u64) -> (r: IdMap<EntryRow>)
        ensures
            r@ == Map::new(
                |k: u64| self@.entries.contains_key(k) && lowest <= k <= highest,
                |k: u64| self@.entries[k],
            ),
    {
        let ghost m = self.entries@;
        let ghost want = Map::new(
            |k: u64| m.contains_key(k) && lowest <= k <= highest,
            |k: u64| m[k],
        );
        let mut out: IdMap<EntryRow> = IdMap::new();
        let keys = self.entries.keys();
        let n = keys.len();
        let ghost ks = idmap::sorted_keys(m);
        let mut i: usize = 0;
        while i < n
            invariant
                i <= n == ks.len(),
                m == self.entries@,
                ks == idmap::sorted_keys(m),
                keys@ == ks,
                forall|j: int| 0 <= j < n ==> m.contains_key(#[trigger] ks[j]),
                want == Map::new(
                    |k: u64| m.contains_key(k) && lowest <= k <= highest,
                    |k: u64| m[k],
                ),
                forall|k: u64| #[trigger]
                    out@.contains_key(k) <==> want.contains_key(k) && exists|j: int|
                        0 <= j < i && ks[j] == k,
                forall|k: u64| #[trigger] out@.contains_key(k) ==> out@[k] == want[k],
            decreases n - i,
        {
            let k: u64 = keys[i];
            if lowest <= k && k <= highest {
                out.insert(k, self.entries.value(keys[i]).dup());
            }
            i += 1;
        }
        assert(out@ =~= want) by {
            assert forall|k: u64| want.contains_key(k) implies out@.contains_key(k) by {
                assert(ks.contains(k));
            }
        }
        out
    }

    /// Adds entries. Everything from the first of them on is overwritten; what a snapshot covers
    /// cannot be.
    pub fn append(&mut self, ents: &Vec<NewEntry>) -> (r: Result<(), TapeError>)
        requires
            old(self)@.since_entries + ents@.len() <= u64::MAX,
            old(self)@.since_bytes + new_bytes(items(ents@)) <= u64::MAX,
        ensures
            if ents@.len() == 0 {
                r is Ok && final(self)@ == old(self)@
            } else {
                match old(self)@.append_refusal(ents@[0].index) {
                    Some(e) => {
                        &&& r is Err
                        &&& r->Err_0@ == TapeErrorView::Ltfs(e)
                        &&& final(self)@ == old(self)@
                    },
                    None => r is Ok && final(self)@ == old(self)@.appended(items(ents@)),
                }
            },
    {
        if ents.len() == 0 {
            return Ok(());
        }
        let first: u64 = ents[0].index;
        if first <= self.snapshot_index {
            return Err(
                TapeError::Ltfs(
                    text::cat4(
                        "日志回滚越过快照点：要从索引 ",
                        text::decimal_text(first).as_str(),
                        " 起覆写，但快照已覆盖到 ",
                        text::decimal_text(self.snapshot_index).as_str(),
                    ),
                ),
            );
        }
        let mut entries = self.keep(0, first - 1);
        let ghost base = before(self@.entries, first);
        assert(entries@ =~= base);
        let ghost all = items(ents@);
        let mut bytes: u64 = 0;
        let mut i: usize = 0;
        assert(all.take(0) =~= Seq::<ItemView>::empty());
        while i < ents.len()
            invariant
                i <= ents@.len(),
                all == items(ents@),
                new_bytes(all) <= u64::MAX,
                bytes == new_bytes(all.take(i as int)),
                entries@ == with_new(base, all.take(i as int)),
            decreases ents@.len() - i,
        {
            proof {
                assert(all.take(i + 1).drop_last() =~= all.take(i as int));
                lemma_new_bytes_take(all, i + 1);
            }
            let e = &ents[i];
            entries.insert(e.index, e.row.dup());
            bytes = bytes + e.row.data_len;
            i += 1;
        }
        assert(all.take(i as int) =~= all);
        self.entries = entries;
        self.since_entries = self.since_entries + ents.len() as u64;
        self.since_bytes = self.since_bytes + bytes;
        Ok(())
    }

    /// Takes note of a snapshot made here and drops the entries before it. An older snapshot than
    /// the last changes nothing.
    pub fn compact_to(&mut self, index: u64)
        ensures
            final(self)@ == old(self)@.compacted(index),
    {
        if index <= self.snapshot_index {
            return;
        }
        let entries = self.keep(index, 0xffff_ffff_ffff_ffff);
        assert(entries@ =~= from_on(self@.entries, index));
        self.entries = entries;
        self.snapshot_index = index;
        self.since_entries = 0;
        self.since_bytes = 0;
    }

    /// Takes note of a snapshot that came from another node: the whole log is void.
    pub fn install_snapshot(&mut self, index: u64)
        ensures
            final(self)@ == old(self)@.installed(index),
    {
        self.entries = IdMap::new();
        self.snapshot_index = index;
        self.since_entries = 0;
        self.since_bytes = 0;
    }
}

/// The stored entries that a snapshot does not cover.
pub open spec fn after(v: Seq<ItemView>, index: u64) -> Seq<ItemView>
    decreases v.len(),
{
    if v.len() == 0 {
        Seq::empty()
    } else if v.last().index > index {
        after(v.drop_last(), index).push(v.last())
    } else {
        after(v.drop_last(), index)
    }
}

/// The log as it comes back from where it is stored.
pub open spec fn reopened(v: Seq<ItemView>, snapshot_index: u64) -> StoreView {
    let rest = after(v, snapshot_index);
    StoreView {
        entries: with_new(Map::empty(), rest),
        snapshot_index,
        since_entries: rest.len() as u64,
        since_bytes: new_bytes(rest) as u64,
    }
}

/// Which snapshot is there, and which has been asked for in vain.
#[derive(Debug, Clone, Copy, PartialEq, Eq, Structural)]
pub struct SnapshotDesk {
    /// The index of the latest snapshot.
    pub latest: Option<u64>,
    /// The highest index that was asked for and could not be served, 0 where none was.
    pub wanted: u64,
}

impl SnapshotDesk {
    /// Whether the latest snapshot serves a request. Where it does not the request is noted, so
    /// that a snapshot is made.
    pub fn request(&mut self, request_index: u64) -> (r: bool)
        ensures
            r == (old(self).latest is Some && old(self).latest->0 >= request_index),
            final(self).latest == old(self).latest,
            final(self).wanted == (if r {
                old(self).wanted
            } else if request_index > old(self).wanted {
                request_index
            } else if old(self).wanted == 0 {
                1
            } else {
                old(self).wanted
            }),
    {
        let served = match self.latest {
            Some(i) => i >= request_index,
            None => false,
        };
        if !served {
            let least: u64 = if request_index > 1 {
                request_index
            } else {
                1
            };
            if least > self.wanted {
                self.wanted = least;
            }
        }
        served
    }

    /// Takes the noted request; it is told once.
    pub fn take_wanted(&mut self) -> (r: Option<u64>)
        ensures
            r == (if old(self).wanted > 0 {
                Some(old(self).wanted)
            } else {
                None
            }),
            final(self).wanted == 0,
            final(self).latest == old(self).latest,
    {
        let w: u64 = self.wanted;
        self.wanted = 0;
        if w > 0 {
            Some(w)
        } else {
            None
        }
    }
}

proof fn lemma_with_new(m: Entries, v: Seq<ItemView>, first: u64)
    requires
        forall|i: int| 0 <= i < v.len() ==> (#[trigger] v[i]).index >= first,
    ensures
        forall|k: u64|
            k < first ==> (#[trigger] with_new(m, v).contains_key(k) <==> m.contains_key(k)),
        forall|k: u64|
            k < first && #[trigger] with_new(m, v).contains_key(k) ==> with_new(m, v)[k] == m[k],
    decreases v.len(),
{
    if v.len() > 0 {
        assert(v[v.len() - 1] == v.last());
        assert forall|i: int| 0 <= i < v.drop_last().len() implies (
        #[trigger] v.drop_last()[i]).index >= first by {
            assert(v[i] == v.drop_last()[i]);
        }
        lemma_with_new(m, v.drop_last(), first);
        let w = with_new(m, v.drop_last());
        assert forall|k: u64| k < first && #[trigger] with_new(m, v).contains_key(k) implies with_new(
            m,
            v,
        )[k] == m[k] by {
            assert(w.contains_key(k));
        }
    }
}

/// Adding entries never changes what lies before the first of them, so nothing that a snapshot
/// covers.
pub proof fn law_append_keeps_what_is_covered(s: StoreView, v: Seq<ItemView>, k: u64)
    requires
        v.len() > 0,
        forall|i: int| 0 <= i < v.len() ==> (#[trigger] v[i]).index >= v[0].index,
        s.append_refusal(v[0].index) is None,
        k < v[0].index,
    ensures
        s.appended(v).entries.contains_key(k) <==> s.entries.contains_key(k),
        s.entries.contains_key(k) ==> s.appended(v).entries[k] == s.entries[k],
        s.snapshot_index < v[0].index,
{
    let base = before(s.entries, v[0].index);
    lemma_with_new(base, v, v[0].index);
    assert(base.contains_key(k) <==> s.entries.contains_key(k));
    assert(with_new(base, v).contains_key(k) <==> base.contains_key(k));
}

/// After compaction only entries from the snapshot on are left, nothing is due, and the snapshot
/// never goes back.
pub proof fn law_compaction_bounds_the_log(s: StoreView, index: u64, policy: SnapshotPolicy, k: u64)
    requires
        index > s.snapshot_index,
        policy.entries > 0,
        policy.bytes > 0,
    ensures
        s.compacted(index).entries.contains_key(k) ==> k >= index,
        s.entries.contains_key(k) && k >= index ==> s.compacted(index).entries.contains_key(k)
            && s.compacted(index).entries[k] == s.entries[k],
        !s.compacted(index).due(policy),
        s.compacted(index).snapshot_index > s.snapshot_index,
        s.compacted(index).append_refusal(index) is Some,
{
}

/// Every entry that is kept can be read again: its bytes hold its index and the length of its data.
pub open spec fn readable(m: Entries) -> bool {
    forall|k: u64| #[trigger]
        m.contains_key(k) ==> entry_in(m[k].encoded) == Ok::<(u64, u64), Seq<char>>(
            (k, m[k].data_len),
        )
}

/// The rows are the entries behind the snapshot.
pub open spec fn rows_of(rows: Seq<Seq<u8>>, s: StoreView) -> bool {
    &&& forall|i: int|
        0 <= i < rows.len() ==> exists|k: u64| #[trigger]
            s.entries.contains_key(k) && k > s.snapshot_index && s.entries[k].encoded
                == #[trigger] rows[i]
    &&& forall|k: u64| #[trigger]
        s.entries.contains_key(k) && k > s.snapshot_index ==> rows.contains(s.entries[k].encoded)
}

proof fn lemma_readable_with_new(m: Entries, v: Seq<ItemView>)
    requires
        readable(m),
        forall|i: int|
            0 <= i < v.len() ==> item_in((#[trigger] v[i]).row.encoded) == Ok::<
                ItemView,
                TapeErrorView,
            >(v[i]),
    ensures
        readable(with_new(m, v)),
    decreases v.len(),
{
    if v.len() > 0 {
        let t = v.drop_last();
        assert forall|i: int| 0 <= i < t.len() implies item_in((#[trigger] t[i]).row.encoded) == Ok::<
            ItemView,
            TapeErrorView,
        >(t[i]) by {
            assert(t[i] == v[i]);
        }
        lemma_readable_with_new(m, t);
        assert(v[v.len() - 1] == v.last());
    }
}

/// A log stays readable: rows that are read and added, compaction and snapshots leave only entries
/// that can be read again.
pub proof fn law_log_stays_readable(s: StoreView, v: Seq<ItemView>, index: u64)
    requires
        readable(s.entries),
        v.len() > 0,
        forall|i: int|
            0 <= i < v.len() ==> item_in((#[trigger] v[i]).row.encoded) == Ok::<
                ItemView,
                TapeErrorView,
            >(v[i]),
    ensures
        readable(s.appended(v).entries),
        readable(s.compacted(index).entries),
        readable(s.installed(index).entries),
{
    let base = before(s.entries, v[0].index);
    assert forall|k: u64| #[trigger] base.contains_key(k) implies entry_in(base[k].encoded) == Ok::<
        (u64, u64),
        Seq<char>,
    >((k, base[k].data_len)) by {
        assert(s.entries.contains_key(k));
    }
    lemma_readable_with_new(base, v);
    let c = s.compacted(index).entries;
    assert forall|k: u64| #[trigger] c.contains_key(k) implies entry_in(c[k].encoded) == Ok::<
        (u64, u64),
        Seq<char>,
    >((k, c[k].data_len)) by {
        assert(s.entries.contains_key(k));
    }
}

proof fn lemma_rows_read(rows: Seq<Seq<u8>>, m: Entries)
    requires
        forall|i: int|
            0 <= i < rows.len() ==> exists|k: u64| #[trigger]
                m.contains_key(k) && m[k].encoded == #[trigger] rows[i],
        readable(m),
    ensures
        items_in(rows) is Ok,
        items_in(rows)->Ok_0.len() == rows.len(),
        forall|i: int|
            0 <= i < rows.len() ==> {
                let e = #[trigger] items_in(rows)->Ok_0[i];
                e.row.encoded == rows[i] && m.contains_key(e.index) && m[e.index] == e.row
            },
    decreases rows.len(),
{
    if rows.len() > 0 {
        let t = rows.drop_last();
        assert forall|i: int| 0 <= i < t.len() implies exists|k: u64| #[trigger]
            m.contains_key(k) && m[k].encoded == #[trigger] t[i] by {
            assert(t[i] == rows[i]);
        }
        lemma_rows_read(t, m);
        let b = rows[rows.len() - 1];
        let k = choose|k: u64| #[trigger] m.contains_key(k) && m[k].encoded == b;
        assert(entry_in(b) == Ok::<(u64, u64), Seq<char>>((k, m[k].data_len)));
        let e = item_in(b)->Ok_0;
        assert(e.row =~= m[k]);
        let v = items_in(t)->Ok_0;
        assert(items_in(rows) == Ok::<Seq<ItemView>, TapeErrorView>(v.push(e)));
        assert forall|i: int| 0 <= i < rows.len() implies {
            let e = #[trigger] items_in(rows)->Ok_0[i];
            e.row.encoded == rows[i] && m.contains_key(e.index) && m[e.index] == e.row
        } by {
            if i < t.len() {
                assert(v[i].row.encoded == t[i]);
            }
        }
    }
}

proof fn lemma_collect(v: Seq<ItemView>, m: Entries, index: u64)
    requires
        forall|i: int|
            0 <= i < v.len() ==> m.contains_key((#[trigger] v[i]).index) && m[v[i].index]
                == v[i].row,
    ensures
        forall|k: u64| #[trigger]
            with_new(Map::empty(), after(v, index)).contains_key(k) ==> k > index
                && m.contains_key(k) && with_new(Map::empty(), after(v, index))[k] == m[k],
        forall|i: int|
            0 <= i < v.len() && (#[trigger] v[i]).index > index ==> with_new(
                Map::empty(),
                after(v, index),
            ).contains_key(v[i].index),
    decreases v.len(),
{
    if v.len() > 0 {
        let t = v.drop_last();
        assert forall|i: int| 0 <= i < t.len() implies m.contains_key((#[trigger] t[i]).index)
            && m[t[i].index] == t[i].row by {
            assert(t[i] == v[i]);
        }
        lemma_collect(t, m, index);
        assert(v[v.len() - 1] == v.last());
        let a = after(t, index);
        let w = with_new(Map::empty(), a);
        assert(a.push(v.last()).drop_last() =~= a);
        if v.last().index > index {
            assert(with_new(Map::empty(), after(v, index)) == w.insert(
                v.last().index,
                v.last().row,
            ));
        }
        assert forall|k: u64| #[trigger]
            with_new(Map::empty(), after(v, index)).contains_key(k) implies k > index
            && m.contains_key(k) && with_new(Map::empty(), after(v, index))[k] == m[k] by {
            if !(v.last().index > index && k == v.last().index) {
                assert(w.contains_key(k));
            }
        }
        assert forall|i: int| 0 <= i < v.len() && (#[trigger] v[i]).index > index implies with_new(
            Map::empty(),
            after(v, index),
        ).contains_key(v[i].index) by {
            if i < t.len() {
                assert(t[i] == v[i]);
                assert(with_new(Map::empty(), a).contains_key(t[i].index));
            }
        }
    }
}

/// A log that is opened from what was stored of it is the same log: the snapshot covers it as far
/// as it did, and every entry behind the snapshot is there, with nothing else.
pub proof fn law_reopened_log_is_the_same(
    s: StoreView,
    rows: Seq<Seq<u8>>,
    snapshot: Option<Seq<u8>>,
)
    requires
        readable(s.entries),
        rows_of(rows, s),
        match stored_snapshot(snapshot) {
            Ok(Some(x)) => x.0 == s.snapshot_index,
            Ok(None) => s.snapshot_index == 0,
            Err(_) => false,
        },
        items_in(rows) matches Ok(v) ==> new_bytes(v) <= u64::MAX,
    ensures
        opened(rows, snapshot) is Ok,
        opened(rows, snapshot)->Ok_0.snapshot_index == s.snapshot_index,
        opened(rows, snapshot)->Ok_0.entries == Map::new(
            |k: u64| s.entries.contains_key(k) && k > s.snapshot_index,
            |k: u64| s.entries[k],
        ),
{
    let m = s.entries;
    assert forall|i: int| 0 <= i < rows.len() implies exists|k: u64| #[trigger]
        m.contains_key(k) && m[k].encoded == #[trigger] rows[i] by {
        let k = choose|k: u64| #[trigger]
            s.entries.contains_key(k) && k > s.snapshot_index && s.entries[k].encoded == rows[i];
        assert(m.contains_key(k));
    }
    lemma_rows_read(rows, m);
    let v = items_in(rows)->Ok_0;
    lemma_collect(v, m, s.snapshot_index);
    let got = with_new(Map::empty(), after(v, s.snapshot_index));
    let want = Map::new(
        |k: u64| s.entries.contains_key(k) && k > s.snapshot_index,
        |k: u64| s.entries[k],
    );
    assert forall|k: u64| want.contains_key(k) implies got.contains_key(k) by {
        assert(rows.contains(m[k].encoded));
        let i = choose|i: int| 0 <= i < rows.len() && rows[i] == m[k].encoded;
        assert(v[i].row.encoded == rows[i]);
        assert(entry_in(rows[i]) == Ok::<(u64, u64), Seq<char>>((k, m[k].data_len)));
        assert(m.contains_key(v[i].index));
        assert(entry_in(m[v[i].index].encoded) == Ok::<(u64, u64), Seq<char>>(
            (v[i].index, m[v[i].index].data_len),
        ));
    }
    assert(got =~= want);
}

} // verus!
