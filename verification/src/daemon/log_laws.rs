//! What adding to the log, compacting it and installing a snapshot do.
use vstd::prelude::*;

use crate::daemon::store;
use crate::daemon::store::{Entries, ItemView, SnapshotPolicy, StoreView};

verus! {

/// The indices of the entries go up.
pub open spec fn in_order(v: Seq<ItemView>) -> bool {
    forall|i: int, j: int|
        0 <= i < j < v.len() ==> (#[trigger] v[i]).index < (#[trigger] v[j]).index
}

proof fn lemma_with_new(m: Entries, v: Seq<ItemView>, k: u64)
    requires
        in_order(v),
    ensures
        forall|i: int|
            0 <= i < v.len() && (#[trigger] v[i]).index == k ==> store::with_new(m, v).contains_key(
                k,
            ) && store::with_new(m, v)[k] == v[i].row,
        (forall|i: int| 0 <= i < v.len() ==> (#[trigger] v[i]).index != k) ==> {
            &&& store::with_new(m, v).contains_key(k) == m.contains_key(k)
            &&& m.contains_key(k) ==> store::with_new(m, v)[k] == m[k]
        },
    decreases v.len(),
{
    if v.len() > 0 {
        let rest = v.drop_last();
        assert(forall|i: int| 0 <= i < rest.len() ==> #[trigger] rest[i] == v[i]);
        assert(in_order(rest)) by {
            assert forall|i: int, j: int| 0 <= i < j < rest.len() implies (
            #[trigger] rest[i]).index < (#[trigger] rest[j]).index by {
                assert(v[i].index < v[j].index);
            }
        }
        lemma_with_new(m, rest, k);
        assert(v[v.len() - 1] == v.last());
        assert forall|i: int| 0 <= i < v.len() && (#[trigger] v[i]).index
            == k implies store::with_new(m, v).contains_key(k) && store::with_new(m, v)[k]
            == v[i].row by {
            if i < rest.len() {
                assert(rest[i] == v[i]);
                assert(v[i].index < v[v.len() - 1].index);
            }
        }
        if forall|i: int| 0 <= i < v.len() ==> (#[trigger] v[i]).index != k {
            assert(v[v.len() - 1].index != k);
            assert forall|i: int| 0 <= i < rest.len() implies (#[trigger] rest[i]).index != k by {
                assert(v[i].index != k);
            }
        }
    }
}

/// Entries that are added are there, each under its index; what was there from the first of them on
/// is gone, and what was there before it stays. They are counted towards the next snapshot.
pub proof fn law_appended_entries_are_there(s: StoreView, v: Seq<ItemView>, k: u64)
    requires
        v.len() > 0,
        in_order(v),
        s.since_entries + v.len() <= u64::MAX,
        s.since_bytes + store::new_bytes(v) <= u64::MAX,
    ensures
        ({
            let t = s.appended(v);
            &&& forall|i: int|
                0 <= i < v.len() && (#[trigger] v[i]).index == k ==> t.entries.contains_key(k)
                    && t.entries[k] == v[i].row
            &&& (forall|i: int| 0 <= i < v.len() ==> (#[trigger] v[i]).index != k) ==> {
                &&& t.entries.contains_key(k) <==> s.entries.contains_key(k) && k < v[0].index
                &&& t.entries.contains_key(k) ==> t.entries[k] == s.entries[k]
            }
            &&& t.snapshot_index == s.snapshot_index
            &&& t.since_entries == s.since_entries + v.len()
            &&& t.since_bytes == s.since_bytes + store::new_bytes(v)
        }),
{
    lemma_with_new(store::before(s.entries, v[0].index), v, k);
}

/// The bytes of entries are counted one by one.
pub proof fn law_bytes_are_counted(v: Seq<ItemView>, e: ItemView)
    ensures
        store::new_bytes(Seq::empty()) == 0,
        store::new_bytes(v.push(e)) == store::new_bytes(v) + e.row.data_len,
{
    assert(v.push(e).drop_last() =~= v);
}

/// Entries cannot be added over what a snapshot covers, and anywhere else they can.
pub proof fn law_covered_entries_are_not_overwritten(s: StoreView, first: u64)
    ensures
        s.append_refusal(first) is Some <==> first <= s.snapshot_index,
{
}

/// A snapshot made here covers what is before it; only a later one than the last counts. One of
/// another node takes the place of the whole log. Either starts the count anew.
pub proof fn law_snapshot_covers_the_log(s: StoreView, index: u64, k: u64)
    ensures
        ({
            let c = s.compacted(index);
            let n = s.installed(index);
            &&& index <= s.snapshot_index ==> c == s
            &&& index > s.snapshot_index ==> {
                &&& c.snapshot_index == index && c.since_entries == 0 && c.since_bytes == 0
                &&& c.entries.contains_key(k) <==> s.entries.contains_key(k) && k >= index
                &&& c.entries.contains_key(k) ==> c.entries[k] == s.entries[k]
            }
            &&& n.snapshot_index == index && !n.entries.contains_key(k)
            &&& n.since_entries == 0 && n.since_bytes == 0
        }),
{
}

/// A snapshot is due just where as many entries or bytes as the policy says have come since the
/// last.
pub proof fn law_when_a_snapshot_is_due(s: StoreView, p: SnapshotPolicy)
    ensures
        !s.due(p) <==> s.since_entries < p.entries && s.since_bytes < p.bytes,
{
}

} // verus!
