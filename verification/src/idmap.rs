//! A map from numbers to values, kept in key order.
use std::collections::BTreeMap;
use vstd::prelude::*;

use crate::strmap::Dup;

verus! {

/// Each key comes before the next.
pub open spec fn ascending(keys: Seq<u64>) -> bool {
    forall|i: int, j: int| 0 <= i < j < keys.len() ==> #[trigger] keys[i] < #[trigger] keys[j]
}

/// `keys` lists the set `dom` in order.
pub open spec fn listing(keys: Seq<u64>, dom: Set<u64>) -> bool {
    &&& ascending(keys)
    &&& forall|k: u64| #[trigger] keys.contains(k) <==> dom.contains(k)
}

/// The keys of a map in order.
pub open spec fn sorted_keys<V>(m: Map<u64, V>) -> Seq<u64> {
    choose|keys: Seq<u64>| listing(keys, m.dom())
}

/// A set has one listing.
pub proof fn lemma_listing_unique(a: Seq<u64>, b: Seq<u64>, dom: Set<u64>)
    requires
        listing(a, dom),
        listing(b, dom),
    ensures
        a == b,
    decreases a.len(),
{
    if a.len() == 0 {
        if b.len() > 0 {
            assert(b.contains(b[0]));
            assert(a.contains(b[0]));
        }
        assert(a =~= b);
    } else {
        assert(a.contains(a[a.len() - 1]));
        assert(b.contains(a[a.len() - 1]));
        let x = a.last();
        let y = b.last();
        assert(b.contains(y));
        assert(a.contains(y));
        let i = choose|i: int| 0 <= i < a.len() && a[i] == y;
        let j = choose|j: int| 0 <= j < b.len() && b[j] == x;
        if x != y {
            assert(i < a.len() - 1);
            assert(j < b.len() - 1);
            assert(a[i] < a[a.len() - 1]);
            assert(b[j] < b[b.len() - 1]);
        }
        let d2 = dom.remove(x);
        let a2 = a.drop_last();
        let b2 = b.drop_last();
        assert forall|k: u64| #[trigger] a2.contains(k) <==> d2.contains(k) by {
            lemma_drop_last(a, k);
        }
        assert forall|k: u64| #[trigger] b2.contains(k) <==> d2.contains(k) by {
            lemma_drop_last(b, k);
        }
        lemma_listing_unique(a2, b2, d2);
        assert(a =~= a2.push(x));
        assert(b =~= b2.push(x));
    }
}

proof fn lemma_drop_last(a: Seq<u64>, k: u64)
    requires
        a.len() > 0,
        ascending(a),
    ensures
        a.drop_last().contains(k) <==> a.contains(k) && k != a.last(),
{
    if a.contains(k) && k != a.last() {
        let i = choose|i: int| 0 <= i < a.len() && a[i] == k;
        assert(a.drop_last()[i] == k);
    }
    if a.drop_last().contains(k) {
        let i = choose|i: int| 0 <= i < a.drop_last().len() && a.drop_last()[i] == k;
        assert(a[i] == k);
        if k == a.last() {
            assert(a[i] < a[a.len() - 1]);
        }
    }
}

/// A listing of the map's domain is the map's sorted keys.
pub proof fn lemma_sorted_keys<V>(m: Map<u64, V>, keys: Seq<u64>)
    requires
        listing(keys, m.dom()),
    ensures
        sorted_keys(m) == keys,
{
    lemma_listing_unique(sorted_keys(m), keys, m.dom());
}

/// A listing names each key once, and its domain is finite and as large.
pub proof fn lemma_listing_finite(keys: Seq<u64>, dom: Set<u64>)
    requires
        listing(keys, dom),
    ensures
        keys.no_duplicates(),
        dom.finite(),
        dom.len() == keys.len(),
{
    assert forall|i: int, j: int| 0 <= i < keys.len() && 0 <= j < keys.len() && i != j implies keys[i]
        != keys[j] by {
        if i < j {
            assert(keys[i] < keys[j]);
        } else {
            assert(keys[j] < keys[i]);
        }
    }
    keys.unique_seq_to_set();
    assert(keys.to_set() =~= dom);
    vstd::seq_lib::seq_to_set_is_finite(keys);
}

/// A finite set of numbers has a listing.
proof fn lemma_listing_exists(dom: Set<u64>) -> (keys: Seq<u64>)
    requires
        dom.finite(),
    ensures
        listing(keys, dom),
    decreases dom.len(),
{
    if dom.len() == 0 {
        let keys = Seq::<u64>::empty();
        assert(dom =~= Set::empty());
        keys
    } else {
        let top = lemma_greatest(dom);
        let rest = lemma_listing_exists(dom.remove(top));
        let keys = rest.push(top);
        assert forall|i: int, j: int| 0 <= i < j < keys.len() implies #[trigger] keys[i]
            < #[trigger] keys[j] by {
            assert(rest.contains(rest[i]));
            if j < rest.len() {
                assert(rest[i] < rest[j]);
            }
        }
        assert forall|k: u64| #[trigger] keys.contains(k) <==> dom.contains(k) by {
            if k == top {
                assert(keys[rest.len() as int] == k);
            } else if dom.contains(k) {
                assert(rest.contains(k));
                let i = choose|i: int| 0 <= i < rest.len() && rest[i] == k;
                assert(keys[i] == k);
            } else if keys.contains(k) {
                let i = choose|i: int| 0 <= i < keys.len() && keys[i] == k;
                assert(rest.contains(rest[i]));
            }
        }
        keys
    }
}

proof fn lemma_greatest(dom: Set<u64>) -> (top: u64)
    requires
        dom.finite(),
        dom.len() > 0,
    ensures
        dom.contains(top),
        forall|k: u64| dom.contains(k) ==> k <= top,
    decreases dom.len(),
{
    let a = dom.choose();
    assert(dom.contains(a));
    if dom.len() == 1 {
        assert forall|k: u64| dom.contains(k) implies k <= a by {
            if k != a {
                assert(dom.remove(a).contains(k));
                assert(dom.remove(a).len() == 0);
            }
        }
        a
    } else {
        let b = lemma_greatest(dom.remove(a));
        if a > b {
            a
        } else {
            b
        }
    }
}

/// A map from numbers to values of type `V`.
#[derive(Debug, PartialEq, Eq)]
pub struct IdMap<V> {
    map: BTreeMap<u64, V>,
}

impl<V: View> View for IdMap<V> {
    type V = Map<u64, V::V>;

    closed spec fn view(&self) -> Map<u64, V::V> {
        self.map@.map_values(|v: V| v@)
    }
}

/// Numbers are ordered as a `BTreeMap` asks of its keys.
proof fn lemma_numbers_are_keys()
    ensures
        vstd::laws_cmp::obeys_cmp::<u64>(),
        vstd::std_specs::btree::key_obeys_cmp_spec::<u64>(),
{
    broadcast use vstd::laws_cmp::group_laws_cmp;
    broadcast use vstd::std_specs::btree::group_btree_axioms;

}

/// Keys that a `BTreeMap` hands out in its order go up.
proof fn lemma_keys_go_up(s: Seq<u64>)
    requires
        vstd::std_specs::btree::increasing_seq(s),
    ensures
        ascending(s),
{
    broadcast use vstd::laws_cmp::group_laws_cmp;
    broadcast use vstd::std_specs::btree::group_btree_axioms;

    assert(vstd::laws_cmp::obeys_cmp::<u64>());
    assert forall|i: int, j: int| 0 <= i < j < s.len() implies #[trigger] s[i] < #[trigger] s[j] by {
        assert(vstd::std_specs::cmp::OrdSpec::cmp_spec(&s[i], &s[j]) is Less);
    }
}

impl<V: View> IdMap<V> {
    pub fn new() -> (r: Self)
        ensures
            r@ == Map::<u64, V::V>::empty(),
    {
        let r = IdMap { map: BTreeMap::new() };
        assert(r@ =~= Map::<u64, V::V>::empty());
        r
    }

    /// The keys in order.
    pub fn keys(&self) -> (r: Vec<u64>)
        ensures
            r@ == sorted_keys(self@),
            r@.len() == self@.len(),
            self@.dom().finite(),
            listing(r@, self@.dom()),
            r@.no_duplicates(),
            forall|i: int| 0 <= i < r@.len() ==> self@.contains_key(#[trigger] r@[i]),
    {
        broadcast use vstd::std_specs::btree::group_btree_axioms;

        proof {
            lemma_numbers_are_keys();
        }
        let ghost pairs = vstd::std_specs::iter::IteratorSpec::remaining(
            &vstd::std_specs::btree::spec_btree_map_iter(&self.map),
        );
        let walk = self.map.iter();
        assert(vstd::std_specs::btree::increasing_seq(
            pairs.map_values(|kv: (&u64, &V)| *kv.0),
        ));
        let mut out: Vec<u64> = Vec::new();
        for kv in it: walk
            invariant
                it.seq() == pairs,
                out@.len() == it.index(),
                forall|i: int| 0 <= i < out@.len() ==> #[trigger] out@[i] == *pairs[i].0,
        {
            out.push(*kv.0);
        }
        proof {
            let ks = pairs.map_values(|kv: (&u64, &V)| *kv.0);
            assert(out@ =~= ks);
            lemma_keys_go_up(ks);
            assert forall|k: u64| #[trigger] out@.contains(k) <==> self@.dom().contains(k) by {
                if self.map@.contains_key(k) {
                    assert(pairs.contains((&k, &self.map@[k])));
                    let i = choose|i: int| 0 <= i < pairs.len() && pairs[i] == (&k, &self.map@[k]);
                    assert(out@[i] == k);
                }
                if out@.contains(k) {
                    let i = choose|i: int| 0 <= i < out@.len() && out@[i] == k;
                    assert(self.map@.contains_key(*pairs[i].0));
                }
            }
            lemma_sorted_keys(self@, out@);
            lemma_listing_finite(out@, self@.dom());
            assert forall|i: int| 0 <= i < out@.len() implies self@.contains_key(
                #[trigger] out@[i],
            ) by {
                assert(out@.contains(out@[i]));
            }
        }
        out
    }

    pub fn len(&self) -> (n: usize)
        ensures
            n == self@.len(),
            n == sorted_keys(self@).len(),
            self@.dom().finite(),
    {
        broadcast use vstd::std_specs::btree::group_btree_axioms;

        proof {
            lemma_numbers_are_keys();
            assert(self@.dom() =~= self.map@.dom());
            let keys = lemma_listing_exists(self@.dom());
            lemma_sorted_keys(self@, keys);
            lemma_listing_finite(keys, self@.dom());
        }
        self.map.len()
    }

    pub fn is_empty(&self) -> (r: bool)
        ensures
            r == (self@ == Map::<u64, V::V>::empty()),
            r == (self@.len() == 0),
    {
        let n = self.len();
        proof {
            if n == 0 {
                assert(self@.dom() =~= Set::empty());
                assert(self@ =~= Map::<u64, V::V>::empty());
            }
        }
        n == 0
    }

    pub fn contains_key(&self, key: u64) -> (r: bool)
        ensures
            r == self@.contains_key(key),
    {
        broadcast use vstd::std_specs::btree::group_btree_axioms;

        proof {
            lemma_numbers_are_keys();
        }
        self.map.contains_key(&key)
    }

    pub fn get(&self, key: u64) -> (r: Option<&V>)
        ensures
            r is Some <==> self@.contains_key(key),
            r is Some ==> r->0@ == self@[key],
    {
        broadcast use vstd::std_specs::btree::group_btree_axioms;

        proof {
            lemma_numbers_are_keys();
        }
        self.map.get(&key)
    }

    /// The value at a key that is there.
    pub fn value(&self, key: u64) -> (r: &V)
        requires
            self@.contains_key(key),
        ensures
            r@ == self@[key],
    {
        self.get(key).unwrap()
    }

    /// Puts `value` at `key` and returns what was there.
    pub fn insert(&mut self, key: u64, value: V) -> (r: Option<V>)
        ensures
            final(self)@ == old(self)@.insert(key, value@),
            r is Some <==> old(self)@.contains_key(key),
            r is Some ==> r->0@ == old(self)@[key],
    {
        proof {
            lemma_numbers_are_keys();
        }
        let was = self.map.insert(key, value);
        assert(self@ =~= old(self)@.insert(key, value@));
        was
    }

    /// Takes `key` out and returns what was there.
    pub fn remove(&mut self, key: u64) -> (r: Option<V>)
        ensures
            final(self)@ == old(self)@.remove(key),
            r is Some <==> old(self)@.contains_key(key),
            r is Some ==> r->0@ == old(self)@[key],
    {
        broadcast use vstd::std_specs::btree::group_btree_axioms;

        proof {
            lemma_numbers_are_keys();
        }
        let was = self.map.remove(&key);
        assert(self@ =~= old(self)@.remove(key));
        was
    }
}

impl<V: Dup> Dup for IdMap<V> {
    fn dup(&self) -> (r: Self) {
        let mut out: IdMap<V> = IdMap::new();
        let ks = self.keys();
        let mut i: usize = 0;
        while i < ks.len()
            invariant
                i <= ks@.len(),
                listing(ks@, self@.dom()),
                forall|j: int| 0 <= j < ks@.len() ==> self@.contains_key(#[trigger] ks@[j]),
                forall|k: u64| #[trigger]
                    out@.contains_key(k) <==> exists|j: int| 0 <= j < i && ks@[j] == k,
                forall|k: u64| #[trigger] out@.contains_key(k) ==> out@[k] == self@[k],
            decreases ks@.len() - i,
        {
            let k: u64 = ks[i];
            out.insert(k, self.value(k).dup());
            i += 1;
        }
        assert(out@ =~= self@) by {
            assert forall|k: u64| self@.contains_key(k) implies out@.contains_key(k) by {
                assert(ks@.contains(k));
            }
        }
        out
    }
}

impl<V: Dup> Clone for IdMap<V> {
    fn clone(&self) -> (r: Self)
        ensures
            r@ == self@,
    {
        self.dup()
    }
}

} // verus!
