//! A map from text to values, kept in key order.
use vstd::prelude::*;

use crate::text;

verus! {

/// A value that can be copied so that the copy has the same view.
pub trait Dup: View + Sized {
    fn dup(&self) -> (r: Self)
        ensures
            r@ == self@,
    ;
}

impl<T: View> Dup for std::sync::Arc<T> {
    fn dup(&self) -> (r: Self) {
        self.clone()
    }
}

impl Dup for u64 {
    fn dup(&self) -> (r: Self) {
        *self
    }
}

impl Dup for bool {
    fn dup(&self) -> (r: Self) {
        *self
    }
}

impl Dup for String {
    fn dup(&self) -> (r: Self) {
        self.clone()
    }
}

/// Each key comes before the next.
pub open spec fn ascending(keys: Seq<Seq<char>>) -> bool {
    forall|i: int, j: int| 0 <= i < j < keys.len() ==> text::lt(#[trigger] keys[i], #[trigger] keys[j])
}

/// `keys` lists the set `dom` in order.
pub open spec fn listing(keys: Seq<Seq<char>>, dom: Set<Seq<char>>) -> bool {
    &&& ascending(keys)
    &&& forall|k: Seq<char>| #[trigger] keys.contains(k) <==> dom.contains(k)
}

/// The keys of a map in order.
pub open spec fn sorted_keys<V>(m: Map<Seq<char>, V>) -> Seq<Seq<char>> {
    choose|keys: Seq<Seq<char>>| listing(keys, m.dom())
}

/// A set has one listing.
pub proof fn lemma_listing_unique(a: Seq<Seq<char>>, b: Seq<Seq<char>>, dom: Set<Seq<char>>)
    requires
        listing(a, dom),
        listing(b, dom),
    ensures
        a == b,
    decreases a.len(),
{
    if a.len() == 0 {
        if b.len() > 0 {
            assert(b.contains(b[0]));
            assert(a.contains(b[0]));
        }
        assert(a =~= b);
    } else {
        assert(a.contains(a[a.len() - 1]));
        assert(b.contains(a[a.len() - 1]));
        let x = a.last();
        let y = b.last();
        assert(b.contains(y));
        assert(a.contains(y));
        let i = choose|i: int| 0 <= i < a.len() && a[i] == y;
        let j = choose|j: int| 0 <= j < b.len() && b[j] == x;
        if x != y {
            assert(i < a.len() - 1);
            assert(j < b.len() - 1);
            assert(text::lt(a[i], a[a.len() - 1]));
            assert(text::lt(b[j], b[b.len() - 1]));
            text::lemma_lt_transitive(x, y, x);
            text::lemma_lt_irreflexive(x);
        }
        let d2 = dom.remove(x);
        let a2 = a.drop_last();
        let b2 = b.drop_last();
        assert forall|k: Seq<char>| #[trigger] a2.contains(k) <==> d2.contains(k) by {
            lemma_drop_last(a, k);
        }
        assert forall|k: Seq<char>| #[trigger] b2.contains(k) <==> d2.contains(k) by {
            lemma_drop_last(b, k);
        }
        lemma_listing_unique(a2, b2, d2);
        assert(a =~= a2.push(x));
        assert(b =~= b2.push(x));
    }
}

proof fn lemma_drop_last(a: Seq<Seq<char>>, k: Seq<char>)
    requires
        a.len() > 0,
        ascending(a),
    ensures
        a.drop_last().contains(k) <==> a.contains(k) && k != a.last(),
{
    if a.contains(k) && k != a.last() {
        let i = choose|i: int| 0 <= i < a.len() && a[i] == k;
        assert(a.drop_last()[i] == k);
    }
    if a.drop_last().contains(k) {
        let i = choose|i: int| 0 <= i < a.drop_last().len() && a.drop_last()[i] == k;
        assert(a[i] == k);
        if k == a.last() {
            assert(text::lt(a[i], a[a.len() - 1]));
            text::lemma_lt_irreflexive(k);
        }
    }
}

/// A listing of the map's domain is the map's sorted keys.
pub proof fn lemma_sorted_keys<V>(m: Map<Seq<char>, V>, keys: Seq<Seq<char>>)
    requires
        listing(keys, m.dom()),
    ensures
        sorted_keys(m) == keys,
{
    lemma_listing_unique(sorted_keys(m), keys, m.dom());
}

/// How many of `keys` come before `k`.
spec fn place(keys: Seq<Seq<char>>, k: Seq<char>) -> int
    decreases keys.len(),
{
    if keys.len() == 0 || !text::lt(keys[0], k) {
        0
    } else {
        1 + place(keys.drop_first(), k)
    }
}

proof fn lemma_place(keys: Seq<Seq<char>>, k: Seq<char>)
    requires
        ascending(keys),
        !keys.contains(k),
    ensures
        0 <= place(keys, k) <= keys.len(),
        forall|i: int| 0 <= i < place(keys, k) ==> text::lt(#[trigger] keys[i], k),
        forall|i: int| place(keys, k) <= i < keys.len() ==> text::lt(k, #[trigger] keys[i]),
    decreases keys.len(),
{
    if keys.len() > 0 {
        assert(keys.contains(keys[0]));
        text::lemma_lt_total(keys[0], k);
        if text::lt(keys[0], k) {
            let t = keys.drop_first();
            assert(ascending(t)) by {
                assert forall|i: int, j: int| 0 <= i < j < t.len() implies text::lt(
                    #[trigger] t[i],
                    #[trigger] t[j],
                ) by {
                    assert(text::lt(keys[i + 1], keys[j + 1]));
                }
            }
            assert(!t.contains(k)) by {
                if t.contains(k) {
                    let i = choose|i: int| 0 <= i < t.len() && t[i] == k;
                    assert(keys[i + 1] == k);
                }
            }
            lemma_place(t, k);
            assert forall|i: int| 0 <= i < place(keys, k) implies text::lt(
                #[trigger] keys[i],
                k,
            ) by {
                if i > 0 {
                    assert(t[i - 1] == keys[i]);
                }
            }
            assert forall|i: int| place(keys, k) <= i < keys.len() implies text::lt(
                k,
                #[trigger] keys[i],
            ) by {
                assert(t[i - 1] == keys[i]);
            }
        } else {
            assert forall|i: int| 0 <= i < keys.len() implies text::lt(k, #[trigger] keys[i]) by {
                if i > 0 {
                    text::lemma_lt_transitive(k, keys[0], keys[i]);
                }
            }
        }
    }
}

/// A finite set has a listing.
proof fn lemma_listing_exists(dom: Set<Seq<char>>) -> (keys: Seq<Seq<char>>)
    requires
        dom.finite(),
    ensures
        listing(keys, dom),
    decreases dom.len(),
{
    if dom.len() == 0 {
        let keys = Seq::<Seq<char>>::empty();
        assert(dom =~= Set::empty());
        keys
    } else {
        let k = dom.choose();
        let rest = lemma_listing_exists(dom.remove(k));
        assert(!rest.contains(k)) by {
            assert(!dom.remove(k).contains(k));
        }
        lemma_place(rest, k);
        let n = place(rest, k);
        let keys = rest.insert(n, k);
        assert forall|i: int, j: int| 0 <= i < j < keys.len() implies text::lt(
            #[trigger] keys[i],
            #[trigger] keys[j],
        ) by {
            let a = if i < n {
                i
            } else {
                i - 1
            };
            let b = if j < n {
                j
            } else {
                j - 1
            };
            if i == n {
                assert(keys[j] == rest[b]);
            } else if j == n {
                assert(keys[i] == rest[a]);
            } else {
                assert(keys[i] == rest[a] && keys[j] == rest[b]);
            }
        }
        assert forall|x: Seq<char>| #[trigger] keys.contains(x) <==> dom.contains(x) by {
            if keys.contains(x) && x != k {
                let i = choose|i: int| 0 <= i < keys.len() && keys[i] == x;
                let a = if i < n {
                    i
                } else {
                    i - 1
                };
                assert(rest[a] == x);
                assert(rest.contains(x));
                assert(dom.remove(k).contains(x));
            }
            if dom.contains(x) {
                if x == k {
                    assert(keys[n] == k);
                } else {
                    assert(dom.remove(k).contains(x));
                    assert(rest.contains(x));
                    let a = choose|a: int| 0 <= a < rest.len() && rest[a] == x;
                    if a < n {
                        assert(keys[a] == x);
                    } else {
                        assert(keys[a + 1] == x);
                    }
                }
            }
        }
        keys
    }
}

/// The sorted keys of a finite map list its domain.
pub proof fn lemma_sorted_keys_list<V>(m: Map<Seq<char>, V>)
    requires
        m.dom().finite(),
    ensures
        listing(sorted_keys(m), m.dom()),
{
    let keys = lemma_listing_exists(m.dom());
    assert(listing(keys, m.dom()));
}

/// A listing names each key once, and its domain is finite and as large.
pub proof fn lemma_listing_finite(keys: Seq<Seq<char>>, dom: Set<Seq<char>>)
    requires
        listing(keys, dom),
    ensures
        keys.no_duplicates(),
        dom.finite(),
        dom.len() == keys.len(),
{
    assert forall|i: int, j: int| 0 <= i < keys.len() && 0 <= j < keys.len() && i != j implies keys[i]
        != keys[j] by {
        text::lemma_lt_irreflexive(keys[i]);
        if i < j {
            assert(text::lt(keys[i], keys[j]));
        } else {
            assert(text::lt(keys[j], keys[i]));
        }
    }
    keys.unique_seq_to_set();
    assert(keys.to_set() =~= dom);
    vstd::seq_lib::seq_to_set_is_finite(keys);
}

/// A map from text to values of type `V`.
#[derive(Debug, PartialEq, Eq)]
pub struct StrMap<V> {
    entries: Vec<(String, V)>,
}

impl<V> StrMap<V> {
    spec fn key_seq(self) -> Seq<Seq<char>> {
        Seq::new(self.entries@.len(), |i: int| self.entries@[i].0@)
    }

    #[verifier::type_invariant]
    spec fn inv(self) -> bool {
        ascending(self.key_seq())
    }
}

impl<V: View> View for StrMap<V> {
    type V = Map<Seq<char>, V::V>;

    closed spec fn view(&self) -> Map<Seq<char>, V::V> {
        Map::new(
            |k: Seq<char>| self.key_seq().contains(k),
            |k: Seq<char>| self.entries@[self.key_seq().index_of(k)].1@,
        )
    }
}

impl<V: View> StrMap<V> {
    /// The keys in order; `self@` holds exactly these.
    proof fn lemma_keys(&self)
        requires
            self.inv(),
        ensures
            listing(self.key_seq(), self@.dom()),
            sorted_keys(self@) == self.key_seq(),
            self.key_seq().no_duplicates(),
            self@.dom().finite(),
            self@.dom().len() == self.entries@.len(),
            forall|i: int| 0 <= i < self.entries@.len() ==> {
                &&& self@.contains_key(#[trigger] self.entries@[i].0@)
                &&& self@[self.entries@[i].0@] == self.entries@[i].1@
            },
    {
        let ks = self.key_seq();
        assert(listing(ks, self@.dom()));
        lemma_sorted_keys(self@, ks);
        lemma_listing_finite(ks, self@.dom());
        assert forall|i: int| 0 <= i < self.entries@.len() implies {
            &&& self@.contains_key(#[trigger] self.entries@[i].0@)
            &&& self@[self.entries@[i].0@] == self.entries@[i].1@
        } by {
            let k = self.entries@[i].0@;
            assert(ks[i] == k);
            assert(ks.contains(k));
            let j = ks.index_of(k);
            assert(ks[j] == k);
        }
    }

    /// A value of the map is a part of it.
    pub proof fn lemma_value(self, k: Seq<char>) -> (v: V)
        requires
            self@.contains_key(k),
        ensures
            v@ == self@[k],
            decreases_to!(self => v),
    {
        let i = self.key_seq().index_of(k);
        assert(self.key_seq()[i] == k);
        self.entries@[i].1
    }

    /// A map holds finitely many keys.
    pub proof fn lemma_finite(self)
        ensures
            self@.dom().finite(),
    {
        vstd::seq_lib::seq_to_set_is_finite(self.key_seq());
        assert(self@.dom() =~= self.key_seq().to_set());
    }

    pub fn new() -> (r: Self)
        ensures
            r@ == Map::<Seq<char>, V::V>::empty(),
    {
        let r = StrMap { entries: Vec::new() };
        assert(r@ =~= Map::<Seq<char>, V::V>::empty()) by {
            assert(r.key_seq().len() == 0);
        }
        r
    }

    pub fn len(&self) -> (n: usize)
        ensures
            n == self@.len(),
            n == sorted_keys(self@).len(),
            self@.dom().finite(),
            listing(sorted_keys(self@), self@.dom()),
            sorted_keys(self@).no_duplicates(),
            forall|i: int| 0 <= i < n ==> self@.contains_key(#[trigger] sorted_keys(self@)[i]),
    {
        proof {
            use_type_invariant(self);
            self.lemma_keys();
            assert forall|i: int| 0 <= i < self.entries@.len() implies self@.contains_key(
                #[trigger] sorted_keys(self@)[i],
            ) by {
                assert(self@.contains_key(self.entries@[i].0@));
            }
        }
        self.entries.len()
    }

    pub fn is_empty(&self) -> (r: bool)
        ensures
            r == (self@ == Map::<Seq<char>, V::V>::empty()),
            r == (self@.len() == 0),
    {
        let n = self.len();
        proof {
            if n == 0 {
                assert(self@.dom() =~= Set::empty());
                assert(self@ =~= Map::<Seq<char>, V::V>::empty());
            }
        }
        n == 0
    }

    /// First position whose key is not before `key`, and whether it holds `key`.
    fn find(&self, key: &str) -> (r: (bool, usize))
        ensures
            r.1 <= self.entries@.len(),
            r.0 == self@.contains_key(key@),
            r.0 ==> r.1 < self.entries@.len() && self.entries@[r.1 as int].0@ == key@
                && self@[key@] == self.entries@[r.1 as int].1@,
            forall|i: int| 0 <= i < r.1 ==> text::lt(#[trigger] self.entries@[i].0@, key@),
            !r.0 ==> forall|i: int| r.1 <= i < self.entries@.len() ==> text::lt(
                key@,
                #[trigger] self.entries@[i].0@,
            ),
    {
        proof {
            use_type_invariant(self);
            self.lemma_keys();
        }
        let ghost ks = self.key_seq();
        let mut lo: usize = 0;
        let mut hi: usize = self.entries.len();
        while lo < hi
            invariant
                lo <= hi <= self.entries@.len(),
                ks == self.key_seq(),
                ascending(ks),
                forall|i: int| 0 <= i < lo ==> text::lt(#[trigger] self.entries@[i].0@, key@),
                forall|i: int|
                    hi <= i < self.entries@.len() ==> !text::lt(#[trigger] self.entries@[i].0@, key@),
            decreases hi - lo,
        {
            let mid: usize = lo + (hi - lo) / 2;
            if text::less(self.entries[mid].0.as_str(), key) {
                assert forall|i: int| 0 <= i < mid + 1 implies text::lt(
                    #[trigger] self.entries@[i].0@,
                    key@,
                ) by {
                    if i < mid {
                        assert(text::lt(ks[i], ks[mid as int]));
                        text::lemma_lt_transitive(ks[i], ks[mid as int], key@);
                    }
                }
                lo = mid + 1;
            } else {
                assert forall|i: int| mid <= i < self.entries@.len() implies !text::lt(
                    #[trigger] self.entries@[i].0@,
                    key@,
                ) by {
                    if i > mid && text::lt(ks[i], key@) {
                        assert(text::lt(ks[mid as int], ks[i]));
                        text::lemma_lt_transitive(ks[mid as int], ks[i], key@);
                    }
                }
                hi = mid;
            }
        }
        let hit = lo < self.entries.len() && text::same(self.entries[lo].0.as_str(), key);
        proof {
            if hit {
                assert(ks[lo as int] == key@);
            } else {
                assert forall|i: int| lo <= i < self.entries@.len() implies text::lt(
                    key@,
                    #[trigger] self.entries@[i].0@,
                ) by {
                    text::lemma_lt_total(key@, ks[lo as int]);
                    if i > lo {
                        assert(text::lt(ks[lo as int], ks[i]));
                        text::lemma_lt_transitive(key@, ks[lo as int], ks[i]);
                    }
                }
                if ks.contains(key@) {
                    let i = choose|i: int| 0 <= i < ks.len() && ks[i] == key@;
                    assert(self.entries@[i].0@ == key@);
                    text::lemma_lt_irreflexive(key@);
                }
            }
        }
        (hit, lo)
    }

    pub fn contains_key(&self, key: &str) -> (r: bool)
        ensures
            r == self@.contains_key(key@),
    {
        self.find(key).0
    }

    pub fn get(&self, key: &str) -> (r: Option<&V>)
        ensures
            r is Some <==> self@.contains_key(key@),
            r is Some ==> r->0@ == self@[key@],
    {
        let (hit, at) = self.find(key);
        if hit {
            Some(&self.entries[at].1)
        } else {
            None
        }
    }

    /// Puts `value` at `key` and returns what was there.
    #[verifier::rlimit(60)]
    #[verifier::spinoff_prover]
    pub fn insert(&mut self, key: String, value: V) -> (r: Option<V>)
        ensures
            final(self)@ == old(self)@.insert(key@, value@),
            r is Some <==> old(self)@.contains_key(key@),
            r is Some ==> r->0@ == old(self)@[key@],
    {
        let ghost pre = *self;
        proof {
            use_type_invariant(&*self);
            self.lemma_keys();
        }
        let (hit, at) = self.find(key.as_str());
        let ghost k = key@;
        let ghost v = value@;
        let mut entries: Vec<(String, V)> = Vec::new();
        std::mem::swap(&mut entries, &mut self.entries);
        let mut before: Option<V> = None;
        if hit {
            let (_, was) = entries.remove(at);
            before = Some(was);
        }
        entries.insert(at, (key, value));
        let ghost es = entries@;
        proof {
            let ks = pre.key_seq();
            let ns = Seq::new(es.len(), |i: int| es[i].0@);
            assert forall|i: int, j: int| 0 <= i < j < ns.len() implies text::lt(
                #[trigger] ns[i],
                #[trigger] ns[j],
            ) by {
                let i0 = if hit || i <= at { i } else { i - 1 };
                let j0 = if hit || j <= at { j } else { j - 1 };
                if i == at {
                    if hit {
                        assert(text::lt(ks[i], ks[j]));
                    } else {
                        assert(text::lt(k, pre.entries@[j - 1].0@));
                    }
                } else if j == at {
                    assert(text::lt(pre.entries@[i].0@, k));
                } else {
                    assert(text::lt(ks[i0], ks[j0]));
                }
            }
        }
        self.entries = entries;
        proof {
            self.lemma_keys();
            let ks = pre.key_seq();
            let ns = self.key_seq();
            assert forall|x: Seq<char>| #[trigger] self@.contains_key(x) <==> pre@.contains_key(x) || x
                == k by {
                if ks.contains(x) {
                    let i = choose|i: int| 0 <= i < ks.len() && ks[i] == x;
                    let j = if hit || i < at { i } else { i + 1 };
                    assert(ns[j] == x);
                }
                if x == k {
                    assert(ns[at as int] == k);
                }
                if ns.contains(x) {
                    let j = choose|j: int| 0 <= j < ns.len() && ns[j] == x;
                    if j != at {
                        let i = if hit || j < at { j } else { j - 1 };
                        assert(ks[i] == x);
                    }
                }
            }
            assert forall|x: Seq<char>| self@.contains_key(x) implies #[trigger] self@[x] == pre@.insert(
                k,
                v,
            )[x] by {
                let j = choose|j: int| 0 <= j < ns.len() && ns[j] == x;
                assert(self.entries@[j].0@ == x);
                if j != at {
                    let i = if hit || j < at { j } else { j - 1 };
                    assert(pre.entries@[i].0@ == x);
                    if x == k {
                        text::lemma_lt_irreflexive(k);
                        if hit {
                            if i < at {
                                assert(text::lt(ks[i], ks[at as int]));
                            } else {
                                assert(text::lt(ks[at as int], ks[i]));
                            }
                        }
                    }
                }
            }
            assert(self@ =~= pre@.insert(k, v));
        }
        before
    }

    /// Takes `key` out and returns what was there.
    pub fn remove(&mut self, key: &str) -> (r: Option<V>)
        ensures
            final(self)@ == old(self)@.remove(key@),
            r is Some <==> old(self)@.contains_key(key@),
            r is Some ==> r->0@ == old(self)@[key@],
    {
        let ghost pre = *self;
        proof {
            use_type_invariant(&*self);
            self.lemma_keys();
        }
        let (hit, at) = self.find(key);
        if !hit {
            assert(pre@.remove(key@) =~= pre@);
            return None;
        }
        let mut entries: Vec<(String, V)> = Vec::new();
        std::mem::swap(&mut entries, &mut self.entries);
        let (_, was) = entries.remove(at);
        let ghost es = entries@;
        proof {
            let ks = pre.key_seq();
            let ns = Seq::new(es.len(), |i: int| es[i].0@);
            assert forall|i: int, j: int| 0 <= i < j < ns.len() implies text::lt(
                #[trigger] ns[i],
                #[trigger] ns[j],
            ) by {
                let i0 = if i < at { i } else { i + 1 };
                let j0 = if j < at { j } else { j + 1 };
                assert(text::lt(ks[i0], ks[j0]));
            }
        }
        self.entries = entries;
        proof {
            self.lemma_keys();
            let ks = pre.key_seq();
            let ns = self.key_seq();
            assert forall|x: Seq<char>| #[trigger] self@.contains_key(x) <==> pre@.contains_key(x) && x
                != key@ by {
                if ks.contains(x) && x != key@ {
                    let i = choose|i: int| 0 <= i < ks.len() && ks[i] == x;
                    let j = if i < at { i } else { i - 1 };
                    assert(ns[j] == x);
                }
                if ns.contains(x) {
                    let j = choose|j: int| 0 <= j < ns.len() && ns[j] == x;
                    let i = if j < at { j } else { j + 1 };
                    assert(ks[i] == x);
                    if x == key@ {
                        text::lemma_lt_irreflexive(x);
                        if i < at {
                            assert(text::lt(ks[i], ks[at as int]));
                        } else {
                            assert(text::lt(ks[at as int], ks[i]));
                        }
                    }
                }
            }
            assert forall|x: Seq<char>| self@.contains_key(x) implies #[trigger] self@[x] == pre@.remove(
                key@,
            )[x] by {
                let j = choose|j: int| 0 <= j < ns.len() && ns[j] == x;
                assert(self.entries@[j].0@ == x);
                let i = if j < at { j } else { j + 1 };
                assert(pre.entries@[i].0@ == x);
            }
            assert(self@ =~= pre@.remove(key@));
        }
        Some(was)
    }

    /// The key at position `i` of the key order.
    pub fn key_at(&self, i: usize) -> (r: &String)
        requires
            i < sorted_keys(self@).len(),
        ensures
            r@ == sorted_keys(self@)[i as int],
            self@.contains_key(r@),
    {
        proof {
            use_type_invariant(self);
            self.lemma_keys();
        }
        &self.entries[i].0
    }

    /// The value at position `i` of the key order.
    pub fn value_at(&self, i: usize) -> (r: &V)
        requires
            i < sorted_keys(self@).len(),
        ensures
            r@ == self@[sorted_keys(self@)[i as int]],
            self@.contains_key(sorted_keys(self@)[i as int]),
            decreases_to!(*self => *r),
    {
        proof {
            use_type_invariant(self);
            self.lemma_keys();
            assert(self.key_seq()[i as int] == self.entries@[i as int].0@);
        }
        &self.entries[i].1
    }
}

impl<V: Dup> Dup for StrMap<V> {
    fn dup(&self) -> (r: Self) {
        let mut out: StrMap<V> = StrMap::new();
        let n = self.len();
        let ghost ks = sorted_keys(self@);
        let mut i: usize = 0;
        while i < n
            invariant
                i <= n == ks.len(),
                ks == sorted_keys(self@),
                listing(ks, self@.dom()),
                ks.no_duplicates(),
                forall|k: Seq<char>| #[trigger] out@.contains_key(k) <==> ks.take(i as int).contains(k),
                forall|k: Seq<char>| #[trigger] out@.contains_key(k) ==> out@[k] == self@[k],
            decreases n - i,
        {
            let k = self.key_at(i).clone();
            let v = self.value_at(i).dup();
            out.insert(k, v);
            proof {
                assert(ks.take(i + 1) =~= ks.take(i as int).push(ks[i as int]));
                assert forall|k: Seq<char>| #[trigger] out@.contains_key(k) <==> ks.take(
                    i + 1,
                ).contains(k) by {
                    let a = ks.take(i as int);
                    let b = ks.take(i + 1);
                    if b.contains(k) && k != ks[i as int] {
                        let j = choose|j: int| 0 <= j < b.len() && b[j] == k;
                        assert(a[j] == k);
                    }
                    if a.contains(k) {
                        let j = choose|j: int| 0 <= j < a.len() && a[j] == k;
                        assert(b[j] == k);
                    }
                    assert(b[i as int] == ks[i as int]);
                }
            }
            i += 1;
        }
        proof {
            assert(ks.take(n as int) =~= ks);
            assert(out@ =~= self@);
        }
        out
    }
}

/// A set of texts, kept in order.
#[derive(Debug, Clone, PartialEq, Eq)]
pub struct StrSet {
    members: StrMap<bool>,
}

impl View for StrSet {
    type V = Set<Seq<char>>;

    closed spec fn view(&self) -> Set<Seq<char>> {
        self.members@.dom()
    }
}

impl StrSet {
    pub fn new() -> (r: Self)
        ensures
            r@ == Set::<Seq<char>>::empty(),
    {
        let r = StrSet { members: StrMap::new() };
        assert(r@ =~= Set::<Seq<char>>::empty());
        r
    }

    /// The set of the texts in `list`.
    pub fn of(list: &[&str]) -> (r: Self)
        ensures
            forall|k: Seq<char>| #[trigger] r@.contains(k) <==> text::views(list@).contains(k),
    {
        let mut r = StrSet::new();
        let mut i: usize = 0;
        while i < list.len()
            invariant
                i <= list@.len(),
                forall|k: Seq<char>| #[trigger]
                    r@.contains(k) <==> exists|j: int| 0 <= j < i && text::views(list@)[j] == k,
            decreases list@.len() - i,
        {
            r.insert(list[i].to_owned());
            assert(text::views(list@)[i as int] == list@[i as int]@);
            i += 1;
        }
        r
    }

    pub fn contains(&self, key: &str) -> (r: bool)
        ensures
            r == self@.contains(key@),
    {
        self.members.contains_key(key)
    }

    /// Adds `key`; true if it was not there.
    pub fn insert(&mut self, key: String) -> (r: bool)
        ensures
            final(self)@ == old(self)@.insert(key@),
            r == !old(self)@.contains(key@),
    {
        let was = self.members.insert(key, true);
        assert(self@ =~= old(self)@.insert(key@));
        was.is_none()
    }

    /// Adds all of `other`.
    pub fn extend(&mut self, other: &StrSet)
        ensures
            final(self)@ == old(self)@.union(other@),
    {
        let ghost was = self@;
        let ghost m = other.members@;
        let ghost ks = sorted_keys(m);
        let n = other.members.len();
        let mut i: usize = 0;
        assert(self@ =~= was.union(ks.take(0).to_set()));
        while i < n
            invariant
                i <= n == ks.len(),
                m == other.members@,
                ks == sorted_keys(m),
                listing(ks, m.dom()),
                self@ == was.union(ks.take(i as int).to_set()),
            decreases n - i,
        {
            let k = other.members.key_at(i).clone();
            self.insert(k);
            proof {
                let a = ks.take(i as int);
                let b = ks.take(i + 1);
                assert forall|x: Seq<char>| #[trigger] b.contains(x) <==> a.contains(x) || x
                    == ks[i as int] by {
                    if a.contains(x) {
                        let j = choose|j: int| 0 <= j < a.len() && a[j] == x;
                        assert(b[j] == x);
                    }
                    assert(b[i as int] == ks[i as int]);
                    if b.contains(x) {
                        let j = choose|j: int| 0 <= j < b.len() && b[j] == x;
                        if j < i {
                            assert(a[j] == x);
                        }
                    }
                }
                assert(was.union(a.to_set()).insert(ks[i as int]) =~= was.union(b.to_set()));
            }
            i += 1;
        }
        proof {
            assert(ks.take(n as int) =~= ks);
            assert forall|x: Seq<char>| ks.to_set().contains(x) == other@.contains(x) by {
                assert(ks.contains(x) <==> m.dom().contains(x));
            }
            assert(was.union(ks.to_set()) =~= was.union(other@));
        }
    }

    /// Takes `key` out; true if it was there.
    pub fn remove(&mut self, key: &str) -> (r: bool)
        ensures
            final(self)@ == old(self)@.remove(key@),
            r == old(self)@.contains(key@),
    {
        let was = self.members.remove(key);
        assert(self@ =~= old(self)@.remove(key@));
        was.is_some()
    }

    pub fn is_empty(&self) -> (r: bool)
        ensures
            r == (self@ == Set::<Seq<char>>::empty()),
    {
        let r = self.members.is_empty();
        proof {
            if self@ =~= Set::<Seq<char>>::empty() {
                assert(self.members@ =~= Map::<Seq<char>, bool>::empty());
            }
        }
        r
    }
}

impl Dup for StrSet {
    fn dup(&self) -> (r: Self) {
        StrSet { members: self.members.dup() }
    }
}

impl<V: Dup> Clone for StrMap<V> {
    fn clone(&self) -> (r: Self)
        ensures
            r@ == self@,
    {
        self.dup()
    }
}

} // verus!
