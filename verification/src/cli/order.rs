//! Lexicographic order of keys, and stable order by key.
use vstd::prelude::*;

verus! {

/// A key: a sequence of numbers in lexicographic order.
pub type Key = Seq<u64>;

/// `a` comes before `b`.
pub open spec fn lt(a: Key, b: Key) -> bool
    decreases a.len(),
{
    if b.len() == 0 {
        false
    } else if a.len() == 0 {
        true
    } else if a[0] == b[0] {
        lt(a.drop_first(), b.drop_first())
    } else {
        a[0] < b[0]
    }
}

pub proof fn lemma_lt_irreflexive(a: Key)
    ensures
        !lt(a, a),
    decreases a.len(),
{
    if a.len() > 0 {
        lemma_lt_irreflexive(a.drop_first());
    }
}

pub proof fn lemma_lt_transitive(a: Key, b: Key, c: Key)
    requires
        lt(a, b),
        lt(b, c),
    ensures
        lt(a, c),
    decreases a.len(),
{
    if a.len() > 0 && b.len() > 0 && c.len() > 0 && a[0] == b[0] && b[0] == c[0] {
        lemma_lt_transitive(a.drop_first(), b.drop_first(), c.drop_first());
    }
}

pub proof fn lemma_lt_total(a: Key, b: Key)
    ensures
        a == b || lt(a, b) || lt(b, a),
    decreases a.len(),
{
    if a.len() > 0 && b.len() > 0 {
        if a[0] == b[0] {
            lemma_lt_total(a.drop_first(), b.drop_first());
            if a.drop_first() == b.drop_first() {
                assert(a =~= seq![a[0]] + a.drop_first());
                assert(b =~= seq![b[0]] + b.drop_first());
            }
        }
    } else if a.len() == 0 && b.len() == 0 {
        assert(a =~= b);
    }
}

/// Whether `a` comes before `b`.
pub fn less(a: &Vec<u64>, b: &Vec<u64>) -> (r: bool)
    ensures
        r == lt(a@, b@),
{
    let mut i: usize = 0;
    assert(a@.skip(0) =~= a@);
    assert(b@.skip(0) =~= b@);
    while i < a.len() && i < b.len()
        invariant
            i <= a@.len(),
            i <= b@.len(),
            lt(a@, b@) == lt(a@.skip(i as int), b@.skip(i as int)),
        decreases a@.len() - i,
    {
        if a[i] != b[i] {
            return a[i] < b[i];
        }
        assert(a@.skip(i as int).drop_first() =~= a@.skip(i + 1));
        assert(b@.skip(i as int).drop_first() =~= b@.skip(i + 1));
        i += 1;
    }
    i < b.len()
}

/// How many elements at the front of `s` do not come after the key `k`.
pub open spec fn place(keys: Seq<Key>, s: Seq<int>, k: Key) -> nat
    decreases s.len(),
{
    if s.len() == 0 {
        0
    } else if lt(k, keys[s.last()]) {
        place(keys, s.drop_last(), k)
    } else {
        s.len()
    }
}

/// The indices of `sel`, in that order where keys tie, else by their keys.
pub open spec fn by_key(keys: Seq<Key>, sel: Seq<int>) -> Seq<int>
    decreases sel.len(),
{
    if sel.len() == 0 {
        Seq::empty()
    } else {
        let s = by_key(keys, sel.drop_last());
        s.insert(place(keys, s, keys[sel.last()]) as int, sel.last())
    }
}

pub proof fn lemma_place(keys: Seq<Key>, s: Seq<int>, k: Key)
    ensures
        place(keys, s, k) <= s.len(),
        forall|i: int| place(keys, s, k) <= i < s.len() ==> lt(k, keys[#[trigger] s[i]]),
        place(keys, s, k) > 0 ==> !lt(k, keys[s[place(keys, s, k) - 1]]),
    decreases s.len(),
{
    if s.len() > 0 && lt(k, keys[s.last()]) {
        let t = s.drop_last();
        lemma_place(keys, t, k);
        assert forall|i: int| place(keys, s, k) <= i < s.len() implies lt(k, keys[#[trigger] s[i]]) by {
            if i < s.len() - 1 {
                assert(t[i] == s[i]);
            }
        }
    }
}

/// The result is ordered and holds the same indices.
pub proof fn lemma_by_key(keys: Seq<Key>, sel: Seq<int>)
    ensures
        by_key(keys, sel).len() == sel.len(),
        forall|i: int, j: int|
            0 <= i < j < sel.len() ==> !lt(
                keys[#[trigger] by_key(keys, sel)[j]],
                keys[#[trigger] by_key(keys, sel)[i]],
            ),
        forall|x: int| #[trigger] by_key(keys, sel).contains(x) <==> sel.contains(x),
    decreases sel.len(),
{
    if sel.len() > 0 {
        let t = sel.drop_last();
        lemma_by_key(keys, t);
        let s = by_key(keys, t);
        let x = sel.last();
        let k = keys[x];
        let p = place(keys, s, k) as int;
        lemma_place(keys, s, k);
        let r = s.insert(p, x);
        assert forall|i: int, j: int| 0 <= i < j < r.len() implies !lt(
            keys[#[trigger] r[j]],
            keys[#[trigger] r[i]],
        ) by {
            let i0 = if i <= p {
                i
            } else {
                i - 1
            };
            let j0 = if j <= p {
                j
            } else {
                j - 1
            };
            if i == p {
                assert(lt(k, keys[s[j - 1]]));
                if lt(keys[s[j - 1]], k) {
                    lemma_lt_transitive(k, keys[s[j - 1]], k);
                    lemma_lt_irreflexive(k);
                }
            } else if j == p {
                if lt(k, keys[s[i]]) {
                    let y = keys[s[p - 1]];
                    if i < p - 1 {
                        assert(!lt(y, keys[s[i]]));
                        lemma_lt_total(y, keys[s[i]]);
                        if lt(keys[s[i]], y) {
                            lemma_lt_transitive(k, keys[s[i]], y);
                        }
                    }
                }
            } else {
                assert(!lt(keys[s[j0]], keys[s[i0]]));
            }
        }
        assert forall|y: int| #[trigger] r.contains(y) <==> sel.contains(y) by {
            if r.contains(y) {
                let i = choose|i: int| 0 <= i < r.len() && r[i] == y;
                if i == p {
                    assert(sel[sel.len() - 1] == y);
                } else {
                    let i0 = if i < p {
                        i
                    } else {
                        i - 1
                    };
                    assert(s[i0] == y);
                    assert(s.contains(y));
                    assert(t.contains(y));
                    let q = choose|q: int| 0 <= q < t.len() && t[q] == y;
                    assert(sel[q] == y);
                }
            }
            if sel.contains(y) {
                if y == x {
                    assert(r[p] == y);
                } else {
                    let q = choose|q: int| 0 <= q < sel.len() && sel[q] == y;
                    assert(t[q] == y);
                    assert(t.contains(y));
                    assert(s.contains(y));
                    let i = choose|i: int| 0 <= i < s.len() && s[i] == y;
                    let i1 = if i < p {
                        i
                    } else {
                        i + 1
                    };
                    assert(r[i1] == y);
                }
            }
        }
    }
}

/// What a list of keys says.
pub open spec fn key_views(keys: Seq<Vec<u64>>) -> Seq<Key> {
    keys.map_values(|k: Vec<u64>| k@)
}

/// What a list of indices says.
pub open spec fn ints(v: Seq<usize>) -> Seq<int> {
    v.map_values(|x: usize| x as int)
}

/// Orders the indices of `sel` by key; where keys tie they keep their order.
pub fn sort_by_key(keys: &Vec<Vec<u64>>, sel: &Vec<usize>) -> (r: Vec<usize>)
    requires
        forall|i: int| 0 <= i < sel@.len() ==> #[trigger] sel@[i] < keys@.len(),
    ensures
        ints(r@) == by_key(key_views(keys@), ints(sel@)),
        forall|i: int| 0 <= i < r@.len() ==> #[trigger] r@[i] < keys@.len(),
        r@.len() == sel@.len(),
{
    let ghost ks = key_views(keys@);
    let ghost all = ints(sel@);
    let mut out: Vec<usize> = Vec::new();
    let mut i: usize = 0;
    assert(ints(out@) =~= by_key(ks, all.take(0)));
    while i < sel.len()
        invariant
            i <= sel@.len(),
            ks == key_views(keys@),
            all == ints(sel@),
            out@.len() == i,
            forall|i: int| 0 <= i < sel@.len() ==> #[trigger] sel@[i] < keys@.len(),
            forall|j: int| 0 <= j < out@.len() ==> #[trigger] out@[j] < keys@.len(),
            ints(out@) == by_key(ks, all.take(i as int)),
        decreases sel@.len() - i,
    {
        let x: usize = sel[i];
        let ghost s = ints(out@);
        proof {
            assert(all.take(i + 1).drop_last() =~= all.take(i as int));
            assert(all.take(i + 1).last() == x as int);
        }
        let mut p: usize = out.len();
        assert(s.take(p as int) =~= s);
        while p > 0 && less(&keys[x], &keys[out[p - 1]])
            invariant
                p <= out@.len(),
                x < keys@.len(),
                ks == key_views(keys@),
                s == ints(out@),
                forall|j: int| 0 <= j < out@.len() ==> #[trigger] out@[j] < keys@.len(),
                place(ks, s, ks[x as int]) == place(ks, s.take(p as int), ks[x as int]),
            ensures
                place(ks, s, ks[x as int]) == p,
            decreases p,
        {
            assert(s.take(p as int).drop_last() =~= s.take(p - 1));
            assert(s.take(p as int).last() == out@[p - 1] as int);
            p = p - 1;
        }
        out.insert(p, x);
        assert(ints(out@) =~= s.insert(p as int, x as int));
        i += 1;
    }
    assert(all.take(i as int) =~= all);
    out
}

} // verus!
