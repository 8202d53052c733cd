//! Sets of indices that are merged pair by pair.
use vstd::prelude::*;

verus! {

/// The representative of each index.
pub type Roots = Seq<int>;

/// Every index on its own.
pub open spec fn apart(n: nat) -> Roots {
    Seq::new(n, |i: int| i)
}

/// The sets of `a` and `b` become one, represented as that of `b` was.
pub open spec fn merged(r: Roots, a: int, b: int) -> Roots {
    Seq::new(
        r.len(),
        |i: int|
            if r[i] == r[a] {
                r[b]
            } else {
                r[i]
            },
    )
}

/// The pairs merged one after the other.
pub open spec fn merged_all(r: Roots, pairs: Seq<(int, int)>) -> Roots
    decreases pairs.len(),
{
    if pairs.len() == 0 {
        r
    } else {
        let p = pairs.last();
        merged(merged_all(r, pairs.drop_last()), p.0, p.1)
    }
}

/// Merging keeps together what is together.
pub proof fn lemma_merged_keeps(r: Roots, pairs: Seq<(int, int)>, i: int, j: int)
    requires
        0 <= i < r.len(),
        0 <= j < r.len(),
        r[i] == r[j],
    ensures
        merged_all(r, pairs).len() == r.len(),
        merged_all(r, pairs)[i] == merged_all(r, pairs)[j],
    decreases pairs.len(),
{
    if pairs.len() > 0 {
        lemma_merged_keeps(r, pairs.drop_last(), i, j);
    }
}

/// A merged pair is together.
pub proof fn lemma_merged_joins(r: Roots, pairs: Seq<(int, int)>, k: int)
    requires
        0 <= k < pairs.len(),
        0 <= pairs[k].0 < r.len(),
        0 <= pairs[k].1 < r.len(),
    ensures
        merged_all(r, pairs)[pairs[k].0] == merged_all(r, pairs)[pairs[k].1],
    decreases pairs.len(),
{
    lemma_merged_len(r, pairs.drop_last());
    if k < pairs.len() - 1 {
        assert(pairs.drop_last()[k] == pairs[k]);
        lemma_merged_joins(r, pairs.drop_last(), k);
    }
}

/// Merging keeps the number of indices.
pub proof fn lemma_merged_len(r: Roots, pairs: Seq<(int, int)>)
    ensures
        merged_all(r, pairs).len() == r.len(),
    decreases pairs.len(),
{
    if pairs.len() > 0 {
        lemma_merged_len(r, pairs.drop_last());
    }
}

/// No index of `s` is together with one outside of it.
pub open spec fn separate(r: Roots, s: Set<int>) -> bool {
    forall|x: int, y: int|
        0 <= x < r.len() && 0 <= y < r.len() && s.contains(x) && !s.contains(y)
            ==> #[trigger] r[x] != #[trigger] r[y]
}

/// Every representative is one of the members.
pub open spec fn in_range(r: Roots) -> bool {
    forall|i: int| 0 <= i < r.len() ==> 0 <= #[trigger] r[i] < r.len()
}

/// Merging keeps representatives among the members.
pub proof fn lemma_merged_in_range(r: Roots, pairs: Seq<(int, int)>)
    requires
        in_range(r),
        forall|k: int|
            0 <= k < pairs.len() ==> 0 <= (#[trigger] pairs[k]).0 < r.len() && 0 <= pairs[k].1
                < r.len(),
    ensures
        in_range(merged_all(r, pairs)),
        merged_all(r, pairs).len() == r.len(),
    decreases pairs.len(),
{
    if pairs.len() > 0 {
        let t = pairs.drop_last();
        assert forall|k: int| 0 <= k < t.len() implies 0 <= (#[trigger] t[k]).0 < r.len() && 0
            <= t[k].1 < r.len() by {
            assert(pairs[k] == t[k]);
        }
        lemma_merged_in_range(r, t);
        assert(pairs[pairs.len() - 1] == pairs.last());
    }
}

/// Merging pairs that do not cross the border of `s` keeps it separate.
pub proof fn lemma_merged_separate(r: Roots, pairs: Seq<(int, int)>, s: Set<int>)
    requires
        separate(r, s),
        forall|k: int|
            0 <= k < pairs.len() ==> {
                &&& 0 <= (#[trigger] pairs[k]).0 < r.len()
                &&& 0 <= pairs[k].1 < r.len()
                &&& s.contains(pairs[k].0) == s.contains(pairs[k].1)
            },
    ensures
        separate(merged_all(r, pairs), s),
    decreases pairs.len(),
{
    if pairs.len() > 0 {
        let t = pairs.drop_last();
        assert forall|k: int| 0 <= k < t.len() implies {
            &&& 0 <= (#[trigger] t[k]).0 < r.len()
            &&& 0 <= t[k].1 < r.len()
            &&& s.contains(t[k].0) == s.contains(t[k].1)
        } by {
            assert(t[k] == pairs[k]);
        }
        lemma_merged_separate(r, t, s);
        lemma_merged_len(r, t);
        let q = merged_all(r, t);
        let p = pairs.last();
        let m = merged(q, p.0, p.1);
        assert forall|x: int, y: int|
            0 <= x < m.len() && 0 <= y < m.len() && s.contains(x) && !s.contains(
                y,
            ) implies #[trigger] m[x] != #[trigger] m[y] by {
            assert(q[x] != q[y]);
            if s.contains(p.0) {
                assert(q[p.0] != q[y]);
                assert(q[p.1] != q[y]);
            } else {
                assert(q[x] != q[p.0]);
                assert(q[x] != q[p.1]);
            }
        }
    }
}

pub struct UnionFind {
    parent: Vec<usize>,
    roots: Ghost<Seq<int>>,
    rank: Ghost<Seq<int>>,
    bound: Ghost<int>,
}

impl View for UnionFind {
    type V = Roots;

    closed spec fn view(&self) -> Roots {
        self.roots@
    }
}

impl UnionFind {
    /// Parents lead to representatives, each step at a higher rank.
    pub closed spec fn wf(self) -> bool {
        let n = self.parent@.len();
        &&& self.roots@.len() == n
        &&& self.rank@.len() == n
        &&& forall|i: int|
            0 <= i < n ==> {
                &&& 0 <= (#[trigger] self.parent@[i]) < n
                &&& 0 <= self.rank@[i] < self.bound@
                &&& self.parent@[i] != i ==> self.rank@[self.parent@[i] as int] > self.rank@[i]
                &&& self.roots@[i] == self.roots@[self.parent@[i] as int]
                &&& self.parent@[i] == i ==> self.roots@[i] == i
            }
        &&& forall|i: int|
            0 <= i < n ==> 0 <= (#[trigger] self.roots@[i]) < n && self.parent@[self.roots@[i]]
                == self.roots@[i]
    }

    pub fn new(n: usize) -> (r: Self)
        ensures
            r.wf(),
            r@ == apart(n as nat),
    {
        let mut parent: Vec<usize> = Vec::new();
        let mut i: usize = 0;
        while i < n
            invariant
                i <= n,
                parent@.len() == i,
                forall|j: int| 0 <= j < i ==> parent@[j] == j,
            decreases n - i,
        {
            parent.push(i);
            i += 1;
        }
        let ghost rank = Seq::new(n as nat, |i: int| 0int);
        UnionFind {
            parent,
            roots: Ghost(apart(n as nat)),
            rank: Ghost(rank),
            bound: Ghost(1int),
        }
    }

    /// The representative of `x`.
    pub fn find(&mut self, x: usize) -> (r: usize)
        requires
            old(self).wf(),
            x < old(self)@.len(),
        ensures
            final(self).wf(),
            final(self)@ == old(self)@,
            r == old(self)@[x as int],
    {
        let mut x: usize = x;
        let ghost root = self.roots@[x as int];
        let ghost roots = self.roots@;
        while self.parent[x] != x
            invariant
                self.wf(),
                x < self.parent@.len(),
                self.roots@ == roots,
                roots[x as int] == root,
            decreases self.bound@ - self.rank@[x as int],
        {
            let p: usize = self.parent[x];
            let g: usize = self.parent[p];
            assert(self.rank@[p as int] > self.rank@[x as int]);
            assert(self.parent@[p as int] == g);
            assert(self.rank@[g as int] > self.rank@[x as int]);
            assert(0 <= self.rank@[g as int] < self.bound@) by {
                assert(0 <= self.parent@[g as int]);
            }
            self.parent.set(x, g);
            x = g;
        }
        assert(self.parent@[x as int] == x);
        x
    }

    /// Merges the sets of `a` and `b`.
    pub fn union(&mut self, a: usize, b: usize)
        requires
            old(self).wf(),
            a < old(self)@.len(),
            b < old(self)@.len(),
        ensures
            final(self).wf(),
            final(self)@ == merged(old(self)@, a as int, b as int),
    {
        let ra: usize = self.find(a);
        let rb: usize = self.find(b);
        let ghost before = *self;
        if ra != rb {
            self.parent.set(ra, rb);
            proof {
                assert(before.parent@[ra as int] == ra && before.parent@[rb as int] == rb) by {
                    assert(before.roots@[a as int] == ra);
                    assert(before.roots@[b as int] == rb);
                }
                let top = if before.rank@[rb as int] > before.rank@[ra as int] {
                    before.rank@[rb as int]
                } else {
                    before.rank@[ra as int] + 1
                };
                self.rank@ = before.rank@.update(rb as int, top);
                self.bound@ = if before.bound@ > top {
                    before.bound@
                } else {
                    top + 1
                };
                self.roots@ = merged(before.roots@, a as int, b as int);
                assert forall|i: int| 0 <= i < self.parent@.len() implies {
                    &&& 0 <= (#[trigger] self.parent@[i]) < self.parent@.len()
                    &&& 0 <= self.rank@[i] < self.bound@
                    &&& self.parent@[i] != i ==> self.rank@[self.parent@[i] as int] > self.rank@[i]
                    &&& self.roots@[i] == self.roots@[self.parent@[i] as int]
                    &&& self.parent@[i] == i ==> self.roots@[i] == i
                } by {
                    assert(0 <= before.parent@[i] < before.parent@.len());
                    if i == ra {
                        assert(before.roots@[ra as int] == ra);
                        assert(before.roots@[rb as int] == rb);
                    }
                }
                assert forall|i: int| 0 <= i < self.parent@.len() implies 0 <= (
                #[trigger] self.roots@[i]) < self.parent@.len() && self.parent@[self.roots@[i]]
                    == self.roots@[i] by {
                    assert(0 <= before.roots@[i] < before.parent@.len());
                    assert(before.parent@[before.roots@[i]] == before.roots@[i]);
                }
            }
        } else {
            assert(merged(self@, a as int, b as int) =~= self@);
        }
    }
}

} // verus!
