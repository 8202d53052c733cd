//! What updates of a tree leave as it was, and what is held of an index.
use vstd::prelude::*;

use crate::engine::committed;
use crate::engine::committed::{IndexBranch, IndexLeaf, IndexTree};
use crate::engine::tree;
use crate::engine::tree::{Parts, TreeView};

verus! {

/// Taking a file away, making a directory and taking one away leave every path that is neither
/// within the place nor above it.
pub proof fn law_updates_leave_the_rest(t: TreeView, p: Parts, q: Parts)
    requires
        !tree::within(p, q),
        !tree::within(q, p),
    ensures
        ({
            let a = t.drop_file(p);
            let b = t.put_dir(p);
            let c = t.drop_dir(p);
            &&& a.dirs.contains(q) == t.dirs.contains(q) && b.dirs.contains(q) == t.dirs.contains(q)
                && c.dirs.contains(q) == t.dirs.contains(q)
            &&& a.files.contains_key(q) == t.files.contains_key(q) && b.files.contains_key(q)
                == t.files.contains_key(q) && c.files.contains_key(q) == t.files.contains_key(q)
            &&& t.files.contains_key(q) ==> a.files[q] == t.files[q] && b.files[q] == t.files[q]
                && c.files[q] == t.files[q]
        }),
{
    assert(p.take(p.len() as int) =~= p);
}

/// A directory that is taken away takes all within it along, and no directory outside of it; a file
/// that is taken away takes no directory along, and nothing below its path.
pub proof fn law_what_removal_takes_along(t: TreeView, p: Parts, q: Parts)
    ensures
        tree::within(p, q) ==> !t.drop_dir(p).files.contains_key(q) && !t.drop_dir(p).dirs.contains(
            q,
        ),
        !tree::within(p, q) ==> (t.drop_dir(p).dirs.contains(q) <==> t.dirs.contains(q)),
        t.drop_file(p).dirs.contains(q) <==> t.dirs.contains(q),
        tree::within(p, q) && q != p && t.files.contains_key(q) ==> t.drop_file(
            p,
        ).files.contains_key(q) && t.drop_file(p).files[q] == t.files[q],
{
}

/// A file or a directory that is put somewhere makes all above it directories; a directory keeps
/// what it already held, a file takes the place of whatever was there.
pub proof fn law_what_is_above_becomes_a_directory(
    t: TreeView,
    p: Parts,
    f: tree::FileVersion,
    q: Parts,
)
    ensures
        tree::above(q, p) ==> {
            &&& t.put_dir(p).dirs.contains(q) && !t.put_dir(p).files.contains_key(q)
            &&& t.put_file(p, f).dirs.contains(q) && !t.put_file(p, f).files.contains_key(q)
        },
        tree::within(p, q) && q != p ==> {
            &&& t.put_dir(p).dirs.contains(q) <==> t.dirs.contains(q)
            &&& t.put_dir(p).files.contains_key(q) <==> t.files.contains_key(q)
            &&& !t.put_file(p, f).dirs.contains(q) && !t.put_file(p, f).files.contains_key(q)
        },
        !t.put_file(p, f).dirs.contains(p),
{
    assert(p.take(p.len() as int) =~= p);
}

proof fn lemma_leaf(v: Seq<IndexLeaf>, i: int)
    requires
        0 <= i < v.len(),
        forall|j: int| i < j < v.len() ==> (#[trigger] v[j]).name@ != v[i].name@,
    ensures
        committed::leaf(v, v[i].name@) matches Some(f) && f.version == v[i].uid && f.len
            == v[i].length && !f.partial,
    decreases v.len(),
{
    if i < v.len() - 1 {
        assert(v[v.len() - 1].name@ != v[i].name@);
        let prev = v.drop_last();
        assert forall|j: int| i < j < prev.len() implies (#[trigger] prev[j]).name@
            != prev[i].name@ by {
            assert(v[j].name@ != v[i].name@);
        }
        lemma_leaf(prev, i);
    }
}

proof fn lemma_branch(v: Seq<IndexBranch>, i: int)
    requires
        0 <= i < v.len(),
        forall|j: int| i < j < v.len() ==> (#[trigger] v[j]).name@ != v[i].name@,
    ensures
        committed::branch(v, v[i].name@) == Some(v[i].tree),
    decreases v.len(),
{
    if i < v.len() - 1 {
        assert(v[v.len() - 1].name@ != v[i].name@);
        let prev = v.drop_last();
        assert forall|j: int| i < j < prev.len() implies (#[trigger] prev[j]).name@
            != prev[i].name@ by {
            assert(v[j].name@ != v[i].name@);
        }
        lemma_branch(prev, i);
    }
}

/// A file of an index that no later one has the name of is held under its name, as the version of
/// its identifier, with its length and whole.
pub proof fn law_files_of_an_index_are_held(t: IndexTree, i: int)
    requires
        0 <= i < t.files@.len(),
        forall|j: int|
            i < j < t.files@.len() ==> (#[trigger] t.files@[j]).name@ != t.files@[i].name@,
    ensures
        ({
            let at = seq![t.files@[i].name@];
            let h = committed::held(t);
            &&& h.files.contains_key(at)
            &&& h.files[at].version == t.files@[i].uid
            &&& h.files[at].len == t.files@[i].length
            &&& !h.files[at].partial
        }),
{
    lemma_leaf(t.files@, i);
}

/// A directory of an index that no later one has the name of is held under its name, and below that
/// name is just what the directory itself holds.
pub proof fn law_directories_of_an_index_are_held(t: IndexTree, i: int, p: Parts)
    requires
        0 <= i < t.subdirs@.len(),
        forall|j: int|
            i < j < t.subdirs@.len() ==> (#[trigger] t.subdirs@[j]).name@ != t.subdirs@[i].name@,
    ensures
        ({
            let at = seq![t.subdirs@[i].name@] + p;
            let h = committed::held(t);
            let sub = committed::held(t.subdirs@[i].tree);
            &&& h.dirs.contains(at) <==> sub.dirs.contains(p)
            &&& p.len() > 0 ==> (h.files.contains_key(at) <==> sub.files.contains_key(p))
            &&& p.len() > 0 && sub.files.contains_key(p) ==> h.files[at] == sub.files[p]
            &&& h.dirs.contains(Parts::empty())
        }),
{
    lemma_branch(t.subdirs@, i);
    let at = seq![t.subdirs@[i].name@] + p;
    assert(at.drop_first() =~= p);
}

} // verus!
