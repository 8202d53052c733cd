//! The committed view of a volume, taken from its index.
use std::sync::Arc;
use vstd::prelude::*;

use crate::engine::tree;
use crate::engine::tree::{DirNode, FileVersion, Parts, TreeView};

verus! {

/// A file of an index.
#[derive(Debug, Clone, PartialEq, Eq)]
pub struct IndexLeaf {
    pub name: String,
    pub uid: u64,
    pub length: u64,
}

/// A subdirectory of an index.
#[derive(Debug)]
pub struct IndexBranch {
    pub name: String,
    pub tree: IndexTree,
}

/// A directory of an index with all that it holds. Of two entries with one name the later counts.
#[derive(Debug)]
pub struct IndexTree {
    pub files: Vec<IndexLeaf>,
    pub subdirs: Vec<IndexBranch>,
}

/// The file named `name`.
pub open spec fn leaf(v: Seq<IndexLeaf>, name: Seq<char>) -> Option<FileVersion>
    decreases v.len(),
{
    if v.len() == 0 {
        None
    } else if v.last().name@ == name {
        Some(FileVersion { version: v.last().uid, len: v.last().length, partial: false })
    } else {
        leaf(v.drop_last(), name)
    }
}

/// The subdirectory named `name`.
pub open spec fn branch(v: Seq<IndexBranch>, name: Seq<char>) -> Option<IndexTree>
    decreases v.len(),
{
    if v.len() == 0 {
        None
    } else if v.last().name@ == name {
        Some(v.last().tree)
    } else {
        branch(v.drop_last(), name)
    }
}

/// The index holds the directory `p`.
pub open spec fn holds_dir(t: IndexTree, p: Parts) -> bool
    decreases p.len(),
{
    if p.len() == 0 {
        true
    } else {
        match branch(t.subdirs@, p[0]) {
            Some(sub) => holds_dir(sub, p.drop_first()),
            None => false,
        }
    }
}

/// The file that the index holds at `p`.
pub open spec fn held_file(t: IndexTree, p: Parts) -> Option<FileVersion>
    decreases p.len(),
{
    if p.len() == 0 {
        None
    } else if p.len() == 1 {
        leaf(t.files@, p[0])
    } else {
        match branch(t.subdirs@, p[0]) {
            Some(sub) => held_file(sub, p.drop_first()),
            None => None,
        }
    }
}

/// What the index holds.
pub open spec fn held(t: IndexTree) -> TreeView {
    TreeView {
        dirs: Set::new(|p: Parts| holds_dir(t, p)),
        files: Map::new(|p: Parts| held_file(t, p) is Some, |p: Parts| held_file(t, p)->0),
    }
}

proof fn lemma_held(t: IndexTree, n: DirNode)
    requires
        forall|k: Seq<char>| #[trigger] n.files@.contains_key(k) <==> leaf(t.files@, k) is Some,
        forall|k: Seq<char>| #[trigger] n.files@.contains_key(k) ==> leaf(t.files@, k) == Some(
            n.files@[k],
        ),
        forall|k: Seq<char>| #[trigger]
            n.subdirs@.contains_key(k) <==> branch(t.subdirs@, k) is Some,
        forall|k: Seq<char>| #[trigger]
            n.subdirs@.contains_key(k) ==> n.subdirs@[k].tree() == held(branch(t.subdirs@, k)->0),
    ensures
        n.tree() == held(t),
{
    assert forall|p: Parts| n.tree().dirs.contains(p) == #[trigger] holds_dir(t, p) by {
        if p.len() > 0 && n.subdirs@.contains_key(p[0]) {
            let sub = n.subdirs@[p[0]];
            assert(sub.tree().dirs.contains(p.drop_first()) == held(
                branch(t.subdirs@, p[0])->0,
            ).dirs.contains(p.drop_first()));
        }
    }
    assert forall|p: Parts| tree::file_at(n, p) == #[trigger] held_file(t, p) by {
        if p.len() == 1 {
            assert(n.files@.contains_key(p[0]) <==> leaf(t.files@, p[0]) is Some);
        }
        if p.len() > 1 {
            assert(n.subdirs@.contains_key(p[0]) <==> branch(t.subdirs@, p[0]) is Some);
            if n.subdirs@.contains_key(p[0]) {
                let sub = n.subdirs@[p[0]];
                let b = branch(t.subdirs@, p[0])->0;
                let q = p.drop_first();
                assert(sub.tree().files.contains_key(q) == held(b).files.contains_key(q));
                if sub.tree().files.contains_key(q) {
                    assert(sub.tree().files[q] == held(b).files[q]);
                }
            }
        }
    }
    assert(n.tree().dirs =~= held(t).dirs);
    assert(n.tree().files =~= held(t).files) by {
        assert forall|p: Parts| n.tree().files.contains_key(p) == held(t).files.contains_key(
            p,
        ) by {
            assert(tree::file_at(n, p) == held_file(t, p));
        }
        assert forall|p: Parts| n.tree().files.contains_key(p) implies n.tree().files[p] == held(
            t,
        ).files[p] by {
            assert(tree::file_at(n, p) == held_file(t, p));
        }
    }
}

fn build(t: &IndexTree) -> (r: DirNode)
    ensures
        r.tree() == held(*t),
    decreases *t,
{
    let mut n = DirNode::default();
    let mut i: usize = 0;
    assert(t.files@.take(0) =~= Seq::<IndexLeaf>::empty());
    while i < t.files.len()
        invariant
            i <= t.files@.len(),
            n.subdirs@ == Map::<Seq<char>, DirNode>::empty(),
            forall|k: Seq<char>| #[trigger]
                n.files@.contains_key(k) <==> leaf(t.files@.take(i as int), k) is Some,
            forall|k: Seq<char>| #[trigger]
                n.files@.contains_key(k) ==> leaf(t.files@.take(i as int), k) == Some(n.files@[k]),
        decreases t.files@.len() - i,
    {
        let f = &t.files[i];
        assert(t.files@.take(i + 1).drop_last() =~= t.files@.take(i as int));
        n.files.insert(
            f.name.clone(),
            Arc::new(FileVersion { version: f.uid, len: f.length, partial: false }),
        );
        i += 1;
    }
    assert(t.files@.take(i as int) =~= t.files@);
    let mut i: usize = 0;
    assert(t.subdirs@.take(0) =~= Seq::<IndexBranch>::empty());
    while i < t.subdirs.len()
        invariant
            i <= t.subdirs@.len(),
            forall|k: Seq<char>| #[trigger]
                n.files@.contains_key(k) <==> leaf(t.files@, k) is Some,
            forall|k: Seq<char>| #[trigger]
                n.files@.contains_key(k) ==> leaf(t.files@, k) == Some(n.files@[k]),
            forall|k: Seq<char>| #[trigger]
                n.subdirs@.contains_key(k) <==> branch(t.subdirs@.take(i as int), k) is Some,
            forall|k: Seq<char>| #[trigger]
                n.subdirs@.contains_key(k) ==> n.subdirs@[k].tree() == held(
                    branch(t.subdirs@.take(i as int), k)->0,
                ),
        decreases t.subdirs@.len() - i,
    {
        let b = &t.subdirs[i];
        assert(t.subdirs@.take(i + 1).drop_last() =~= t.subdirs@.take(i as int));
        assert(decreases_to!(*t => t.subdirs));
        assert(decreases_to!(*t => t.subdirs@[i as int]));
        let sub = build(&b.tree);
        n.subdirs.insert(b.name.clone(), Arc::new(sub));
        i += 1;
    }
    assert(t.subdirs@.take(i as int) =~= t.subdirs@);
    proof {
        lemma_held(*t, n);
    }
    n
}

/// The committed view that an index describes.
pub fn committed_view(index: &IndexTree) -> (r: Arc<DirNode>)
    ensures
        r.tree() == held(*index),
{
    Arc::new(build(index))
}

} // verus!
