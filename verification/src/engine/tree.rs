//! The committed view of a volume: a directory tree whose nodes are shared between versions.
//!
//! A tree is described by what it holds at each path. A path is the sequence of its non-empty
//! components; the root is the empty path.
use vstd::prelude::*;

use std::sync::Arc;

use crate::strmap::{Dup, StrMap};
use crate::text;

verus! {

#[derive(Clone, Copy, Debug, PartialEq, Eq, Structural)]
pub struct FileVersion {
    pub version: u64,
    pub len: u64,
    /// Only a prefix is committed: the upload ended early or was snapshotted while open.
    pub partial: bool,
}

impl View for FileVersion {
    type V = FileVersion;

    open spec fn view(&self) -> FileVersion {
        *self
    }
}

#[derive(Debug)]
pub struct DirNode {
    pub files: StrMap<Arc<FileVersion>>,
    pub subdirs: Subdirs,
}

/// The subdirectories of a node by name. `None` is the empty map.
#[derive(Debug)]
pub struct Subdirs {
    children: Option<StrMap<Arc<DirNode>>>,
}

impl View for Subdirs {
    type V = Map<Seq<char>, DirNode>;

    closed spec fn view(&self) -> Map<Seq<char>, DirNode> {
        match self.children {
            Some(m) => m@,
            None => Map::empty(),
        }
    }
}

impl Subdirs {
    pub fn new() -> (r: Self)
        ensures
            r@ == Map::<Seq<char>, DirNode>::empty(),
    {
        Subdirs { children: None }
    }

    pub fn is_empty(&self) -> (r: bool)
        ensures
            r == (self@ == Map::<Seq<char>, DirNode>::empty()),
    {
        match &self.children {
            Some(m) => m.is_empty(),
            None => true,
        }
    }

    pub fn contains_key(&self, name: &str) -> (r: bool)
        ensures
            r == self@.contains_key(name@),
    {
        match &self.children {
            Some(m) => m.contains_key(name),
            None => false,
        }
    }

    pub fn get(&self, name: &str) -> (r: Option<&Arc<DirNode>>)
        ensures
            r is Some <==> self@.contains_key(name@),
            r is Some ==> *r->0 == self@[name@],
    {
        match &self.children {
            Some(m) => m.get(name),
            None => None,
        }
    }

    pub fn insert(&mut self, name: String, node: Arc<DirNode>)
        ensures
            final(self)@ == old(self)@.insert(name@, *node),
    {
        let mut m = match self.children.take() {
            Some(m) => m,
            None => StrMap::new(),
        };
        m.insert(name, node);
        self.children = Some(m);
    }

    fn remove(&mut self, name: &str)
        ensures
            final(self)@ == old(self)@.remove(name@),
    {
        match self.children.take() {
            Some(mut m) => {
                m.remove(name);
                self.children = Some(m);
            },
            None => {
                assert(old(self)@.remove(name@) =~= old(self)@);
            },
        }
    }

    fn dup(&self) -> (r: Self)
        ensures
            r@ == self@,
    {
        match &self.children {
            Some(m) => Subdirs { children: Some(m.dup()) },
            None => Subdirs { children: None },
        }
    }
}

impl View for DirNode {
    type V = DirNode;

    open spec fn view(&self) -> DirNode {
        *self
    }
}

impl Default for DirNode {
    fn default() -> (r: Self)
        ensures
            r.files@ == Map::<Seq<char>, FileVersion>::empty(),
            r.subdirs@ == Map::<Seq<char>, DirNode>::empty(),
    {
        DirNode { files: StrMap::new(), subdirs: Subdirs::new() }
    }
}

/// Components of a path, outermost first.
pub type Parts = Seq<Seq<char>>;

/// The node at `p`, if every component of `p` is a directory.
pub open spec fn node_at(n: DirNode, p: Parts) -> Option<DirNode>
    decreases p.len(),
{
    if p.len() == 0 {
        Some(n)
    } else if n.subdirs@.contains_key(p[0]) {
        node_at(n.subdirs@[p[0]], p.drop_first())
    } else {
        None
    }
}

/// The file at `p`.
pub open spec fn file_at(n: DirNode, p: Parts) -> Option<FileVersion>
    decreases p.len(),
{
    if p.len() == 0 {
        None
    } else if p.len() == 1 {
        if n.files@.contains_key(p[0]) {
            Some(n.files@[p[0]])
        } else {
            None
        }
    } else if n.subdirs@.contains_key(p[0]) {
        file_at(n.subdirs@[p[0]], p.drop_first())
    } else {
        None
    }
}

/// Whether there is a directory at `p`.
pub open spec fn dir_at(n: DirNode, p: Parts) -> bool {
    node_at(n, p) is Some
}

/// What a tree holds: the directories, and the files by path.
#[verifier::ext_equal]
pub struct TreeView {
    pub dirs: Set<Parts>,
    pub files: Map<Parts, FileVersion>,
}

impl DirNode {
    /// What the tree under this node holds.
    pub open spec fn tree(self) -> TreeView {
        TreeView {
            dirs: Set::new(|p: Parts| dir_at(self, p)),
            files: Map::new(|p: Parts| file_at(self, p) is Some, |p: Parts| file_at(self, p)->0),
        }
    }
}

/// `x` is `p` or lies under it.
pub open spec fn within(p: Parts, x: Parts) -> bool {
    p.len() <= x.len() && x.take(p.len() as int) == p
}

/// `x` lies strictly above `p`.
pub open spec fn above(x: Parts, p: Parts) -> bool {
    x.len() < p.len() && p.take(x.len() as int) == x
}

impl TreeView {
    /// Puts a file at `p`, which replaces whatever was there; what lies above becomes directories.
    pub open spec fn put_file(self, p: Parts, f: FileVersion) -> TreeView {
        TreeView {
            dirs: Set::new(|x: Parts| (self.dirs.contains(x) && !within(p, x)) || above(x, p)),
            files: Map::new(
                |x: Parts| x == p || (self.files.contains_key(x) && !within(p, x) && !above(x, p)),
                |x: Parts| if x == p { f } else { self.files[x] },
            ),
        }
    }

    /// Takes the file at `p` away. No directory appears or goes.
    pub open spec fn drop_file(self, p: Parts) -> TreeView {
        TreeView {
            dirs: self.dirs,
            files: Map::new(
                |x: Parts|
                    self.files.contains_key(x) && x != p && !(above(x, p) && self.dirs.contains(x)),
                |x: Parts| self.files[x],
            ),
        }
    }

    /// Makes `p` and all above it directories.
    pub open spec fn put_dir(self, p: Parts) -> TreeView {
        TreeView {
            dirs: Set::new(|x: Parts| self.dirs.contains(x) || above(x, p) || x == p),
            files: Map::new(
                |x: Parts| self.files.contains_key(x) && !above(x, p) && x != p,
                |x: Parts| self.files[x],
            ),
        }
    }

    /// Takes `p` and everything under it away.
    pub open spec fn drop_dir(self, p: Parts) -> TreeView {
        TreeView {
            dirs: Set::new(|x: Parts| self.dirs.contains(x) && !within(p, x)),
            files: Map::new(
                |x: Parts|
                    self.files.contains_key(x) && !within(p, x) && !(above(x, p)
                        && self.dirs.contains(x)),
                |x: Parts| self.files[x],
            ),
        }
    }

    /// How many leading components of `p` are directories.
    pub open spec fn reach(self, p: Parts) -> nat
        decreases p.len(),
    {
        if self.dirs.contains(p) {
            p.len()
        } else if p.len() == 0 {
            0
        } else {
            self.reach(p.drop_last())
        }
    }

    /// How many nodes an update at `p` copies: all on the way when it makes what is missing,
    /// else those up to where the way ends.
    pub open spec fn copies(self, p: Parts, makes: bool) -> nat {
        if makes || self.dirs.contains(p.drop_last()) {
            p.len()
        } else {
            self.reach(p.drop_last())
        }
    }
}

proof fn lemma_step(n: DirNode, x: Parts)
    requires
        x.len() > 0,
    ensures
        dir_at(n, x) == (n.subdirs@.contains_key(x[0]) && dir_at(n.subdirs@[x[0]], x.drop_first())),
        x.len() > 1 ==> file_at(n, x) == (if n.subdirs@.contains_key(x[0]) {
            file_at(n.subdirs@[x[0]], x.drop_first())
        } else {
            None
        }),
{
}

proof fn lemma_tail(p: Parts, x: Parts)
    requires
        p.len() > 0,
        x.len() > 0,
    ensures
        within(p, x) == (p[0] == x[0] && within(p.drop_first(), x.drop_first())),
        above(x, p) == (p[0] == x[0] && above(x.drop_first(), p.drop_first())),
        (x == p) == (p[0] == x[0] && x.drop_first() == p.drop_first()),
{
    let p1 = p.drop_first();
    let x1 = x.drop_first();
    if within(p, x) {
        assert(x[0] == x.take(p.len() as int)[0]);
        assert(x1.take(p1.len() as int) =~= x.take(p.len() as int).drop_first());
    }
    if p[0] == x[0] && within(p1, x1) {
        assert forall|i: int| 0 <= i < p.len() implies x.take(p.len() as int)[i] == p[i] by {
            if i > 0 {
                assert(x1.take(p1.len() as int)[i - 1] == p1[i - 1]);
            }
        }
        assert(x.take(p.len() as int) =~= p);
    }
    if above(x, p) {
        assert(p[0] == p.take(x.len() as int)[0]);
        assert(p1.take(x1.len() as int) =~= p.take(x.len() as int).drop_first());
    }
    if p[0] == x[0] && above(x1, p1) {
        assert forall|i: int| 0 <= i < x.len() implies p.take(x.len() as int)[i] == x[i] by {
            if i > 0 {
                assert(p1.take(x1.len() as int)[i - 1] == x1[i - 1]);
            }
        }
        assert(p.take(x.len() as int) =~= x);
    }
    if p[0] == x[0] && x1 == p1 {
        assert(x =~= seq![x[0]] + x1);
        assert(p =~= seq![p[0]] + p1);
    }
}

/// The length of the existing way, one level down.
proof fn lemma_reach_step(n: DirNode, p: Parts)
    requires
        p.len() > 0,
    ensures
        n.tree().reach(p) == (if n.subdirs@.contains_key(p[0]) {
            1 + n.subdirs@[p[0]].tree().reach(p.drop_first())
        } else {
            0
        }),
    decreases p.len(),
{
    lemma_step(n, p);
    let q = p.drop_last();
    let c = n.subdirs@[p[0]];
    if !dir_at(n, p) {
        if p.len() == 1 {
            assert(q =~= Parts::empty());
            assert(n.tree().reach(q) == 0);
            assert(p.drop_first() =~= Parts::empty());
        } else {
            lemma_reach_step(n, q);
            assert(q.drop_first() =~= p.drop_first().drop_last());
        }
    }
}

/// The non-empty pieces of `pieces`, in order.
pub open spec fn nonempty(pieces: Parts) -> Parts
    decreases pieces.len(),
{
    if pieces.len() == 0 {
        Parts::empty()
    } else if pieces.last().len() == 0 {
        nonempty(pieces.drop_last())
    } else {
        nonempty(pieces.drop_last()).push(pieces.last())
    }
}

/// The components of a path: the non-empty pieces between its slashes.
pub open spec fn parts(path: Seq<char>) -> Parts {
    nonempty(text::split(path, '/'))
}

/// Cuts a path into its directories and its last component. `None` for a path without components.
pub fn split_path<'a>(path: &'a str) -> (r: Option<(Vec<&'a str>, &'a str)>)
    ensures
        r is Some <==> parts(path@).len() > 0,
        r matches Some((dirs, name)) ==> parts(path@) == text::views(dirs@).push(name@),
{
    let pieces = text::split_at_each(path, '/');
    let ghost all = text::views(pieces@);
    let mut kept: Vec<&'a str> = Vec::new();
    let mut i: usize = 0;
    assert(text::views(kept@) =~= nonempty(all.take(0)));
    while i < pieces.len()
        invariant
            i <= pieces@.len(),
            all == text::views(pieces@),
            text::views(kept@) == nonempty(all.take(i as int)),
        decreases pieces@.len() - i,
    {
        let piece: &'a str = pieces[i];
        proof {
            assert(all.take(i + 1).drop_last() =~= all.take(i as int));
            assert(all.take(i + 1).last() == piece@);
        }
        if !piece.is_empty() {
            let ghost was = kept@;
            kept.push(piece);
            assert(text::views(kept@) =~= text::views(was).push(piece@));
        }
        i += 1;
    }
    assert(all.take(i as int) =~= all);
    match kept.pop() {
        Some(name) => {
            assert(text::views(kept@).push(name@) =~= parts(path@));
            Some((kept, name))
        },
        None => None,
    }
}

/// What publishing has done so far.
#[derive(Clone, Copy, Debug, PartialEq, Eq, Structural)]
pub struct PublishStats {
    /// Directory nodes copied in all.
    pub nodes_copied: usize,
    /// Directory nodes copied by the last publication.
    pub last_publish_nodes_copied: usize,
    pub publishes: u64,
    pub poisoned: u64,
}

impl Default for PublishStats {
    fn default() -> (r: Self)
        ensures
            r == (PublishStats {
                nodes_copied: 0,
                last_publish_nodes_copied: 0,
                publishes: 0,
                poisoned: 0,
            }),
    {
        PublishStats { nodes_copied: 0, last_publish_nodes_copied: 0, publishes: 0, poisoned: 0 }
    }
}

impl PublishStats {
    /// These figures after `n` more node copies.
    pub open spec fn copied(self, n: nat) -> PublishStats {
        PublishStats { nodes_copied: (self.nodes_copied + n) as usize, ..self }
    }
}

impl DirNode {
    /// The file at `path`.
    pub fn get(&self, path: &str) -> (r: Option<Arc<FileVersion>>)
        ensures
            r is Some <==> file_at(*self, parts(path@)) is Some,
            r is Some ==> *r->0 == file_at(*self, parts(path@))->0,
    {
        match split_path(path) {
            Some((dirs, name)) => self.get_in(dirs.as_slice(), name),
            None => None,
        }
    }

    fn get_in(&self, dirs: &[&str], name: &str) -> (r: Option<Arc<FileVersion>>)
        ensures
            r is Some <==> file_at(*self, text::views(dirs@).push(name@)) is Some,
            r is Some ==> *r->0 == file_at(*self, text::views(dirs@).push(name@))->0,
        decreases dirs@.len(),
    {
        let ghost p = text::views(dirs@).push(name@);
        if dirs.len() == 0 {
            match self.files.get(name) {
                Some(f) => Some(f.clone()),
                None => None,
            }
        } else {
            match self.subdirs.get(dirs[0]) {
                Some(child) => {
                    let rest: &[&str] = vstd::slice::slice_subrange(dirs, 1, dirs.len());
                    assert(text::views(rest@).push(name@) =~= p.drop_first());
                    child.get_in(rest, name)
                },
                None => None,
            }
        }
    }

    /// A new tree in which the directory `parts` exists, or is gone with all under it where
    /// `remove` is set. Only the nodes on the way are copied.
    pub fn with_directory(
        self: &Arc<Self>,
        parts: &[&str],
        remove: bool,
        stats: &mut PublishStats,
    ) -> (r: Arc<DirNode>)
        requires
            old(stats).nodes_copied + parts@.len() <= usize::MAX,
        ensures
            parts@.len() == 0 ==> r.tree() == self.tree() && *final(stats) == *old(stats),
            parts@.len() > 0 ==> {
                &&& r.tree() == (if remove {
                    self.tree().drop_dir(text::views(parts@))
                } else {
                    self.tree().put_dir(text::views(parts@))
                })
                &&& *final(stats) == old(stats).copied(
                    self.tree().copies(text::views(parts@), !remove),
                )
                &&& self.tree().copies(text::views(parts@), !remove) <= parts@.len()
            },
        decreases parts@.len(),
    {
        let ghost p = text::views(parts@);
        if parts.len() == 0 {
            return self.clone();
        }
        let name: &str = parts[0];
        let ghost ds = p.drop_last();
        if remove && parts.len() > 1 && !self.subdirs.contains_key(name) {
            proof {
                lemma_reach_step(self@, ds);
                lemma_step(self@, ds);
                assert(self.tree().drop_dir(p) =~= self.tree()) by {
                    assert forall|x: Parts| self.tree().dirs.contains(x) implies !within(p, x) by {
                        if x.len() > 0 {
                            lemma_tail(p, x);
                            lemma_step(self@, x);
                        }
                    }
                    assert forall|x: Parts| self.tree().files.contains_key(x) implies !within(p, x)
                        && !(above(x, p) && self.tree().dirs.contains(x)) by {
                        if x.len() > 0 {
                            lemma_tail(p, x);
                            lemma_step(self@, x);
                        }
                    }
                    assert(self.tree().drop_dir(p).dirs =~= self.tree().dirs);
                    assert(self.tree().drop_dir(p).files =~= self.tree().files);
                }
            }
            return self.clone();
        }
        stats.nodes_copied = stats.nodes_copied + 1;
        let mut node = DirNode { files: self.files.dup(), subdirs: self.subdirs.dup() };
        node.files.remove(name);
        if parts.len() == 1 {
            assert(p =~= seq![name@]);
            assert(ds =~= Parts::empty());
            if remove {
                node.subdirs.remove(name);
                proof {
                    lemma_leaf_drop_dir(self@, node@, name@);
                }
            } else {
                if !node.subdirs.contains_key(name) {
                    node.subdirs.insert(name.to_owned(), Arc::new(DirNode::default()));
                }
                proof {
                    lemma_leaf_put_dir(self@, node@, name@);
                }
            }
        } else {
            let child = match node.subdirs.get(name) {
                Some(c) => c.clone(),
                None => Arc::new(DirNode::default()),
            };
            let rest: &[&str] = vstd::slice::slice_subrange(parts, 1, parts.len());
            proof {
                assert(text::views(rest@) =~= p.drop_first());
                lemma_reach_step(self@, ds);
                lemma_step(self@, ds);
                assert(p.drop_first().drop_last() =~= ds.drop_first());
            }
            let new_child = child.with_directory(rest, remove, stats);
            node.subdirs.insert(name.to_owned(), new_child);
            proof {
                if remove {
                    lemma_lift_drop_dir(self@, node@, child@, new_child@, p);
                } else {
                    lemma_lift_put_dir(self@, node@, child@, new_child@, p);
                }
            }
        }
        Arc::new(node)
    }

    /// A new tree with the file at `dirs/name` put there, or taken away where `file` is `None`.
    /// Only the nodes on the way are copied.
    pub fn with_file(
        self: &Arc<Self>,
        dirs: &[&str],
        name: &str,
        file: Option<Arc<FileVersion>>,
        stats: &mut PublishStats,
    ) -> (r: Arc<DirNode>)
        requires
            old(stats).nodes_copied + dirs@.len() + 1 <= usize::MAX,
        ensures
            r.tree() == (match file {
                Some(f) => self.tree().put_file(text::views(dirs@).push(name@), *f),
                None => self.tree().drop_file(text::views(dirs@).push(name@)),
            }),
            *final(stats) == old(stats).copied(
                self.tree().copies(text::views(dirs@).push(name@), file is Some),
            ),
            self.tree().copies(text::views(dirs@).push(name@), file is Some) <= dirs@.len() + 1,
        decreases dirs@.len(),
    {
        let ghost p = text::views(dirs@).push(name@);
        let ghost ds = text::views(dirs@);
        assert(p.drop_last() =~= ds);
        if dirs.len() > 0 && file.is_none() && !self.subdirs.contains_key(dirs[0]) {
            proof {
                lemma_reach_step(self@, ds);
                lemma_step(self@, ds);
                assert(self.tree().drop_file(p) =~= self.tree()) by {
                    assert forall|x: Parts| self.tree().files.contains_key(x) implies x != p && !(above(
                        x,
                        p,
                    ) && self.tree().dirs.contains(x)) by {
                        if x == p {
                            lemma_step(self@, p);
                        }
                        if above(x, p) && x.len() > 0 {
                            lemma_tail(p, x);
                            lemma_step(self@, x);
                        }
                    }
                }
            }
            return self.clone();
        }
        stats.nodes_copied = stats.nodes_copied + 1;
        let mut node = DirNode { files: self.files.dup(), subdirs: self.subdirs.dup() };
        if dirs.len() == 0 {
            assert(p =~= seq![name@]);
            match file {
                Some(f) => {
                    node.subdirs.remove(name);
                    node.files.insert(name.to_owned(), f);
                    proof {
                        lemma_leaf_put_file(self@, node@, name@, f@);
                    }
                },
                None => {
                    node.files.remove(name);
                    proof {
                        lemma_leaf_drop_file(self@, node@, name@);
                    }
                },
            }
        } else {
            let d: &str = dirs[0];
            node.files.remove(d);
            let child = match node.subdirs.get(d) {
                Some(c) => c.clone(),
                None => Arc::new(DirNode::default()),
            };
            let rest: &[&str] = vstd::slice::slice_subrange(dirs, 1, dirs.len());
            let ghost p1 = p.drop_first();
            proof {
                assert(text::views(rest@).push(name@) =~= p1);
                assert(text::views(rest@) =~= ds.drop_first());
                lemma_reach_step(self@, ds);
                lemma_step(self@, ds);
                assert(p1.drop_last() =~= ds.drop_first());
            }
            let ghost want = file;
            let new_child = child.with_file(rest, name, file, stats);
            node.subdirs.insert(d.to_owned(), new_child);
            proof {
                match want {
                    Some(f) => {
                        lemma_lift_put_file(self@, node@, child@, new_child@, p, f@);
                    },
                    None => {
                        lemma_lift_drop_file(self@, node@, child@, new_child@, p);
                    },
                }
            }
        }
        Arc::new(node)
    }
}

/// What `n2` holds at `x`, where `n2` is `n1` with a child node `c2` at `d`.
proof fn lemma_child(n1: DirNode, n2: DirNode, c2: DirNode, d: Seq<char>, x: Parts)
    requires
        n2.files@ == n1.files@.remove(d),
        n2.subdirs@ == n1.subdirs@.insert(d, c2),
    ensures
        dir_at(n2, x) == (x.len() == 0 || (if x[0] == d {
            dir_at(c2, x.drop_first())
        } else {
            dir_at(n1, x)
        })),
        file_at(n2, x) == (if x.len() == 0 || x == seq![d] {
            None
        } else if x[0] == d {
            file_at(c2, x.drop_first())
        } else {
            file_at(n1, x)
        }),
{
    if x.len() > 0 {
        lemma_step(n1, x);
        lemma_step(n2, x);
        if x.len() == 1 && x[0] == d {
            assert(x =~= seq![d]);
        }
        if x == seq![d] {
            assert(x[0] == d);
        }
    }
}

/// An empty node holds nothing.
proof fn lemma_empty(n: DirNode, x: Parts)
    requires
        n.files@ == Map::<Seq<char>, FileVersion>::empty(),
        n.subdirs@ == Map::<Seq<char>, DirNode>::empty(),
    ensures
        dir_at(n, x) == (x.len() == 0),
        file_at(n, x) is None,
{
    if x.len() > 0 {
        lemma_step(n, x);
    }
}

/// `c1` is the child of `n1` at `d`, or an empty node where there is none.
spec fn child_or_empty(n1: DirNode, c1: DirNode, d: Seq<char>) -> bool {
    if n1.subdirs@.contains_key(d) {
        c1 == n1.subdirs@[d]
    } else {
        c1.files@ == Map::<Seq<char>, FileVersion>::empty() && c1.subdirs@ == Map::<
            Seq<char>,
            DirNode,
        >::empty()
    }
}

proof fn lemma_lift_put_file(n1: DirNode, n2: DirNode, c1: DirNode, c2: DirNode, p: Parts, f: FileVersion)
    requires
        p.len() > 1,
        n2.files@ == n1.files@.remove(p[0]),
        n2.subdirs@ == n1.subdirs@.insert(p[0], c2),
        child_or_empty(n1, c1, p[0]),
        c2.tree() == c1.tree().put_file(p.drop_first(), f),
    ensures
        n2.tree() == n1.tree().put_file(p, f),
{
    let a = n2.tree();
    let b = n1.tree().put_file(p, f);
    let q = p.drop_first();
    assert forall|x: Parts| #[trigger] a.dirs.contains(x) == b.dirs.contains(x) by {
        lemma_child(n1, n2, c2, p[0], x);
        if x.len() > 0 {
            lemma_tail(p, x);
            lemma_step(n1, x);
            let y = x.drop_first();
            assert(c2.tree().dirs.contains(y) == c1.tree().put_file(q, f).dirs.contains(y));
            assert(q.take(0) =~= Parts::empty());
            if y.len() == 0 {
                assert(y =~= Parts::empty());
            }
            if !n1.subdirs@.contains_key(p[0]) {
                lemma_empty(c1, y);
            }
        } else {
            assert(p.take(0) =~= x);
        }
    }
    assert forall|x: Parts| #[trigger] a.files.contains_key(x) == b.files.contains_key(x) && (
    a.files.contains_key(x) ==> a.files[x] == b.files[x]) by {
        lemma_child(n1, n2, c2, p[0], x);
        if x.len() > 0 {
            lemma_tail(p, x);
            lemma_step(n1, x);
            let y = x.drop_first();
            assert(c2.tree().files.contains_key(y) == c1.tree().put_file(q, f).files.contains_key(y));
            assert(c2.tree().files[y] == c1.tree().put_file(q, f).files[y]);
            assert(q.take(0) =~= Parts::empty());
            if !n1.subdirs@.contains_key(p[0]) {
                lemma_empty(c1, y);
            }
            if x == seq![p[0]] {
                assert(p.take(1) =~= x);
            }
            if x.len() == 1 && x[0] == p[0] {
                assert(x =~= seq![p[0]]);
            }
        }
    }
    assert(a.dirs =~= b.dirs);
    assert(a.files =~= b.files);
}

proof fn lemma_lift_drop_file(n1: DirNode, n2: DirNode, c1: DirNode, c2: DirNode, p: Parts)
    requires
        p.len() > 1,
        n2.files@ == n1.files@.remove(p[0]),
        n2.subdirs@ == n1.subdirs@.insert(p[0], c2),
        n1.subdirs@.contains_key(p[0]),
        c1 == n1.subdirs@[p[0]],
        c2.tree() == c1.tree().drop_file(p.drop_first()),
    ensures
        n2.tree() == n1.tree().drop_file(p),
{
    let a = n2.tree();
    let b = n1.tree().drop_file(p);
    let q = p.drop_first();
    assert forall|x: Parts| #[trigger] a.dirs.contains(x) == b.dirs.contains(x) by {
        lemma_child(n1, n2, c2, p[0], x);
        if x.len() > 0 {
            lemma_step(n1, x);
            let y = x.drop_first();
            assert(c2.tree().dirs.contains(y) == c1.tree().drop_file(q).dirs.contains(y));
            assert(q.take(0) =~= Parts::empty());
            if y.len() == 0 {
                assert(y =~= Parts::empty());
            }
        }
    }
    assert forall|x: Parts| #[trigger] a.files.contains_key(x) == b.files.contains_key(x) && (
    a.files.contains_key(x) ==> a.files[x] == b.files[x]) by {
        lemma_child(n1, n2, c2, p[0], x);
        if x.len() > 0 {
            lemma_tail(p, x);
            lemma_step(n1, x);
            let y = x.drop_first();
            assert(c2.tree().files.contains_key(y) == c1.tree().drop_file(q).files.contains_key(y));
            assert(c2.tree().files[y] == c1.tree().drop_file(q).files[y]);
            assert(q.take(0) =~= Parts::empty());
            if x == seq![p[0]] {
                assert(p.take(1) =~= x);
                assert(y =~= Parts::empty());
            }
            if x.len() == 1 && x[0] == p[0] {
                assert(x =~= seq![p[0]]);
            }
        }
    }
    assert(a.dirs =~= b.dirs);
    assert(a.files =~= b.files);
}

/// What `n2` holds at `x`, where `n2` differs from `n1` at most in the entries named `d`.
proof fn lemma_other(n1: DirNode, n2: DirNode, d: Seq<char>, x: Parts)
    requires
        forall|k: Seq<char>| k != d ==> (#[trigger] n2.files@.contains_key(k) == n1.files@.contains_key(k)),
        forall|k: Seq<char>| k != d && n1.files@.contains_key(k) ==> n2.files@[k] == n1.files@[k],
        forall|k: Seq<char>|
            k != d ==> (#[trigger] n2.subdirs@.contains_key(k) == n1.subdirs@.contains_key(k)),
        forall|k: Seq<char>| k != d && n1.subdirs@.contains_key(k) ==> n2.subdirs@[k] == n1.subdirs@[k],
        x.len() > 0,
        x[0] != d,
    ensures
        dir_at(n2, x) == dir_at(n1, x),
        file_at(n2, x) == file_at(n1, x),
{
    lemma_step(n1, x);
    lemma_step(n2, x);
}

proof fn lemma_leaf_put_file(n1: DirNode, n2: DirNode, d: Seq<char>, f: FileVersion)
    requires
        n2.files@ == n1.files@.insert(d, f),
        n2.subdirs@ == n1.subdirs@.remove(d),
    ensures
        n2.tree() == n1.tree().put_file(seq![d], f),
{
    let p = seq![d];
    let a = n2.tree();
    let b = n1.tree().put_file(p, f);
    assert forall|x: Parts| #[trigger] a.dirs.contains(x) == b.dirs.contains(x) by {
        if x.len() > 0 {
            lemma_tail(p, x);
            lemma_step(n1, x);
            lemma_step(n2, x);
            assert(p.drop_first() =~= Parts::empty());
            assert(x.drop_first().take(0) =~= Parts::empty());
            if x[0] != d {
                lemma_other(n1, n2, d, x);
            }
        } else {
            assert(p.take(0) =~= x);
        }
    }
    assert forall|x: Parts| #[trigger] a.files.contains_key(x) == b.files.contains_key(x) && (
    a.files.contains_key(x) ==> a.files[x] == b.files[x]) by {
        if x.len() > 0 {
            lemma_tail(p, x);
            lemma_step(n1, x);
            lemma_step(n2, x);
            assert(p.drop_first() =~= Parts::empty());
            assert(x.drop_first().take(0) =~= Parts::empty());
            if x[0] != d {
                lemma_other(n1, n2, d, x);
            } else if x.len() == 1 {
                assert(x =~= p);
            }
        }
    }
    assert(a.dirs =~= b.dirs);
    assert(a.files =~= b.files);
}

proof fn lemma_leaf_drop_file(n1: DirNode, n2: DirNode, d: Seq<char>)
    requires
        n2.files@ == n1.files@.remove(d),
        n2.subdirs@ == n1.subdirs@,
    ensures
        n2.tree() == n1.tree().drop_file(seq![d]),
{
    let p = seq![d];
    let a = n2.tree();
    let b = n1.tree().drop_file(p);
    assert forall|x: Parts| #[trigger] a.dirs.contains(x) == b.dirs.contains(x) by {
        if x.len() > 0 {
            lemma_step(n1, x);
            lemma_step(n2, x);
        }
    }
    assert forall|x: Parts| #[trigger] a.files.contains_key(x) == b.files.contains_key(x) && (
    a.files.contains_key(x) ==> a.files[x] == b.files[x]) by {
        if x.len() > 0 {
            lemma_tail(p, x);
            lemma_step(n1, x);
            lemma_step(n2, x);
            if x.len() == 1 && x[0] == d {
                assert(x =~= p);
            }
        }
    }
    assert(a.dirs =~= b.dirs);
    assert(a.files =~= b.files);
}

proof fn lemma_lift_put_dir(n1: DirNode, n2: DirNode, c1: DirNode, c2: DirNode, p: Parts)
    requires
        p.len() > 1,
        n2.files@ == n1.files@.remove(p[0]),
        n2.subdirs@ == n1.subdirs@.insert(p[0], c2),
        child_or_empty(n1, c1, p[0]),
        c2.tree() == c1.tree().put_dir(p.drop_first()),
    ensures
        n2.tree() == n1.tree().put_dir(p),
{
    let a = n2.tree();
    let b = n1.tree().put_dir(p);
    let q = p.drop_first();
    assert forall|x: Parts| #[trigger] a.dirs.contains(x) == b.dirs.contains(x) by {
        lemma_child(n1, n2, c2, p[0], x);
        if x.len() > 0 {
            lemma_tail(p, x);
            lemma_step(n1, x);
            let y = x.drop_first();
            assert(c2.tree().dirs.contains(y) == c1.tree().put_dir(q).dirs.contains(y));
            assert(q.take(0) =~= Parts::empty());
            if y.len() == 0 {
                assert(y =~= Parts::empty());
            }
            if !n1.subdirs@.contains_key(p[0]) {
                lemma_empty(c1, y);
            }
        } else {
            assert(p.take(0) =~= x);
        }
    }
    assert forall|x: Parts| #[trigger] a.files.contains_key(x) == b.files.contains_key(x) && (
    a.files.contains_key(x) ==> a.files[x] == b.files[x]) by {
        lemma_child(n1, n2, c2, p[0], x);
        if x.len() > 0 {
            lemma_tail(p, x);
            lemma_step(n1, x);
            let y = x.drop_first();
            assert(c2.tree().files.contains_key(y) == c1.tree().put_dir(q).files.contains_key(y));
            assert(c2.tree().files[y] == c1.tree().put_dir(q).files[y]);
            assert(q.take(0) =~= Parts::empty());
            if !n1.subdirs@.contains_key(p[0]) {
                lemma_empty(c1, y);
            }
            if x == seq![p[0]] {
                assert(p.take(1) =~= x);
            }
            if x.len() == 1 && x[0] == p[0] {
                assert(x =~= seq![p[0]]);
            }
        }
    }
    assert(a.dirs =~= b.dirs);
    assert(a.files =~= b.files);
}

proof fn lemma_lift_drop_dir(n1: DirNode, n2: DirNode, c1: DirNode, c2: DirNode, p: Parts)
    requires
        p.len() > 1,
        n2.files@ == n1.files@.remove(p[0]),
        n2.subdirs@ == n1.subdirs@.insert(p[0], c2),
        n1.subdirs@.contains_key(p[0]),
        c1 == n1.subdirs@[p[0]],
        c2.tree() == c1.tree().drop_dir(p.drop_first()),
    ensures
        n2.tree() == n1.tree().drop_dir(p),
{
    let a = n2.tree();
    let b = n1.tree().drop_dir(p);
    let q = p.drop_first();
    assert forall|x: Parts| #[trigger] a.dirs.contains(x) == b.dirs.contains(x) by {
        lemma_child(n1, n2, c2, p[0], x);
        if x.len() > 0 {
            lemma_tail(p, x);
            lemma_step(n1, x);
            let y = x.drop_first();
            assert(c2.tree().dirs.contains(y) == c1.tree().drop_dir(q).dirs.contains(y));
            assert(q.take(0) =~= Parts::empty());
            if y.len() == 0 {
                assert(y =~= Parts::empty());
            }
        }
    }
    assert forall|x: Parts| #[trigger] a.files.contains_key(x) == b.files.contains_key(x) && (
    a.files.contains_key(x) ==> a.files[x] == b.files[x]) by {
        lemma_child(n1, n2, c2, p[0], x);
        if x.len() > 0 {
            lemma_tail(p, x);
            lemma_step(n1, x);
            let y = x.drop_first();
            assert(c2.tree().files.contains_key(y) == c1.tree().drop_dir(q).files.contains_key(y));
            assert(c2.tree().files[y] == c1.tree().drop_dir(q).files[y]);
            assert(q.take(0) =~= Parts::empty());
            if x == seq![p[0]] {
                assert(p.take(1) =~= x);
                assert(y =~= Parts::empty());
            }
            if x.len() == 1 && x[0] == p[0] {
                assert(x =~= seq![p[0]]);
            }
        }
    }
    assert(a.dirs =~= b.dirs);
    assert(a.files =~= b.files);
}

proof fn lemma_leaf_put_dir(n1: DirNode, n2: DirNode, d: Seq<char>)
    requires
        n2.files@ == n1.files@.remove(d),
        n2.subdirs@.contains_key(d),
        if n1.subdirs@.contains_key(d) {
            n2.subdirs@ == n1.subdirs@
        } else {
            n2.subdirs@ == n1.subdirs@.insert(d, n2.subdirs@[d])
        },
        child_or_empty(n1, n2.subdirs@[d], d),
    ensures
        n2.tree() == n1.tree().put_dir(seq![d]),
{
    let p = seq![d];
    let a = n2.tree();
    let b = n1.tree().put_dir(p);
    let c = n2.subdirs@[d];
    assert forall|x: Parts| #[trigger] a.dirs.contains(x) == b.dirs.contains(x) by {
        if x.len() > 0 {
            lemma_tail(p, x);
            lemma_step(n1, x);
            lemma_step(n2, x);
            assert(p.drop_first() =~= Parts::empty());
            if x[0] != d {
                lemma_other(n1, n2, d, x);
            } else {
                if !n1.subdirs@.contains_key(d) {
                    lemma_empty(c, x.drop_first());
                }
                if x.len() == 1 {
                    assert(x =~= p);
                }
            }
        }
    }
    assert forall|x: Parts| #[trigger] a.files.contains_key(x) == b.files.contains_key(x) && (
    a.files.contains_key(x) ==> a.files[x] == b.files[x]) by {
        if x.len() > 0 {
            lemma_tail(p, x);
            lemma_step(n1, x);
            lemma_step(n2, x);
            assert(p.drop_first() =~= Parts::empty());
            if x[0] != d {
                lemma_other(n1, n2, d, x);
            } else {
                if !n1.subdirs@.contains_key(d) {
                    lemma_empty(c, x.drop_first());
                }
                if x.len() == 1 {
                    assert(x =~= p);
                }
            }
        }
    }
    assert(a.dirs =~= b.dirs);
    assert(a.files =~= b.files);
}

proof fn lemma_leaf_drop_dir(n1: DirNode, n2: DirNode, d: Seq<char>)
    requires
        n2.files@ == n1.files@.remove(d),
        n2.subdirs@ == n1.subdirs@.remove(d),
    ensures
        n2.tree() == n1.tree().drop_dir(seq![d]),
{
    let p = seq![d];
    let a = n2.tree();
    let b = n1.tree().drop_dir(p);
    assert forall|x: Parts| #[trigger] a.dirs.contains(x) == b.dirs.contains(x) by {
        if x.len() > 0 {
            lemma_tail(p, x);
            lemma_step(n1, x);
            lemma_step(n2, x);
            assert(p.drop_first() =~= Parts::empty());
            assert(x.drop_first().take(0) =~= Parts::empty());
            if x[0] != d {
                lemma_other(n1, n2, d, x);
            }
        }
    }
    assert forall|x: Parts| #[trigger] a.files.contains_key(x) == b.files.contains_key(x) && (
    a.files.contains_key(x) ==> a.files[x] == b.files[x]) by {
        if x.len() > 0 {
            lemma_tail(p, x);
            lemma_step(n1, x);
            lemma_step(n2, x);
            assert(p.drop_first() =~= Parts::empty());
            assert(x.drop_first().take(0) =~= Parts::empty());
            if x[0] != d {
                lemma_other(n1, n2, d, x);
            }
        }
    }
    assert(a.dirs =~= b.dirs);
    assert(a.files =~= b.files);
}

/// The paths of all the files in the tree.
pub open spec fn file_paths(n: DirNode) -> Set<Parts> {
    n.tree().files.dom()
}

/// The files that lie under a subdirectory named in `names`.
spec fn under(n: DirNode, names: Set<Seq<char>>) -> Set<Parts> {
    Set::new(|p: Parts| p.len() > 1 && file_at(n, p) is Some && names.contains(p[0]))
}

/// The files of the node itself.
spec fn here(n: DirNode) -> Set<Parts> {
    Set::new(|p: Parts| p.len() == 1 && file_at(n, p) is Some)
}

proof fn lemma_here(n: DirNode)
    ensures
        here(n).finite(),
        here(n).len() == n.files@.dom().len(),
{
    n.files.lemma_finite();
    let f = |k: Seq<char>| seq![k];
    let y = n.files@.dom().map(f);
    assert(here(n) =~= y) by {
        assert forall|p: Parts| here(n).contains(p) implies y.contains(p) by {
            assert(p =~= f(p[0]));
            assert(n.files@.dom().contains(p[0]));
        }
    }
    n.files@.dom().lemma_map_finite(f);
    assert forall|a: Seq<char>, b: Seq<char>|
        n.files@.dom().contains(a) && n.files@.dom().contains(b) && f(a) == f(b) implies a == b by {
        assert(f(a)[0] == f(b)[0]);
    }
    vstd::set_lib::lemma_map_size(n.files@.dom(), y, f);
}

proof fn lemma_under_one(n: DirNode, d: Seq<char>)
    requires
        n.subdirs@.contains_key(d),
        file_paths(n.subdirs@[d]).finite(),
    ensures
        under(n, set![d]).finite(),
        under(n, set![d]).len() == file_paths(n.subdirs@[d]).len(),
{
    let c = n.subdirs@[d];
    let f = |q: Parts| seq![d] + q;
    let x = file_paths(c);
    let y = x.map(f);
    assert(under(n, set![d]) =~= y) by {
        assert forall|p: Parts| under(n, set![d]).contains(p) implies y.contains(p) by {
            lemma_step(n, p);
            assert(p =~= f(p.drop_first()));
            assert(x.contains(p.drop_first()));
        }
        assert forall|p: Parts| y.contains(p) implies under(n, set![d]).contains(p) by {
            let q = choose|q: Parts| x.contains(q) && f(q) == p;
            assert(file_at(c, q) is Some);
            assert(q.len() > 0);
            assert(p.drop_first() =~= q);
            lemma_step(n, p);
        }
    }
    x.lemma_map_finite(f);
    assert forall|a: Parts, b: Parts| x.contains(a) && x.contains(b) && f(a) == f(b) implies a
        == b by {
        assert(f(a).drop_first() =~= a);
        assert(f(b).drop_first() =~= b);
    }
    vstd::set_lib::lemma_map_size(x, y, f);
}

/// A tree holds finitely many files.
pub proof fn lemma_files_finite(n: DirNode)
    ensures
        file_paths(n).finite(),
    decreases n, 1nat, 0nat,
{
    let names = n.subdirs@.dom();
    match n.subdirs.children {
        Some(m) => {
            m.lemma_finite();
        },
        None => {},
    }
    lemma_under_finite(n, names);
    lemma_here(n);
    assert(file_paths(n) =~= here(n) + under(n, names)) by {
        assert forall|p: Parts| file_paths(n).contains(p) implies (here(n) + under(
            n,
            names,
        )).contains(p) by {
            if p.len() > 1 {
                lemma_step(n, p);
            }
        }
    }
}

proof fn lemma_under_finite(n: DirNode, names: Set<Seq<char>>)
    requires
        names.finite(),
        forall|d: Seq<char>| #[trigger] names.contains(d) ==> n.subdirs@.contains_key(d),
    ensures
        under(n, names).finite(),
    decreases n, 0nat, names.len(),
{
    if names.len() == 0 {
        assert(under(n, names) =~= Set::empty());
    } else {
        let d = names.choose();
        assert(names.contains(d));
        lemma_child_smaller(n, d);
        lemma_files_finite(n.subdirs@[d]);
        lemma_under_one(n, d);
        lemma_under_finite(n, names.remove(d));
        assert(under(n, names) =~= under(n, set![d]) + under(n, names.remove(d)));
    }
}

proof fn lemma_child_smaller(n: DirNode, d: Seq<char>)
    requires
        n.subdirs@.contains_key(d),
    ensures
        decreases_to!(n => n.subdirs@[d]),
{
    match n.subdirs.children {
        Some(m) => {
            let v = m.lemma_value(d);
            assert(decreases_to!(n => n.subdirs));
            assert(decreases_to!(n.subdirs => n.subdirs.children));
            assert(decreases_to!(n.subdirs.children => n.subdirs.children->0));
        },
        None => {},
    }
}

impl DirNode {
    /// The number of files in the tree.
    pub fn count_files(&self) -> (r: usize)
        requires
            file_paths(*self).len() <= usize::MAX,
        ensures
            r == file_paths(*self).len(),
        decreases self,
    {
        let ghost all = file_paths(*self);
        proof {
            lemma_files_finite(*self);
            lemma_here(*self);
            vstd::set_lib::lemma_len_subset(here(*self), all);
        }
        let mut sum: usize = self.files.len();
        match &self.subdirs.children {
            None => {
                assert(all =~= here(*self)) by {
                    assert forall|p: Parts| all.contains(p) implies here(*self).contains(p) by {
                        if p.len() > 1 {
                            lemma_step(*self, p);
                        }
                    }
                }
            },
            Some(m) => {
                let n = m.len();
                let ghost ks = crate::strmap::sorted_keys(m@);
                let mut i: usize = 0;
                assert(under(*self, ks.take(0).to_set()) =~= Set::empty());
                while i < n
                    invariant
                        i <= n == ks.len(),
                        self.subdirs.children == Some(*m),
                        ks == crate::strmap::sorted_keys(m@),
                        ks.no_duplicates(),
                        crate::strmap::listing(ks, m@.dom()),
                        forall|j: int| 0 <= j < n ==> m@.contains_key(#[trigger] ks[j]),
                        all == file_paths(*self),
                        all.finite(),
                        all.len() <= usize::MAX,
                        here(*self).finite(),
                        under(*self, ks.take(i as int).to_set()).finite(),
                        sum == here(*self).len() + under(*self, ks.take(i as int).to_set()).len(),
                    decreases n - i,
                {
                    let child = m.value_at(i);
                    let ghost d = ks[i as int];
                    let ghost a = under(*self, ks.take(i as int).to_set());
                    let ghost b = under(*self, set![d]);
                    proof {
                        lemma_child_smaller(*self, d);
                        lemma_files_finite(self.subdirs@[d]);
                        lemma_under_one(*self, d);
                        vstd::set_lib::lemma_len_subset(b, all);
                        assert(ks.take(i + 1) =~= ks.take(i as int).push(d));
                        assert(ks.take(i + 1).to_set() =~= ks.take(i as int).to_set().insert(d)) by {
                            broadcast use vstd::seq_lib::group_seq_properties;
                        }
                        assert(!ks.take(i as int).to_set().contains(d));
                        assert(under(*self, ks.take(i + 1).to_set()) =~= a + b);
                        assert(a.disjoint(b));
                        vstd::set_lib::lemma_set_disjoint_lens(a, b);
                        assert((here(*self) + (a + b)).subset_of(all));
                        assert(here(*self).disjoint(a + b));
                        vstd::set_lib::lemma_set_disjoint_lens(here(*self), a + b);
                        vstd::set_lib::lemma_len_subset(here(*self) + (a + b), all);
                    }
                    sum = sum + child.count_files();
                    i += 1;
                }
                proof {
                    assert(ks.take(n as int) =~= ks);
                    let u = under(*self, ks.to_set());
                    assert(all =~= here(*self) + u) by {
                        assert forall|p: Parts| all.contains(p) implies (here(*self) + u).contains(
                            p,
                        ) by {
                            if p.len() > 1 {
                                lemma_step(*self, p);
                                assert(ks.contains(p[0]));
                            }
                        }
                    }
                    assert(here(*self).disjoint(u));
                    vstd::set_lib::lemma_set_disjoint_lens(here(*self), u);
                }
            },
        }
        sum
    }
}

} // verus!
