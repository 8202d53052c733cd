//! What a volume holds, what the operations of a plan do to it, and what the plans of changes come
//! to on it.
use vstd::prelude::*;

use crate::daemon::batch;
use crate::daemon::batch::OpView;
use crate::daemon::files::{ServiceView, StatView, UploadView};
use crate::daemon::nodes;
use crate::daemon::nodes::{FileMetadataView, NodeMetaView, XattrView};
use crate::daemon::paths;
use crate::daemon::state::FileRecView;
use crate::text;

verus! {

/// What stands at a path of a volume.
pub enum Content {
    /// A file with the content of this staged file.
    Bytes(Seq<char>),
    /// A symbolic link to this target.
    Link(Seq<char>),
    Directory,
}

/// A node of a volume.
#[verifier::ext_equal]
pub struct Held {
    pub content: Content,
    pub version: Seq<char>,
    pub meta: Option<NodeMetaView>,
    pub attrs: Map<Seq<char>, XattrView>,
    /// Its times are those of the change.
    pub touched: bool,
}

/// What tells that a path was deleted.
pub struct Tombstone {
    pub version: Seq<char>,
    pub directory: bool,
}

#[verifier::ext_equal]
pub struct Volume {
    pub nodes: Map<Seq<char>, Held>,
    pub tombstones: Map<Seq<char>, Tombstone>,
}

/// The path itself or something under it.
pub open spec fn within(p: Seq<char>, top: Seq<char>) -> bool {
    p == top || paths::below(p, top)
}

/// The attributes of a list by their keys; the last of two with one key counts.
pub open spec fn attrs_of(v: Seq<XattrView>) -> Map<Seq<char>, XattrView>
    decreases v.len(),
{
    if v.len() == 0 {
        Map::empty()
    } else {
        attrs_of(v.drop_last()).insert(v.last().key, v.last())
    }
}

/// A node that has just been written.
pub open spec fn fresh(
    content: Content,
    version: Seq<char>,
    metadata: Option<FileMetadataView>,
    touched: bool,
) -> Held {
    Held {
        content,
        version,
        meta: match metadata {
            Some(m) => m.meta,
            None => None,
        },
        attrs: match metadata {
            Some(m) => attrs_of(m.xattrs),
            None => Map::empty(),
        },
        touched,
    }
}

impl Volume {
    /// With one node written anew.
    pub open spec fn put(self, path: Seq<char>, h: Held) -> Volume {
        Volume { nodes: self.nodes.insert(path, h), ..self }
    }

    /// Without a path and what lies under it.
    pub open spec fn without(self, path: Seq<char>) -> Volume {
        Volume {
            nodes: Map::new(
                |p: Seq<char>| self.nodes.contains_key(p) && !within(p, path),
                |p: Seq<char>| self.nodes[p],
            ),
            ..self
        }
    }

    /// With all that is at `from` and under it at `to` and under it.
    pub open spec fn moved(self, from: Seq<char>, to: Seq<char>) -> Volume {
        Volume {
            nodes: Map::new(
                |p: Seq<char>|
                    if within(p, to) {
                        self.nodes.contains_key(from + p.skip(to.len() as int))
                    } else {
                        self.nodes.contains_key(p) && !within(p, from)
                    },
                |p: Seq<char>|
                    if within(p, to) {
                        self.nodes[from + p.skip(to.len() as int)]
                    } else {
                        self.nodes[p]
                    },
            ),
            ..self
        }
    }

    /// The volume after one operation. A node is added only where there is none, and one that is
    /// not there cannot be changed or moved: there the operation fails.
    pub open spec fn step(self, op: OpView) -> Option<Volume> {
        match op {
            OpView::SetXattr { path, attr } => if self.nodes.contains_key(path) {
                let h = self.nodes[path];
                Some(self.put(path, Held { attrs: h.attrs.insert(attr.key, attr), ..h }))
            } else {
                None
            },
            OpView::RemoveXattr { path, key } => if self.nodes.contains_key(path) {
                let h = self.nodes[path];
                Some(self.put(path, Held { attrs: h.attrs.remove(key), ..h }))
            } else {
                None
            },
            OpView::SetVersion { path, version } => if self.nodes.contains_key(path) {
                Some(self.put(path, Held { version, ..self.nodes[path] }))
            } else {
                None
            },
            OpView::RemoveTombstone { path } => Some(
                Volume { tombstones: self.tombstones.remove(path), ..self },
            ),
            OpView::PutDirectory { path, version, metadata, touch } => Some(
                self.put(path, fresh(Content::Directory, version, Some(metadata), touch)),
            ),
            OpView::Discard { path } => Some(self.without(path)),
            OpView::Rename { from, to } => if self.nodes.contains_key(from)
                && !self.nodes.contains_key(to) {
                Some(self.moved(from, to))
            } else {
                None
            },
            OpView::AppendTombstone { path, version, directory } => Some(
                Volume {
                    tombstones: self.tombstones.insert(path, Tombstone { version, directory }),
                    ..self
                },
            ),
            OpView::AddSymlink { path, target, metadata } => if self.nodes.contains_key(path) {
                None
            } else {
                Some(self.put(path, fresh(Content::Link(target), Seq::empty(), metadata, false)))
            },
            OpView::AppendFile { path, spool, version, metadata } => if self.nodes.contains_key(
                path,
            ) {
                None
            } else {
                Some(self.put(path, fresh(Content::Bytes(spool), version, metadata, false)))
            },
        }
    }

    /// The volume after operations in their order.
    pub open spec fn run(self, ops: Seq<OpView>) -> Option<Volume>
        decreases ops.len(),
    {
        if ops.len() == 0 {
            Some(self)
        } else {
            match self.run(ops.drop_last()) {
                Some(v) => v.step(ops.last()),
                None => None,
            }
        }
    }

    /// The two volumes have the same at a path.
    pub open spec fn agrees(self, w: Volume, p: Seq<char>) -> bool {
        &&& self.nodes.contains_key(p) == w.nodes.contains_key(p)
        &&& self.nodes.contains_key(p) ==> self.nodes[p] == w.nodes[p]
        &&& self.tombstones.contains_key(p) == w.tombstones.contains_key(p)
        &&& self.tombstones.contains_key(p) ==> self.tombstones[p] == w.tombstones[p]
    }

    /// Nothing stands at the path or under it.
    pub open spec fn bare(self, path: Seq<char>) -> bool {
        forall|p: Seq<char>| within(p, path) ==> !#[trigger] self.nodes.contains_key(p)
    }
}

/// Operations one after the other.
pub proof fn lemma_run_add(v: Volume, a: Seq<OpView>, b: Seq<OpView>)
    ensures
        v.run(a + b) == (match v.run(a) {
            Some(w) => w.run(b),
            None => None,
        }),
    decreases b.len(),
{
    if b.len() == 0 {
        assert(a + b =~= a);
    } else {
        assert((a + b).drop_last() =~= a + b.drop_last());
        lemma_run_add(v, a, b.drop_last());
    }
}

proof fn lemma_run_one(v: Volume, a: OpView)
    ensures
        v.run(seq![a]) == v.step(a),
{
    assert(seq![a].drop_last() =~= Seq::<OpView>::empty());
    reveal_with_fuel(Volume::run, 2);
}

proof fn lemma_run_first(v: Volume, a: OpView, b: Seq<OpView>)
    ensures
        v.run(seq![a] + b) == (match v.step(a) {
            Some(w) => w.run(b),
            None => None,
        }),
{
    lemma_run_add(v, seq![a], b);
    lemma_run_one(v, a);
}

/// A path of at least one name: it starts with one slash, and none ends it.
pub open spec fn rooted(path: Seq<char>) -> bool {
    path.len() >= 2 && path[0] == '/' && path[1] != '/' && path.last() != '/'
}

/// `q` is a directory above the path.
pub open spec fn above(q: Seq<char>, path: Seq<char>) -> bool {
    q.len() > 0 && paths::below(path, q)
}

proof fn lemma_prefix_same(a: Seq<Seq<char>>, b: Seq<Seq<char>>, n: nat)
    requires
        n <= a.len(),
        n <= b.len(),
        forall|i: int| 0 <= i < n ==> a[i] == b[i],
    ensures
        batch::prefix(a, n) == batch::prefix(b, n),
    decreases n,
{
    if n > 0 {
        lemma_prefix_same(a, b, (n - 1) as nat);
    }
}

proof fn lemma_join(s: Seq<char>)
    ensures
        text::split(s, '/').len() >= 1,
        batch::prefix(text::split(s, '/'), text::split(s, '/').len()) == "/"@ + s,
    decreases s.len(),
{
    let parts = text::split(s, '/');
    reveal_strlit("/");
    if s.len() == 0 {
        reveal_with_fuel(batch::prefix, 2);
        assert(batch::prefix(parts, 1) =~= "/"@ + s);
    } else {
        let r = text::split(s.drop_last(), '/');
        lemma_join(s.drop_last());
        if s.last() == '/' {
            lemma_prefix_same(parts, r, r.len());
            assert(batch::prefix(parts, parts.len()) =~= "/"@ + s);
        } else {
            let n = (r.len() - 1) as nat;
            lemma_prefix_same(parts, r, n);
            assert(parts.len() == r.len());
            assert(parts[n as int] == r[n as int].push(s.last()));
            let a = batch::prefix(r, n) + "/"@;
            assert(batch::prefix(r, r.len()) == a + r[n as int]);
            assert(batch::prefix(parts, parts.len()) == a + parts[n as int]);
            assert(a + parts[n as int] =~= (a + r[n as int]).push(s.last()));
            assert(("/"@ + s.drop_last()).push(s.last()) =~= "/"@ + s);
        }
    }
}

/// Every slash inside a text ends one of the prefixes.
proof fn lemma_cut(s: Seq<char>, i: int) -> (k: nat)
    requires
        0 <= i < s.len(),
        s[i] == '/',
    ensures
        1 <= k < text::split(s, '/').len(),
        batch::prefix(text::split(s, '/'), k) == "/"@ + s.take(i),
    decreases s.len(),
{
    let parts = text::split(s, '/');
    let r = text::split(s.drop_last(), '/');
    lemma_join(s.drop_last());
    if i == s.len() - 1 {
        lemma_prefix_same(parts, r, r.len());
        assert(s.take(i) =~= s.drop_last());
        r.len()
    } else {
        let k = lemma_cut(s.drop_last(), i);
        lemma_prefix_same(parts, r, k);
        assert(s.take(i) =~= s.drop_last().take(i));
        k
    }
}

proof fn lemma_prefix_below(parts: Seq<Seq<char>>, k: nat, n: nat)
    requires
        k < n,
    ensures
        paths::below(batch::prefix(parts, n), batch::prefix(parts, k)),
    decreases n,
{
    reveal_strlit("/");
    let a = batch::prefix(parts, k);
    let b = batch::prefix(parts, n);
    let c = batch::prefix(parts, (n - 1) as nat);
    if k == n - 1 {
        assert(b.take(a.len() as int) =~= a);
        assert(b[a.len() as int] == '/');
    } else {
        lemma_prefix_below(parts, k, (n - 1) as nat);
        assert(b.take(c.len() as int) =~= c);
        assert(b.take(a.len() as int) =~= c.take(a.len() as int));
        assert(b[a.len() as int] == c[a.len() as int]);
    }
}

/// The directories that are recorded for a path are those above it.
proof fn lemma_above(path: Seq<char>, q: Seq<char>)
    requires
        rooted(path),
    ensures
        is_parent(path, (batch::components(path).len() - 1) as nat, q) <==> above(q, path),
        batch::components(path).len() >= 1,
{
    reveal_strlit("/");
    let drop = |c: char| c == '/';
    let s = path.skip(1);
    assert(path.drop_first() =~= s);
    reveal_with_fuel(text::trim_start, 3);
    reveal_with_fuel(text::trim_end, 2);
    assert(text::trim_start(path, drop) =~= s);
    assert(text::trim(path, drop) =~= s);
    let parts = batch::components(path);
    assert(parts == text::split(s, '/'));
    let n = (parts.len() - 1) as nat;
    lemma_join(s);
    assert("/"@ + s =~= path);
    if is_parent(path, n, q) {
        let k = choose|k: nat| 1 <= k <= n && q == batch::prefix(parts, k);
        lemma_prefix_below(parts, k, parts.len());
    }
    if above(q, path) {
        let i = q.len() - 1;
        assert(s[i] == path[q.len() as int]);
        let k = lemma_cut(s, i);
        assert("/"@ + s.take(i) =~= path.take(q.len() as int));
        assert(q == batch::prefix(parts, k));
    }
}

pub open spec fn is_parent(path: Seq<char>, n: nat, q: Seq<char>) -> bool {
    exists|k: nat| 1 <= k <= n && q == #[trigger] batch::prefix(batch::components(path), k)
}

/// What a directory is recorded with: what the service has of it, nothing where it is new.
pub open spec fn known_metadata(
    svc: ServiceView,
    rows: Map<Seq<char>, StatView>,
    q: Seq<char>,
) -> Option<FileMetadataView> {
    match svc.stat(q, batch::row_at(rows, q)) {
        Ok(Some(st)) => nodes::directory_metadata_of(st.metadata),
        _ => None,
    }
}

/// A directory above a changed path.
pub open spec fn recorded(
    svc: ServiceView,
    rows: Map<Seq<char>, StatView>,
    q: Seq<char>,
    version: Seq<char>,
    touched: bool,
) -> Held {
    fresh(Content::Directory, version, known_metadata(svc, rows, q), touched)
}

proof fn lemma_parents(
    svc: ServiceView,
    rows: Map<Seq<char>, StatView>,
    path: Seq<char>,
    version: Seq<char>,
    touch: bool,
    n: nat,
    v: Volume,
)
    requires
        batch::parent_ops(svc, rows, path, version, touch, n) is Ok,
    ensures
        ({
            let ops = batch::parent_ops(svc, rows, path, version, touch, n)->Ok_0;
            &&& v.run(ops) is Some
            &&& forall|q: Seq<char>|
                !is_parent(path, n, q) ==> #[trigger] v.agrees(v.run(ops)->0, q)
            &&& forall|q: Seq<char>| #[trigger]
                is_parent(path, n, q) ==> {
                    let w = v.run(ops)->0;
                    &&& w.nodes.contains_key(q)
                    &&& w.nodes[q] == recorded(
                        svc,
                        rows,
                        q,
                        version,
                        touch && q == paths::parent_path(path),
                    )
                    &&& !w.tombstones.contains_key(q)
                    &&& svc.stat(q, batch::row_at(rows, q)) is Ok
                }
            &&& forall|q: Seq<char>| #[trigger]
                batch::directories_in(ops).contains(q) <==> is_parent(path, n, q)
        }),
    decreases n,
{
    let ops = batch::parent_ops(svc, rows, path, version, touch, n)->Ok_0;
    let parts = batch::components(path);
    if n == 0 {
    } else {
        let m = (n - 1) as nat;
        let parent = batch::prefix(parts, n);
        let was = batch::parent_ops(svc, rows, path, version, touch, m)->Ok_0;
        lemma_parents(svc, rows, path, version, touch, m, v);
        let w0 = v.run(was)->0;
        let t = was.push(OpView::RemoveTombstone { path: parent });
        assert(t.drop_last() =~= was);
        assert(ops.drop_last() =~= t);
        let w1 = v.run(t)->0;
        let w = v.run(ops)->0;
        let metadata = batch::parent_metadata(svc, rows, parent)->Ok_0;
        let h = fresh(
            Content::Directory,
            version,
            Some(metadata),
            touch && parent == paths::parent_path(path),
        );
        assert(w == w1.put(parent, h));
        assert(attrs_of(Seq::empty()) =~= Map::<Seq<char>, XattrView>::empty());
        assert(h == recorded(
            svc,
            rows,
            parent,
            version,
            touch && parent == paths::parent_path(path),
        ));
        assert(batch::directories_in(t) == batch::directories_in(was));
        assert forall|q: Seq<char>| #[trigger] is_parent(path, n, q) <==> is_parent(path, m, q) || q
            == parent by {
            if is_parent(path, n, q) {
                let k = choose|k: nat| 1 <= k <= n && q == #[trigger] batch::prefix(parts, k);
                if k < n {
                    assert(1 <= k <= m);
                }
            }
            if is_parent(path, m, q) {
                let k = choose|k: nat| 1 <= k <= m && q == #[trigger] batch::prefix(parts, k);
                assert(1 <= k <= n);
            }
        }
        assert forall|q: Seq<char>| !is_parent(path, n, q) implies #[trigger] v.agrees(w, q) by {
            assert(!is_parent(path, m, q));
            assert(v.agrees(w0, q));
        }
    }
}

/// A change that writes or removes a node, not one that moves it or sets an attribute.
pub open spec fn of_node(u: UploadView) -> bool {
    u.xattr_change is None && u.rename_from is None
}

/// The service has a node at the path.
pub open spec fn existed(
    svc: ServiceView,
    rows: Map<Seq<char>, StatView>,
    path: Seq<char>,
) -> bool {
    svc.lookup(path, batch::row_at(rows, path)) matches Ok(Some(st)) && !st.deleted
}

/// What a change of a node leaves at its path.
pub open spec fn settled(v: Volume, w: Volume, u: UploadView, version: Seq<char>) -> bool {
    if u.delete {
        &&& w.bare(u.path)
        &&& w.tombstones.contains_key(u.path)
        &&& w.tombstones[u.path] == (Tombstone { version, directory: u.directory })
    } else {
        &&& w.nodes.contains_key(u.path)
        &&& !w.tombstones.contains_key(u.path)
        &&& w.nodes[u.path] == fresh(
            match u.symlink_target {
                Some(target) => Content::Link(target),
                None => if u.directory {
                    Content::Directory
                } else {
                    Content::Bytes(u.spool)
                },
            },
            version,
            u.metadata,
            false,
        )
        &&& forall|p: Seq<char>|
            paths::below(p, u.path) ==> (#[trigger] w.nodes.contains_key(p) <==> u.directory
                && u.symlink_target is None && u.metadata is Some && v.nodes.contains_key(p))
        &&& forall|p: Seq<char>|
            paths::below(p, u.path) && #[trigger] w.nodes.contains_key(p) ==> w.nodes[p]
                == v.nodes[p]
    }
}

proof fn lemma_node(v: Volume, u: UploadView, version: Seq<char>)
    ensures
        v.run(batch::node_ops(u, version)) is Some,
        settled(v, v.run(batch::node_ops(u, version))->0, u, version),
        forall|q: Seq<char>|
            !within(q, u.path) ==> #[trigger] v.agrees(
                v.run(batch::node_ops(u, version))->0,
                q,
            ),
{
    let ops = batch::node_ops(u, version);
    let p = u.path;
    paths::law_below_is_an_order(p, p, p);
    assert(attrs_of(Seq::empty()) =~= Map::<Seq<char>, XattrView>::empty());
    reveal_with_fuel(Volume::run, 5);
    if ops.len() == 2 {
        assert(ops =~= seq![ops[0], ops[1]]);
        lemma_run_first(v, ops[0], seq![ops[1]]);
        lemma_run_one(v.step(ops[0])->0, ops[1]);
        assert(seq![ops[0]] + seq![ops[1]] =~= ops);
    } else if ops.len() == 3 {
        let v1 = v.step(ops[0])->0;
        let v2 = v1.step(ops[1])->0;
        lemma_run_first(v, ops[0], seq![ops[1], ops[2]]);
        lemma_run_first(v1, ops[1], seq![ops[2]]);
        lemma_run_one(v2, ops[2]);
        assert(seq![ops[0]] + seq![ops[1], ops[2]] =~= ops);
        assert(seq![ops[1]] + seq![ops[2]] =~= seq![ops[1], ops[2]]);
    } else {
        let v1 = v.step(ops[0])->0;
        let v2 = v1.step(ops[1])->0;
        let v3 = v2.step(ops[2])->0;
        lemma_run_first(v, ops[0], seq![ops[1], ops[2], ops[3]]);
        lemma_run_first(v1, ops[1], seq![ops[2], ops[3]]);
        lemma_run_first(v2, ops[2], seq![ops[3]]);
        lemma_run_one(v3, ops[3]);
        assert(seq![ops[0]] + seq![ops[1], ops[2], ops[3]] =~= ops);
        assert(seq![ops[1]] + seq![ops[2], ops[3]] =~= seq![ops[1], ops[2], ops[3]]);
        assert(seq![ops[2]] + seq![ops[3]] =~= seq![ops[2], ops[3]]);
    }
}

/// The plan of a change of a node, done on any volume. A file has the staged content at its path,
/// a link its target, a directory is there; each with the version of the change and the metadata
/// that came with it, and with no tombstone. After a removal nothing is at the path or under it,
/// and a tombstone with the version tells so. Nothing under the path is left but what lies in a
/// directory that only gets new metadata.
pub proof fn law_change_is_on_the_volume(
    svc: ServiceView,
    rows: Map<Seq<char>, StatView>,
    u: UploadView,
    uploads: Seq<UploadView>,
    catalog: Seq<FileRecView>,
    version: Seq<char>,
    v: Volume,
)
    requires
        of_node(u),
        rooted(u.path),
        batch::change_plan(svc, rows, u, uploads, catalog, version) is Ok,
    ensures
        ({
            let plan = batch::change_plan(svc, rows, u, uploads, catalog, version)->Ok_0;
            v.run(plan.ops) matches Some(w) && settled(v, w, u, version)
        }),
{
    lemma_change(svc, rows, u, uploads, catalog, version, v);
}

/// The plan of a change of a node leaves every other path as it was, except the directories above
/// the path. Where something is written, or removed that was there, those are directories with the
/// version of the change and the metadata that the service has of them, and without a tombstone;
/// the one that holds the path has new times where a name came or went. The paths that are
/// reported as changed are just these and the path itself.
pub proof fn law_change_leaves_the_rest(
    svc: ServiceView,
    rows: Map<Seq<char>, StatView>,
    u: UploadView,
    uploads: Seq<UploadView>,
    catalog: Seq<FileRecView>,
    version: Seq<char>,
    v: Volume,
)
    requires
        of_node(u),
        rooted(u.path),
        batch::change_plan(svc, rows, u, uploads, catalog, version) is Ok,
    ensures
        ({
            let plan = batch::change_plan(svc, rows, u, uploads, catalog, version)->Ok_0;
            let here = existed(svc, rows, u.path);
            let w = v.run(plan.ops)->0;
            &&& forall|q: Seq<char>|
                !within(q, u.path) && !(above(q, u.path) && (!u.delete || here))
                    ==> #[trigger] v.agrees(w, q)
            &&& forall|q: Seq<char>| #[trigger]
                above(q, u.path) && (!u.delete || here) ==> {
                    &&& w.nodes.contains_key(q)
                    &&& w.nodes[q] == recorded(
                        svc,
                        rows,
                        q,
                        version,
                        u.delete == here && q == paths::parent_path(u.path),
                    )
                    &&& !w.tombstones.contains_key(q)
                }
            &&& forall|q: Seq<char>| #[trigger]
                plan.changed.contains(q) <==> q == u.path || (above(q, u.path) && (!u.delete
                    || here))
        }),
{
    lemma_change(svc, rows, u, uploads, catalog, version, v);
}

proof fn lemma_change(
    svc: ServiceView,
    rows: Map<Seq<char>, StatView>,
    u: UploadView,
    uploads: Seq<UploadView>,
    catalog: Seq<FileRecView>,
    version: Seq<char>,
    v: Volume,
)
    requires
        of_node(u),
        rooted(u.path),
        batch::change_plan(svc, rows, u, uploads, catalog, version) is Ok,
    ensures
        ({
            let plan = batch::change_plan(svc, rows, u, uploads, catalog, version)->Ok_0;
            let here = existed(svc, rows, u.path);
            let w = v.run(plan.ops)->0;
            &&& v.run(plan.ops) is Some
            &&& settled(v, w, u, version)
            &&& forall|q: Seq<char>|
                !within(q, u.path) && !(above(q, u.path) && (!u.delete || here))
                    ==> #[trigger] v.agrees(w, q)
            &&& forall|q: Seq<char>| #[trigger]
                above(q, u.path) && (!u.delete || here) ==> {
                    &&& w.nodes.contains_key(q)
                    &&& w.nodes[q] == recorded(
                        svc,
                        rows,
                        q,
                        version,
                        u.delete == here && q == paths::parent_path(u.path),
                    )
                    &&& !w.tombstones.contains_key(q)
                }
            &&& forall|q: Seq<char>| #[trigger]
                plan.changed.contains(q) <==> q == u.path || (above(q, u.path) && (!u.delete
                    || here))
        }),
{
    let plan = batch::change_plan(svc, rows, u, uploads, catalog, version)->Ok_0;
    let here = existed(svc, rows, u.path);
    let touch = u.delete == here;
    let n = (batch::components(u.path).len() - 1) as nat;
    let tail = batch::node_ops(u, version);
    assert forall|q: Seq<char>| #[trigger] is_parent(u.path, n, q) <==> above(q, u.path) by {
        lemma_above(u.path, q);
    }
    assert forall|q: Seq<char>| #[trigger] above(q, u.path) implies !within(q, u.path)
        && is_parent(u.path, n, q) by {
        paths::law_below_is_an_order(u.path, q, u.path);
        lemma_above(u.path, q);
    }
    if !u.delete || here {
        let head = batch::parent_ops(svc, rows, u.path, version, touch, n)->Ok_0;
        lemma_parents(svc, rows, u.path, version, touch, n, v);
        let m = v.run(head)->0;
        lemma_run_add(v, head, tail);
        lemma_node(m, u, version);
        let w = m.run(tail)->0;
        assert(plan.ops == head + tail);
        assert forall|p: Seq<char>| paths::below(p, u.path) implies (#[trigger] w.nodes.contains_key(p)
            <==> u.directory && u.symlink_target is None && u.metadata is Some
            && v.nodes.contains_key(p)) || u.delete by {
            if above(p, u.path) {
                paths::law_below_is_an_order(p, u.path, p);
            }
            assert(v.agrees(m, p));
        }
        assert forall|p: Seq<char>| paths::below(p, u.path) && #[trigger] w.nodes.contains_key(
            p,
        ) implies w.nodes[p] == v.nodes[p] || u.delete by {
            if above(p, u.path) {
                paths::law_below_is_an_order(p, u.path, p);
            }
            assert(v.agrees(m, p));
        }
        assert forall|q: Seq<char>| !within(q, u.path) && !above(q, u.path) implies #[trigger] v.agrees(
            w,
            q,
        ) by {
            assert(v.agrees(m, q));
            assert(m.agrees(w, q));
        }
        assert forall|q: Seq<char>| #[trigger] above(q, u.path) implies {
            &&& w.nodes.contains_key(q)
            &&& w.nodes[q] == recorded(
                svc,
                rows,
                q,
                version,
                touch && q == paths::parent_path(u.path),
            )
            &&& !w.tombstones.contains_key(q)
        } by {
            assert(m.agrees(w, q));
        }
    } else {
        lemma_node(v, u, version);
    }
}

/// The rest of a path under another: nothing, or a slash and more.
pub open spec fn tail_of_path(rest: Seq<char>) -> bool {
    rest.len() == 0 || rest[0] == '/'
}

proof fn lemma_under(top: Seq<char>, rest: Seq<char>)
    requires
        tail_of_path(rest),
    ensures
        within(top + rest, top),
        (top + rest).skip(top.len() as int) == rest,
        rest.len() > 0 ==> paths::below(top + rest, top),
{
    assert((top + rest).take(top.len() as int) =~= top);
    assert((top + rest).skip(top.len() as int) =~= rest);
    if rest.len() == 0 {
        assert(top + rest =~= top);
    }
}

proof fn lemma_related(p: Seq<char>, a: Seq<char>, b: Seq<char>)
    requires
        !paths::related(a, b),
        a.len() > 0,
        b.len() > 0,
    ensures
        !(within(p, a) && within(p, b)),
        above(p, a) ==> !within(p, b) && !within(p, a),
{
    paths::law_below_is_an_order(a, p, a);
    paths::law_below_is_an_order(a, p, b);
    if within(p, a) && within(p, b) {
        if a.len() < b.len() {
            assert(b.take(a.len() as int) =~= p.take(b.len() as int).take(a.len() as int));
            assert(p.take(b.len() as int).take(a.len() as int) =~= p.take(a.len() as int));
            assert(p.take(b.len() as int)[a.len() as int] == b[a.len() as int]);
            assert(p == a || p[a.len() as int] == '/');
            assert(paths::below(b, a));
        } else if b.len() < a.len() {
            assert(a.take(b.len() as int) =~= p.take(a.len() as int).take(b.len() as int));
            assert(p.take(a.len() as int).take(b.len() as int) =~= p.take(b.len() as int));
            assert(p.take(a.len() as int)[b.len() as int] == a[b.len() as int]);
            assert(paths::below(a, b));
        } else {
            assert(p.take(p.len() as int) =~= p);
            assert(a == b);
        }
    }
}

/// The plan of a rename, done on a volume that has the source. What was at the source and under it
/// is at the target and under it, unchanged but for the version of the target itself, and nothing
/// that was at the target before. Nothing is left at the source. The directories above both are
/// recorded with the version of the change, and all other paths are as they were. Just the target
/// and those directories are reported as changed.
pub proof fn law_rename_moves_the_tree(
    svc: ServiceView,
    rows: Map<Seq<char>, StatView>,
    u: UploadView,
    from: Seq<char>,
    uploads: Seq<UploadView>,
    catalog: Seq<FileRecView>,
    version: Seq<char>,
    v: Volume,
)
    requires
        u.xattr_change is None,
        u.rename_from == Some((from, true)),
        rooted(from),
        rooted(u.path),
        !paths::related(from, u.path),
        v.nodes.contains_key(from),
        batch::change_plan(svc, rows, u, uploads, catalog, version) is Ok,
    ensures
        ({
            let plan = batch::change_plan(svc, rows, u, uploads, catalog, version)->Ok_0;
            let w = v.run(plan.ops)->0;
            &&& v.run(plan.ops) is Some
            &&& forall|rest: Seq<char>| #[trigger]
                tail_of_path(rest) ==> {
                    &&& w.nodes.contains_key(u.path + rest) <==> v.nodes.contains_key(from + rest)
                    &&& rest.len() > 0 && v.nodes.contains_key(from + rest) ==> w.nodes[u.path
                        + rest] == v.nodes[from + rest]
                }
            &&& w.nodes[u.path] == (Held { version, ..v.nodes[from] })
            &&& !w.tombstones.contains_key(u.path)
            &&& w.bare(from)
            &&& forall|q: Seq<char>|
                !within(q, from) && !within(q, u.path) && !above(q, from) && !above(q, u.path)
                    ==> #[trigger] v.agrees(w, q)
            &&& forall|q: Seq<char>|
                above(q, from) || above(q, u.path) ==> {
                    &&& #[trigger] w.nodes.contains_key(q)
                    &&& w.nodes[q].content is Directory
                    &&& w.nodes[q].version == version
                    &&& !w.tombstones.contains_key(q)
                }
            &&& forall|q: Seq<char>| #[trigger]
                plan.changed.contains(q) <==> q == u.path || above(q, from) || above(q, u.path)
        }),
{
    let plan = batch::change_plan(svc, rows, u, uploads, catalog, version)->Ok_0;
    let to = u.path;
    let n = (batch::components(from).len() - 1) as nat;
    let k = (batch::components(to).len() - 1) as nat;
    let a = batch::parent_ops(svc, rows, from, version, true, n)->Ok_0;
    let b = batch::parent_ops(svc, rows, to, version, true, k)->Ok_0;
    let d = OpView::Discard { path: to };
    let r = OpView::Rename { from, to };
    let x = OpView::RemoveTombstone { path: to };
    let s = OpView::SetVersion { path: to, version };
    assert(plan.ops == a + b + seq![d, r] + seq![x, s]);
    assert(plan.ops =~= a + (b + (seq![d] + (seq![r] + (seq![x] + seq![s])))));
    assert forall|q: Seq<char>| #[trigger] is_parent(from, n, q) <==> above(q, from) by {
        lemma_above(from, q);
    }
    assert forall|q: Seq<char>| #[trigger] is_parent(to, k, q) <==> above(q, to) by {
        lemma_above(to, q);
    }
    lemma_parents(svc, rows, from, version, true, n, v);
    let v1 = v.run(a)->0;
    lemma_parents(svc, rows, to, version, true, k, v1);
    let v2 = v1.run(b)->0;
    let v3 = v2.step(d)->0;
    let v4 = v3.step(r)->0;
    let v5 = v4.step(x)->0;
    lemma_run_add(v, a, b + (seq![d] + (seq![r] + (seq![x] + seq![s]))));
    lemma_run_add(v1, b, seq![d] + (seq![r] + (seq![x] + seq![s])));
    lemma_run_first(v2, d, seq![r] + (seq![x] + seq![s]));
    lemma_run_first(v3, r, seq![x] + seq![s]);
    lemma_run_first(v4, x, seq![s]);
    lemma_run_one(v5, s);
    assert forall|q: Seq<char>| within(q, from) || within(q, to) implies #[trigger] v.agrees(
        v2,
        q,
    ) by {
        lemma_related(q, from, to);
        lemma_related(q, to, from);
        assert(!is_parent(from, n, q));
        assert(!is_parent(to, k, q));
        assert(v.agrees(v1, q));
        assert(v1.agrees(v2, q));
    }
    assert(v.agrees(v2, from));
    lemma_related(from, from, to);
    lemma_related(to, from, to);
    assert(v3.nodes.contains_key(from) && !v3.nodes.contains_key(to));
    assert forall|rest: Seq<char>| #[trigger] tail_of_path(rest) implies {
        &&& v4.nodes.contains_key(to + rest) <==> v.nodes.contains_key(from + rest)
        &&& v.nodes.contains_key(from + rest) ==> v4.nodes[to + rest] == v.nodes[from + rest]
    } by {
        lemma_under(to, rest);
        lemma_under(from, rest);
        lemma_related(from + rest, from, to);
        assert(v.agrees(v2, from + rest));
    }
    assert(tail_of_path(Seq::<char>::empty()));
    assert(to + Seq::<char>::empty() =~= to);
    assert(from + Seq::<char>::empty() =~= from);
    let w = v5.step(s)->0;
    assert(v.run(plan.ops) == Some(w));
    assert forall|rest: Seq<char>| #[trigger] tail_of_path(rest) implies {
        &&& w.nodes.contains_key(to + rest) <==> v.nodes.contains_key(from + rest)
        &&& rest.len() > 0 && v.nodes.contains_key(from + rest) ==> w.nodes[to + rest]
            == v.nodes[from + rest]
    } by {
        lemma_under(to, rest);
        if rest.len() > 0 {
            assert((to + rest).len() != to.len());
        }
    }
    assert forall|p: Seq<char>| within(p, from) implies !#[trigger] w.nodes.contains_key(p) by {
        lemma_related(p, from, to);
    }
    assert forall|q: Seq<char>|
        !within(q, from) && !within(q, to) && !above(q, from) && !above(
            q,
            to,
        ) implies #[trigger] v.agrees(w, q) by {
        assert(!is_parent(from, n, q));
        assert(!is_parent(to, k, q));
        assert(v.agrees(v1, q));
        assert(v1.agrees(v2, q));
    }
    assert forall|q: Seq<char>| above(q, from) || above(q, to) implies {
        &&& #[trigger] w.nodes.contains_key(q)
        &&& w.nodes[q].content is Directory
        &&& w.nodes[q].version == version
        &&& !w.tombstones.contains_key(q)
    } by {
        lemma_related(q, from, to);
        lemma_related(q, to, from);
        if above(q, to) {
            assert(is_parent(to, k, q));
        } else {
            assert(is_parent(from, n, q));
            assert(!is_parent(to, k, q));
            assert(v1.agrees(v2, q));
        }
    }
}

/// A rename is planned only where the live records at its source and under it are just those that
/// the batch names: nothing else is moved along, and nothing named is missing.
pub proof fn law_rename_moves_what_is_named(
    svc: ServiceView,
    rows: Map<Seq<char>, StatView>,
    u: UploadView,
    from: Seq<char>,
    uploads: Seq<UploadView>,
    catalog: Seq<FileRecView>,
    version: Seq<char>,
    p: Seq<char>,
)
    requires
        u.xattr_change is None,
        u.rename_from == Some((from, true)),
        batch::change_plan(svc, rows, u, uploads, catalog, version) is Ok,
    ensures
        (within(p, from) && exists|i: int|
            0 <= i < catalog.len() && (#[trigger] catalog[i]).path == p && !catalog[i].deleted) <==> (
        exists|i: int|
            0 <= i < uploads.len() && (#[trigger] uploads[i]).task == u.task
                && uploads[i].rename_from is Some && (uploads[i].rename_from->0).0 == p),
{
    reveal_strlit("/");
    let live = batch::live_below(catalog, from);
    assert(live.contains(p) <==> batch::named_sources(uploads, u.task).contains(p));
    let f = from + "/"@;
    assert(text::has_prefix(p, f) <==> paths::below(p, from)) by {
        if text::has_prefix(p, f) {
            assert(p.take(f.len() as int)[from.len() as int] == '/');
            assert(p.take(from.len() as int) =~= f.take(from.len() as int));
            assert(f.take(from.len() as int) =~= from);
        }
        if paths::below(p, from) {
            assert(p.take(f.len() as int) =~= f);
        }
    }
    if within(p, from) && exists|i: int|
        0 <= i < catalog.len() && (#[trigger] catalog[i]).path == p && !catalog[i].deleted {
        let i = choose|i: int|
            0 <= i < catalog.len() && (#[trigger] catalog[i]).path == p && !catalog[i].deleted;
        assert(!catalog[i].deleted);
        assert(live.contains(p));
    }
}

/// The plan for a node that was moved along with its directory, done on a volume that has it: it
/// has the version of the change and no tombstone; else nothing changes.
pub proof fn law_moved_along_is_published(
    svc: ServiceView,
    rows: Map<Seq<char>, StatView>,
    u: UploadView,
    from: Seq<char>,
    uploads: Seq<UploadView>,
    catalog: Seq<FileRecView>,
    version: Seq<char>,
    v: Volume,
)
    requires
        u.xattr_change is None,
        u.rename_from == Some((from, false)),
        v.nodes.contains_key(u.path),
    ensures
        batch::change_plan(svc, rows, u, uploads, catalog, version) matches Ok(plan) && {
            &&& v.run(plan.ops) == Some(
                Volume {
                    nodes: v.nodes.insert(u.path, Held { version, ..v.nodes[u.path] }),
                    tombstones: v.tombstones.remove(u.path),
                },
            )
            &&& plan.changed == set![u.path]
        },
{
    let x = OpView::RemoveTombstone { path: u.path };
    let s = OpView::SetVersion { path: u.path, version };
    assert(seq![x, s] =~= seq![x] + seq![s]);
    lemma_run_first(v, x, seq![s]);
    lemma_run_one(v.step(x)->0, s);
}

/// The plan of an attribute change, done on a volume that has the node: the attribute has the new
/// value, or is gone, and the node has the version of the change. Its content, its other
/// attributes and all other paths are as they were.
pub proof fn law_attribute_is_on_the_volume(
    svc: ServiceView,
    rows: Map<Seq<char>, StatView>,
    u: UploadView,
    uploads: Seq<UploadView>,
    catalog: Seq<FileRecView>,
    version: Seq<char>,
    v: Volume,
)
    requires
        u.xattr_change is Some,
        v.nodes.contains_key(u.path),
    ensures
        ({
            let (key, attr) = u.xattr_change->0;
            let plan = batch::change_plan(svc, rows, u, uploads, catalog, version)->Ok_0;
            let w = v.run(plan.ops)->0;
            let h = v.nodes[u.path];
            let g = w.nodes[u.path];
            &&& batch::change_plan(svc, rows, u, uploads, catalog, version) is Ok
            &&& v.run(plan.ops) is Some
            &&& w.nodes.contains_key(u.path)
            &&& g == (Held { version, attrs: g.attrs, ..h })
            &&& match attr {
                Some(a) => {
                    &&& g.attrs.contains_key(a.key) && g.attrs[a.key] == a
                    &&& g.attrs.remove(a.key) == h.attrs.remove(a.key)
                },
                None => !g.attrs.contains_key(key) && g.attrs == h.attrs.remove(key),
            }
            &&& w.tombstones == v.tombstones
            &&& w.nodes.remove(u.path) == v.nodes.remove(u.path)
            &&& plan.changed == set![u.path]
        }),
{
    let (key, attr) = u.xattr_change->0;
    let x = match attr {
        Some(a) => OpView::SetXattr { path: u.path, attr: a },
        None => OpView::RemoveXattr { path: u.path, key },
    };
    let s = OpView::SetVersion { path: u.path, version };
    assert(seq![x, s] =~= seq![x] + seq![s]);
    lemma_run_first(v, x, seq![s]);
    lemma_run_one(v.step(x)->0, s);
    let plan = batch::change_plan(svc, rows, u, uploads, catalog, version)->Ok_0;
    assert(plan.ops =~= seq![x, s]);
    let w = v.run(plan.ops)->0;
    assert(w.nodes.remove(u.path) =~= v.nodes.remove(u.path));
    match attr {
        Some(a) => {
            assert(w.nodes[u.path].attrs.remove(a.key) =~= v.nodes[u.path].attrs.remove(a.key));
        },
        None => {},
    }
}

} // verus!
