//! Bringing a batch of changes to tape: what is done on the volume for each of them, and what is
//! reported of the commit.
use vstd::prelude::*;

use crate::daemon::files;
use crate::daemon::files::{FileService, ServiceView, Stat, StatView, Upload, UploadView};
use crate::daemon::node::{EventView, ExecEvent};
use crate::daemon::nodes;
use crate::daemon::nodes::{
    FileMetadata, FileMetadataView, NodeMeta, Xattr, XattrView,
};
use crate::daemon::opening;
use crate::daemon::paths;
use crate::daemon::state;
use crate::daemon::state::{FileRec, FileRecView};
use crate::error::{TapeError, TapeErrorView};
use crate::strmap::{Dup, StrMap, StrSet};
use crate::text;

verus! {

/// Something that is done on a volume.
#[derive(Debug)]
pub enum VolumeOp {
    SetXattr { path: String, attr: Xattr },
    RemoveXattr { path: String, key: String },
    /// The record of the path gets this version.
    SetVersion { path: String, version: String },
    /// The tombstone of a path goes.
    RemoveTombstone { path: String },
    /// A directory is recorded; `touch` gives it the time of the change.
    PutDirectory { path: String, version: String, metadata: FileMetadata, touch: bool },
    /// What the volume has at the path goes.
    Discard { path: String },
    Rename { from: String, to: String },
    /// A tombstone tells that the path was deleted.
    AppendTombstone { path: String, version: String, directory: bool },
    AddSymlink { path: String, target: String, metadata: Option<FileMetadata> },
    /// The staged content is written.
    AppendFile { path: String, spool: String, version: String, metadata: Option<FileMetadata> },
}

#[verifier::ext_equal]
pub enum OpView {
    SetXattr { path: Seq<char>, attr: XattrView },
    RemoveXattr { path: Seq<char>, key: Seq<char> },
    SetVersion { path: Seq<char>, version: Seq<char> },
    RemoveTombstone { path: Seq<char> },
    PutDirectory {
        path: Seq<char>,
        version: Seq<char>,
        metadata: FileMetadataView,
        touch: bool,
    },
    Discard { path: Seq<char> },
    Rename { from: Seq<char>, to: Seq<char> },
    AppendTombstone { path: Seq<char>, version: Seq<char>, directory: bool },
    AddSymlink { path: Seq<char>, target: Seq<char>, metadata: Option<FileMetadataView> },
    AppendFile {
        path: Seq<char>,
        spool: Seq<char>,
        version: Seq<char>,
        metadata: Option<FileMetadataView>,
    },
}

pub open spec fn metadata_view(m: Option<FileMetadata>) -> Option<FileMetadataView> {
    match m {
        Some(m) => Some(m@),
        None => None,
    }
}

impl View for VolumeOp {
    type V = OpView;

    open spec fn view(&self) -> OpView {
        match *self {
            VolumeOp::SetXattr { path, attr } => OpView::SetXattr { path: path@, attr: attr@ },
            VolumeOp::RemoveXattr { path, key } => OpView::RemoveXattr { path: path@, key: key@ },
            VolumeOp::SetVersion { path, version } => {
                OpView::SetVersion { path: path@, version: version@ }
            },
            VolumeOp::RemoveTombstone { path } => OpView::RemoveTombstone { path: path@ },
            VolumeOp::PutDirectory { path, version, metadata, touch } => OpView::PutDirectory {
                path: path@,
                version: version@,
                metadata: metadata@,
                touch,
            },
            VolumeOp::Discard { path } => OpView::Discard { path: path@ },
            VolumeOp::Rename { from, to } => OpView::Rename { from: from@, to: to@ },
            VolumeOp::AppendTombstone { path, version, directory } => OpView::AppendTombstone {
                path: path@,
                version: version@,
                directory,
            },
            VolumeOp::AddSymlink { path, target, metadata } => OpView::AddSymlink {
                path: path@,
                target: target@,
                metadata: metadata_view(metadata),
            },
            VolumeOp::AppendFile { path, spool, version, metadata } => OpView::AppendFile {
                path: path@,
                spool: spool@,
                version: version@,
                metadata: metadata_view(metadata),
            },
        }
    }
}

pub open spec fn op_views(v: Seq<VolumeOp>) -> Seq<OpView> {
    v.map_values(|o: VolumeOp| o@)
}

/// What the directory has at a path.
pub open spec fn row_at(rows: Map<Seq<char>, StatView>, path: Seq<char>) -> Option<StatView> {
    if rows.contains_key(path) {
        Some(rows[path])
    } else {
        None
    }
}

fn row_of(rows: &StrMap<Stat>, path: &str) -> (r: Option<Stat>)
    ensures
        files::stat_view(r) == row_at(rows@, path@),
{
    match rows.get(path) {
        Some(s) => Some(s.dup()),
        None => None,
    }
}

/// The components of a path, between the slashes at its ends.
pub open spec fn components(path: Seq<char>) -> Seq<Seq<char>> {
    text::split(text::trim(path, |c: char| c == '/'), '/')
}

/// The path that the first `n` components make.
pub open spec fn prefix(parts: Seq<Seq<char>>, n: nat) -> Seq<char>
    decreases n,
{
    if n == 0 {
        Seq::empty()
    } else {
        prefix(parts, (n - 1) as nat) + "/"@ + parts[n - 1]
    }
}

/// The metadata with which the directory at `parent` is recorded: what it has, or nothing where it
/// is new. Anything else than a directory there is an error.
pub open spec fn parent_metadata(
    svc: ServiceView,
    rows: Map<Seq<char>, StatView>,
    parent: Seq<char>,
) -> Result<FileMetadataView, TapeErrorView> {
    match svc.stat(parent, row_at(rows, parent)) {
        Err(e) => Err(TapeErrorView::Ltfs(e.message())),
        Ok(None) => Ok(FileMetadataView { meta: None, xattrs: Seq::empty() }),
        Ok(Some(st)) => if nodes::dir_kind(st.metadata) {
            match nodes::directory_metadata_of(st.metadata) {
                Some(m) => Ok(m),
                None => Err(
                    TapeErrorView::Ltfs(
                        paths::ServiceErrorView::Io(
                            "目录属性损坏，拒绝有损搬迁"@,
                        ).message(),
                    ),
                ),
            }
        } else {
            Err(TapeErrorView::Ltfs("父路径 "@ + parent + " 不是目录"@))
        },
    }
}

/// What is done so that the first `n` directories above a path are recorded.
pub open spec fn parent_ops(
    svc: ServiceView,
    rows: Map<Seq<char>, StatView>,
    path: Seq<char>,
    version: Seq<char>,
    touch: bool,
    n: nat,
) -> Result<Seq<OpView>, TapeErrorView>
    decreases n,
{
    if n == 0 {
        Ok(Seq::empty())
    } else {
        let parent = prefix(components(path), n);
        match parent_ops(svc, rows, path, version, touch, (n - 1) as nat) {
            Err(e) => Err(e),
            Ok(ops) => match parent_metadata(svc, rows, parent) {
                Err(e) => Err(e),
                Ok(metadata) => Ok(
                    ops.push(OpView::RemoveTombstone { path: parent }).push(
                        OpView::PutDirectory {
                            path: parent,
                            version,
                            metadata,
                            touch: touch && parent == paths::parent_path(path),
                        },
                    ),
                ),
            },
        }
    }
}

/// What is done so that all directories above a path are recorded.
pub open spec fn all_parent_ops(
    svc: ServiceView,
    rows: Map<Seq<char>, StatView>,
    path: Seq<char>,
    version: Seq<char>,
    touch: bool,
) -> Result<Seq<OpView>, TapeErrorView> {
    parent_ops(svc, rows, path, version, touch, (components(path).len() - 1) as nat)
}

/// The paths whose records change by these operations on directories.
pub open spec fn directories_in(ops: Seq<OpView>) -> Set<Seq<char>>
    decreases ops.len(),
{
    if ops.len() == 0 {
        Set::empty()
    } else {
        match ops.last() {
            OpView::PutDirectory { path, .. } => directories_in(ops.drop_last()).insert(path),
            _ => directories_in(ops.drop_last()),
        }
    }
}

fn split_components(path: &str) -> (r: Vec<String>)
    ensures
        text::string_views(r@) == components(path@),
        r@.len() >= 1,
{
    let v = text::chars(path);
    let n = v.len();
    let mut marks: Vec<bool> = Vec::new();
    let ghost f = |c: char| c == '/';
    let mut i: usize = 0;
    while i < n
        invariant
            i <= n == v@.len(),
            v@ == path@,
            f == (|c: char| c == '/'),
            marks@.len() == i,
            forall|j: int| 0 <= j < i ==> #[trigger] marks@[j] == f(path@[j]),
        decreases n - i,
    {
        marks.push(v[i] == '/');
        i += 1;
    }
    let t = text::trim_marked(path, &marks, Ghost(f));
    let parts = text::split_at_each(t.as_str(), '/');
    let mut out: Vec<String> = Vec::new();
    let ghost all = text::views(parts@);
    proof {
        text::lemma_split_len(t@, '/');
        assert(all.len() == parts@.len());
    }
    let mut i: usize = 0;
    while i < parts.len()
        invariant
            i <= parts@.len(),
            all == text::views(parts@),
            text::string_views(out@) == all.take(i as int),
        decreases parts@.len() - i,
    {
        let ghost was = out@;
        let s = parts[i].to_owned();
        out.push(s);
        assert(text::string_views(out@) =~= text::string_views(was).push(s@));
        assert(all.take(i + 1) =~= all.take(i as int).push(parts@[i as int]@));
        i += 1;
    }
    assert(all.take(i as int) =~= all);
    assert(text::string_views(out@).len() == out@.len());
    out
}

/// A copy of metadata.
pub fn dup_metadata(m: &FileMetadata) -> (r: FileMetadata)
    ensures
        r@ == m@,
{
    let meta = match &m.meta {
        Some(x) => Some(
            NodeMeta {
                readonly: x.readonly,
                creation_time: x.creation_time.clone(),
                change_time: x.change_time.clone(),
                modify_time: x.modify_time.clone(),
                access_time: x.access_time.clone(),
                backup_time: x.backup_time.clone(),
            },
        ),
        None => None,
    };
    FileMetadata { meta, xattrs: nodes::dup_xattrs(&m.xattrs) }
}

fn dup_optional(m: &Option<FileMetadata>) -> (r: Option<FileMetadata>)
    ensures
        metadata_view(r) == metadata_view(*m),
{
    match m {
        Some(x) => Some(dup_metadata(x)),
        None => None,
    }
}

fn no_metadata() -> (r: FileMetadata)
    ensures
        r@ == (FileMetadataView { meta: None, xattrs: Seq::empty() }),
{
    let r = FileMetadata { meta: None, xattrs: Vec::new() };
    assert(r@.xattrs =~= Seq::<XattrView>::empty());
    r
}

fn metadata_of_parent(svc: &FileService, rows: &StrMap<Stat>, parent: &str) -> (r: Result<
    FileMetadata,
    TapeError,
>)
    ensures
        match parent_metadata(svc@, rows@, parent@) {
            Ok(m) => r is Ok && r->Ok_0@ == m,
            Err(e) => r is Err && r->Err_0@ == e,
        },
{
    match svc.stat(parent, row_of(rows, parent)) {
        Err(e) => Err(TapeError::Ltfs(e.message())),
        Ok(None) => Ok(no_metadata()),
        Ok(Some(st)) => {
            if nodes::is_directory(&st.metadata) {
                match nodes::directory_metadata(&st.metadata) {
                    Ok(m) => Ok(m),
                    Err(e) => Err(TapeError::Ltfs(e.message())),
                }
            } else {
                Err(
                    TapeError::Ltfs(
                        text::cat3("父路径 ", parent, " 不是目录"),
                    ),
                )
            }
        },
    }
}

fn push_op(ops: &mut Vec<VolumeOp>, o: VolumeOp)
    ensures
        op_views(final(ops)@) == op_views(old(ops)@).push(o@),
{
    let ghost was = ops@;
    let ghost v = o@;
    ops.push(o);
    assert(op_views(ops@) =~= op_views(was).push(v));
}

/// Adds what is done so that all directories above a path are recorded. `changed` gets their
/// paths.
pub fn prepare_parent_directories(
    svc: &FileService,
    rows: &StrMap<Stat>,
    path: &str,
    version: &str,
    touch: bool,
    ops: &mut Vec<VolumeOp>,
    changed: &mut StrSet,
) -> (r: Result<(), TapeError>)
    ensures
        match all_parent_ops(svc@, rows@, path@, version@, touch) {
            Ok(more) => {
                &&& r is Ok
                &&& op_views(final(ops)@) == op_views(old(ops)@) + more
                &&& final(changed)@ == old(changed)@.union(directories_in(more))
            },
            Err(e) => r is Err && r->Err_0@ == e,
        },
{
    let parts = split_components(path);
    let ghost all = components(path@);
    let ghost ops0 = op_views(ops@);
    let ghost ch0 = changed@;
    let n = parts.len();
    assert(text::string_views(parts@).len() == n);
    let holder = paths::parent_of(path);
    let mut parent = String::new();
    let mut i: usize = 0;
    proof {
        assert(parent@ =~= Seq::<char>::empty());
        assert(ops0 + Seq::<OpView>::empty() =~= ops0);
        assert(directories_in(Seq::<OpView>::empty()) =~= Set::<Seq<char>>::empty());
        assert(ch0.union(Set::<Seq<char>>::empty()) =~= ch0);
    }
    while i + 1 < n
        invariant
            i < n == parts@.len(),
            all == components(path@),
            text::string_views(parts@) == all,
            all.len() == n,
            ops0 == op_views(old(ops)@),
            ch0 == old(changed)@,
            holder@ == paths::parent_path(path@),
            parent@ == prefix(all, i as nat),
            parent_ops(svc@, rows@, path@, version@, touch, i as nat) is Ok,
            op_views(ops@) == ops0 + parent_ops(
                svc@,
                rows@,
                path@,
                version@,
                touch,
                i as nat,
            )->Ok_0,
            changed@ == ch0.union(
                directories_in(
                    parent_ops(svc@, rows@, path@, version@, touch, i as nat)->Ok_0,
                ),
            ),
        decreases n - i,
    {
        let ghost k = (i + 1) as nat;
        let ghost before = parent_ops(svc@, rows@, path@, version@, touch, i as nat)->Ok_0;
        parent.push_str("/");
        parent.push_str(parts[i].as_str());
        assert(all[i as int] == parts@[i as int]@);
        assert(parent@ == prefix(all, k));
        let metadata = match metadata_of_parent(svc, rows, parent.as_str()) {
            Ok(m) => m,
            Err(e) => {
                proof {
                    lemma_parent_error(
                        svc@,
                        rows@,
                        path@,
                        version@,
                        touch,
                        k,
                        (n - 1) as nat,
                    );
                }
                return Err(e);
            },
        };
        let ghost md = metadata@;
        let direct = text::same(parent.as_str(), holder.as_str());
        push_op(ops, VolumeOp::RemoveTombstone { path: parent.clone() });
        let o = VolumeOp::PutDirectory {
            path: parent.clone(),
            version: version.to_owned(),
            metadata,
            touch: touch && direct,
        };
        let ghost ov = o@;
        push_op(ops, o);
        changed.insert(parent.clone());
        proof {
            let a = OpView::RemoveTombstone { path: parent@ };
            let now = before.push(a).push(ov);
            assert(parent_ops(svc@, rows@, path@, version@, touch, k) == Ok::<
                Seq<OpView>,
                TapeErrorView,
            >(now));
            assert(op_views(ops@) =~= ops0 + now);
            assert(now.drop_last() =~= before.push(a));
            assert(before.push(a).drop_last() =~= before);
            assert(directories_in(now) == directories_in(before).insert(parent@)) by {
                reveal_with_fuel(directories_in, 3);
            }
            assert(changed@ =~= ch0.union(directories_in(now)));
        }
        i += 1;
    }
    Ok(())
}

proof fn lemma_parent_error(
    svc: ServiceView,
    rows: Map<Seq<char>, StatView>,
    path: Seq<char>,
    version: Seq<char>,
    touch: bool,
    k: nat,
    n: nat,
)
    requires
        k <= n,
        parent_ops(svc, rows, path, version, touch, k) is Err,
    ensures
        parent_ops(svc, rows, path, version, touch, n) == parent_ops(
            svc,
            rows,
            path,
            version,
            touch,
            k,
        ),
    decreases n,
{
    if k < n {
        lemma_parent_error(svc, rows, path, version, touch, k, (n - 1) as nat);
    }
}

/// What the change of one node does on the volume, and the paths whose records it changes.
#[verifier::ext_equal]
pub struct ChangePlan {
    pub ops: Seq<OpView>,
    pub changed: Set<Seq<char>>,
}

/// The sources of a rename that the batch names.
pub open spec fn named_sources(uploads: Seq<UploadView>, task: u64) -> Set<Seq<char>> {
    Set::new(
        |p: Seq<char>|
            exists|i: int|
                0 <= i < uploads.len() && (#[trigger] uploads[i]).task == task
                    && uploads[i].rename_from is Some && (uploads[i].rename_from->0).0 == p,
    )
}

/// The live records of the volume at a path and below it.
pub open spec fn live_below(catalog: Seq<FileRecView>, from: Seq<char>) -> Set<Seq<char>> {
    Set::new(
        |p: Seq<char>|
            exists|i: int|
                0 <= i < catalog.len() && !(#[trigger] catalog[i]).deleted && catalog[i].path == p
                    && (p == from || text::has_prefix(p, from + "/"@)),
    )
}

/// What a rename does on the volume.
pub open spec fn rename_plan(
    svc: ServiceView,
    rows: Map<Seq<char>, StatView>,
    u: UploadView,
    uploads: Seq<UploadView>,
    catalog: Seq<FileRecView>,
    version: Seq<char>,
) -> Result<ChangePlan, TapeErrorView> {
    let (from, root) = u.rename_from->0;
    let tail = seq![
        OpView::RemoveTombstone { path: u.path },
        OpView::SetVersion { path: u.path, version },
    ];
    if !root {
        Ok(ChangePlan { ops: tail, changed: set![u.path] })
    } else if live_below(catalog, from) != named_sources(uploads, u.task) {
        Err(TapeErrorView::Ltfs("改名源目录与当前卷不一致"@))
    } else {
        match all_parent_ops(svc, rows, from, version, true) {
            Err(e) => Err(e),
            Ok(a) => match all_parent_ops(svc, rows, u.path, version, true) {
                Err(e) => Err(e),
                Ok(b) => Ok(
                    ChangePlan {
                        ops: a + b + seq![
                            OpView::Discard { path: u.path },
                            OpView::Rename { from, to: u.path },
                        ] + tail,
                        changed: directories_in(a).union(directories_in(b)).insert(u.path),
                    },
                ),
            },
        }
    }
}

/// What the node itself comes to, once the directories above it are recorded.
pub open spec fn node_ops(u: UploadView, version: Seq<char>) -> Seq<OpView> {
    if u.delete {
        seq![
            OpView::Discard { path: u.path },
            OpView::AppendTombstone { path: u.path, version, directory: u.directory },
        ]
    } else if u.symlink_target is Some {
        seq![
            OpView::Discard { path: u.path },
            OpView::RemoveTombstone { path: u.path },
            OpView::AddSymlink {
                path: u.path,
                target: u.symlink_target->0,
                metadata: u.metadata,
            },
            OpView::SetVersion { path: u.path, version },
        ]
    } else if u.directory {
        let put = OpView::PutDirectory {
            path: u.path,
            version,
            metadata: match u.metadata {
                Some(m) => m,
                None => FileMetadataView { meta: None, xattrs: Seq::empty() },
            },
            touch: false,
        };
        if u.metadata is None {
            seq![
                OpView::RemoveTombstone { path: u.path },
                OpView::Discard { path: u.path },
                put,
            ]
        } else {
            seq![OpView::RemoveTombstone { path: u.path }, put]
        }
    } else {
        seq![
            OpView::Discard { path: u.path },
            OpView::RemoveTombstone { path: u.path },
            OpView::AppendFile {
                path: u.path,
                spool: u.spool,
                version,
                metadata: u.metadata,
            },
        ]
    }
}

/// What a change does on the volume. On one tape a path has one record: a removal takes the file
/// away, and a write the tombstone.
pub open spec fn change_plan(
    svc: ServiceView,
    rows: Map<Seq<char>, StatView>,
    u: UploadView,
    uploads: Seq<UploadView>,
    catalog: Seq<FileRecView>,
    version: Seq<char>,
) -> Result<ChangePlan, TapeErrorView> {
    if u.xattr_change is Some {
        let (key, attr) = u.xattr_change->0;
        Ok(
            ChangePlan {
                ops: seq![
                    match attr {
                        Some(a) => OpView::SetXattr { path: u.path, attr: a },
                        None => OpView::RemoveXattr { path: u.path, key },
                    },
                    OpView::SetVersion { path: u.path, version },
                ],
                changed: set![u.path],
            },
        )
    } else if u.rename_from is Some {
        rename_plan(svc, rows, u, uploads, catalog, version)
    } else {
        match svc.lookup(u.path, row_at(rows, u.path)) {
            Err(e) => Err(TapeErrorView::Ltfs(e.message())),
            Ok(current) => {
                let existed = current is Some && !current->0.deleted;
                if !u.delete || existed {
                    match all_parent_ops(
                        svc,
                        rows,
                        u.path,
                        version,
                        if u.delete {
                            existed
                        } else {
                            !existed
                        },
                    ) {
                        Err(e) => Err(e),
                        Ok(a) => Ok(
                            ChangePlan {
                                ops: a + node_ops(u, version),
                                changed: directories_in(a).insert(u.path),
                            },
                        ),
                    }
                } else {
                    Ok(ChangePlan { ops: node_ops(u, version), changed: set![u.path] })
                }
            },
        }
    }
}

fn is_named(uploads: &Vec<Upload>, task: u64, p: &str) -> (r: bool)
    ensures
        r == named_sources(files::upload_views(uploads@), task).contains(p@),
{
    let ghost all = files::upload_views(uploads@);
    let mut i: usize = 0;
    while i < uploads.len()
        invariant
            i <= uploads@.len(),
            all == files::upload_views(uploads@),
            forall|j: int|
                0 <= j < i ==> !((#[trigger] all[j]).task == task && all[j].rename_from is Some && (
                all[j].rename_from->0).0 == p@),
        decreases uploads@.len() - i,
    {
        let u = &uploads[i];
        assert(all[i as int] == u@);
        if u.task == task {
            match &u.rename_from {
                Some(f) => {
                    if text::same(f.path.as_str(), p) {
                        return true;
                    }
                },
                None => {},
            }
        }
        i += 1;
    }
    false
}

fn lies_below(p: &str, from: &str) -> (r: bool)
    ensures
        r == (p@ == from@ || text::has_prefix(p@, from@ + "/"@)),
{
    let below = text::cat2(from, "/");
    text::same(p, from) || text::starts_with(p, below.as_str())
}

fn is_live_below(catalog: &Vec<FileRec>, from: &str, p: &str) -> (r: bool)
    ensures
        r == live_below(state::recs(catalog@), from@).contains(p@),
{
    let ghost all = state::recs(catalog@);
    let below = lies_below(p, from);
    let mut i: usize = 0;
    while i < catalog.len()
        invariant
            i <= catalog@.len(),
            all == state::recs(catalog@),
            below == (p@ == from@ || text::has_prefix(p@, from@ + "/"@)),
            forall|j: int|
                0 <= j < i ==> !(!(#[trigger] all[j]).deleted && all[j].path == p@ && below),
        decreases catalog@.len() - i,
    {
        let c = &catalog[i];
        assert(all[i as int] == c@);
        if below && !c.deleted && text::same(c.path.as_str(), p) {
            return true;
        }
        i += 1;
    }
    false
}

/// Whether the volume holds at the source of a rename just what the batch names.
fn sources_agree(catalog: &Vec<FileRec>, from: &str, uploads: &Vec<Upload>, task: u64) -> (r: bool)
    ensures
        r == (live_below(state::recs(catalog@), from@) == named_sources(
            files::upload_views(uploads@),
            task,
        )),
{
    let ghost cs = state::recs(catalog@);
    let ghost us = files::upload_views(uploads@);
    let ghost live = live_below(cs, from@);
    let ghost named = named_sources(us, task);
    let mut i: usize = 0;
    while i < catalog.len()
        invariant
            i <= catalog@.len(),
            cs == state::recs(catalog@),
            us == files::upload_views(uploads@),
            live == live_below(cs, from@),
            named == named_sources(us, task),
            forall|j: int|
                0 <= j < i && live.contains((#[trigger] cs[j]).path) ==> named.contains(cs[j].path),
        decreases catalog@.len() - i,
    {
        let p = catalog[i].path.as_str();
        assert(cs[i as int] == catalog@[i as int]@);
        if is_live_below(catalog, from, p) && !is_named(uploads, task, p) {
            assert(live.contains(p@) && !named.contains(p@));
            return false;
        }
        i += 1;
    }
    let mut i: usize = 0;
    while i < uploads.len()
        invariant
            i <= uploads@.len(),
            cs == state::recs(catalog@),
            us == files::upload_views(uploads@),
            live == live_below(cs, from@),
            named == named_sources(us, task),
            forall|j: int|
                0 <= j < i && (#[trigger] us[j]).task == task && us[j].rename_from is Some
                    ==> live.contains((us[j].rename_from->0).0),
        decreases uploads@.len() - i,
    {
        let u = &uploads[i];
        assert(us[i as int] == u@);
        if u.task == task {
            match &u.rename_from {
                Some(f) => {
                    if !is_live_below(catalog, from, f.path.as_str()) {
                        assert(named.contains(f.path@));
                        return false;
                    }
                },
                None => {},
            }
        }
        i += 1;
    }
    proof {
        assert forall|p: Seq<char>| #[trigger] live.contains(p) <==> named.contains(p) by {
            if live.contains(p) {
                let j = choose|j: int|
                    0 <= j < cs.len() && !(#[trigger] cs[j]).deleted && cs[j].path == p && (p
                        == from@ || text::has_prefix(p, from@ + "/"@));
                assert(named.contains(cs[j].path));
            }
            if named.contains(p) {
                let j = choose|j: int|
                    0 <= j < us.len() && (#[trigger] us[j]).task == task
                        && us[j].rename_from is Some && (us[j].rename_from->0).0 == p;
                assert(live.contains((us[j].rename_from->0).0));
            }
        }
        assert(live =~= named);
    }
    true
}

/// What a change does on the volume.
#[derive(Debug)]
pub struct Changes {
    pub ops: Vec<VolumeOp>,
    /// The paths whose records change.
    pub changed: StrSet,
}

impl View for Changes {
    type V = ChangePlan;

    open spec fn view(&self) -> ChangePlan {
        ChangePlan { ops: op_views(self.ops@), changed: self.changed@ }
    }
}

fn no_changes() -> (r: Changes)
    ensures
        r@ == (ChangePlan { ops: Seq::empty(), changed: Set::empty() }),
{
    let r = Changes { ops: Vec::new(), changed: StrSet::new() };
    assert(r@.ops =~= Seq::<OpView>::empty());
    r
}

fn plan_rename(
    svc: &FileService,
    rows: &StrMap<Stat>,
    u: &Upload,
    from: &str,
    root: bool,
    uploads: &Vec<Upload>,
    catalog: &Vec<FileRec>,
    version: &str,
) -> (r: Result<Changes, TapeError>)
    requires
        u@.rename_from == Some((from@, root)),
    ensures
        match rename_plan(
            svc@,
            rows@,
            u@,
            files::upload_views(uploads@),
            state::recs(catalog@),
            version@,
        ) {
            Ok(p) => r is Ok && r->Ok_0@ == p,
            Err(e) => r is Err && r->Err_0@ == e,
        },
{
    let mut c = no_changes();
    let ghost mut head: Seq<OpView> = Seq::empty();
    let ghost mut dirs: Set<Seq<char>> = Set::empty();
    if root {
        if !sources_agree(catalog, from, uploads, u.task) {
            return Err(
                TapeError::Ltfs("改名源目录与当前卷不一致".to_owned()),
            );
        }
        match prepare_parent_directories(
            svc,
            rows,
            from,
            version,
            true,
            &mut c.ops,
            &mut c.changed,
        ) {
            Ok(_) => {},
            Err(e) => {
                return Err(e);
            },
        }
        match prepare_parent_directories(
            svc,
            rows,
            u.path.as_str(),
            version,
            true,
            &mut c.ops,
            &mut c.changed,
        ) {
            Ok(_) => {},
            Err(e) => {
                return Err(e);
            },
        }
        push_op(&mut c.ops, VolumeOp::Discard { path: u.path.clone() });
        push_op(&mut c.ops, VolumeOp::Rename { from: from.to_owned(), to: u.path.clone() });
        proof {
            let a = all_parent_ops(svc@, rows@, from@, version@, true)->Ok_0;
            let b = all_parent_ops(svc@, rows@, u@.path, version@, true)->Ok_0;
            head = a + b + seq![
                OpView::Discard { path: u@.path },
                OpView::Rename { from: from@, to: u@.path },
            ];
            dirs = directories_in(a).union(directories_in(b));
            assert(op_views(c.ops@) =~= head);
            assert(c.changed@ =~= dirs);
        }
    }
    push_op(&mut c.ops, VolumeOp::RemoveTombstone { path: u.path.clone() });
    push_op(
        &mut c.ops,
        VolumeOp::SetVersion { path: u.path.clone(), version: version.to_owned() },
    );
    c.changed.insert(u.path.clone());
    proof {
        let tail = seq![
            OpView::RemoveTombstone { path: u@.path },
            OpView::SetVersion { path: u@.path, version: version@ },
        ];
        assert(op_views(c.ops@) =~= head + tail);
        assert(Seq::<OpView>::empty() + tail =~= tail);
        assert(c.changed@ =~= dirs.insert(u@.path));
        if !root {
            assert(c.changed@ =~= set![u@.path]);
        }
    }
    Ok(c)
}

fn add_node(c: &mut Changes, u: &Upload, version: &str)
    ensures
        final(c)@ == (ChangePlan { ops: old(c)@.ops + node_ops(u@, version@), ..old(c)@ }),
{
    let ghost was = c@;
    if u.delete {
        push_op(&mut c.ops, VolumeOp::Discard { path: u.path.clone() });
        push_op(
            &mut c.ops,
            VolumeOp::AppendTombstone {
                path: u.path.clone(),
                version: version.to_owned(),
                directory: u.directory,
            },
        );
    } else {
        match &u.symlink_target {
            Some(target) => {
                push_op(&mut c.ops, VolumeOp::Discard { path: u.path.clone() });
                push_op(&mut c.ops, VolumeOp::RemoveTombstone { path: u.path.clone() });
                push_op(
                    &mut c.ops,
                    VolumeOp::AddSymlink {
                        path: u.path.clone(),
                        target: target.clone(),
                        metadata: dup_optional(&u.metadata),
                    },
                );
                push_op(
                    &mut c.ops,
                    VolumeOp::SetVersion { path: u.path.clone(), version: version.to_owned() },
                );
            },
            None => {
                if u.directory {
                    push_op(&mut c.ops, VolumeOp::RemoveTombstone { path: u.path.clone() });
                    let metadata = match &u.metadata {
                        Some(m) => dup_metadata(m),
                        None => {
                            push_op(&mut c.ops, VolumeOp::Discard { path: u.path.clone() });
                            no_metadata()
                        },
                    };
                    push_op(
                        &mut c.ops,
                        VolumeOp::PutDirectory {
                            path: u.path.clone(),
                            version: version.to_owned(),
                            metadata,
                            touch: false,
                        },
                    );
                } else {
                    push_op(&mut c.ops, VolumeOp::Discard { path: u.path.clone() });
                    push_op(&mut c.ops, VolumeOp::RemoveTombstone { path: u.path.clone() });
                    push_op(
                        &mut c.ops,
                        VolumeOp::AppendFile {
                            path: u.path.clone(),
                            spool: u.spool.clone(),
                            version: version.to_owned(),
                            metadata: dup_optional(&u.metadata),
                        },
                    );
                }
            },
        }
    }
    assert(c@.ops =~= was.ops + node_ops(u@, version@));
}

/// What a change does on the volume. `rows` is what the directory has, `uploads` the whole batch,
/// `catalog` what the volume holds at this moment.
pub fn plan_change(
    svc: &FileService,
    rows: &StrMap<Stat>,
    u: &Upload,
    uploads: &Vec<Upload>,
    catalog: &Vec<FileRec>,
    version: &str,
) -> (r: Result<Changes, TapeError>)
    ensures
        match change_plan(
            svc@,
            rows@,
            u@,
            files::upload_views(uploads@),
            state::recs(catalog@),
            version@,
        ) {
            Ok(p) => r is Ok && r->Ok_0@ == p,
            Err(e) => r is Err && r->Err_0@ == e,
        },
{
    match &u.xattr_change {
        Some(x) => {
            let mut c = no_changes();
            match &x.value {
                Some(a) => push_op(
                    &mut c.ops,
                    VolumeOp::SetXattr { path: u.path.clone(), attr: a.dup() },
                ),
                None => push_op(
                    &mut c.ops,
                    VolumeOp::RemoveXattr { path: u.path.clone(), key: x.key.clone() },
                ),
            }
            push_op(
                &mut c.ops,
                VolumeOp::SetVersion { path: u.path.clone(), version: version.to_owned() },
            );
            c.changed.insert(u.path.clone());
            proof {
                let p = change_plan(
                    svc@,
                    rows@,
                    u@,
                    files::upload_views(uploads@),
                    state::recs(catalog@),
                    version@,
                )->Ok_0;
                assert(c@.ops =~= p.ops);
                assert(c@.changed =~= p.changed);
            }
            return Ok(c);
        },
        None => {},
    }
    match &u.rename_from {
        Some(f) => {
            return plan_rename(
                svc,
                rows,
                u,
                f.path.as_str(),
                f.root,
                uploads,
                catalog,
                version,
            );
        },
        None => {},
    }
    let mut c = no_changes();
    let existed = match svc.lookup(u.path.as_str(), row_of(rows, u.path.as_str())) {
        Err(e) => {
            return Err(TapeError::Ltfs(e.message()));
        },
        Ok(Some(st)) => !st.deleted,
        Ok(None) => false,
    };
    let ghost mut above: Seq<OpView> = Seq::empty();
    if !u.delete || existed {
        let touch = if u.delete {
            existed
        } else {
            !existed
        };
        match prepare_parent_directories(
            svc,
            rows,
            u.path.as_str(),
            version,
            touch,
            &mut c.ops,
            &mut c.changed,
        ) {
            Ok(_) => {},
            Err(e) => {
                return Err(e);
            },
        }
        proof {
            above = all_parent_ops(svc@, rows@, u@.path, version@, touch)->Ok_0;
            assert(c@.ops =~= above);
            assert(c@.changed =~= directories_in(above));
        }
    }
    add_node(&mut c, u, version);
    c.changed.insert(u.path.clone());
    proof {
        assert(c@.ops =~= above + node_ops(u@, version@));
        assert(Seq::<OpView>::empty() + node_ops(u@, version@) =~= node_ops(u@, version@));
        assert(directories_in(Seq::<OpView>::empty()) =~= Set::<Seq<char>>::empty());
        assert(c@.changed =~= directories_in(above).insert(u@.path));
        if u.delete && !existed {
            assert(c@.changed =~= set![u@.path]);
        }
    }
    Ok(c)
}

/// What is reported of a commit.
#[derive(Debug)]
pub struct CommitReport {
    pub round: u64,
    pub barcode: String,
    pub volume_uuid: String,
    pub generation: u64,
    /// The records of files.
    pub files_total: u64,
    pub bytes_used: u64,
    pub bytes_written: u64,
    pub records: Vec<FileRec>,
    /// The records are all that the tape holds.
    pub full: bool,
}

impl CommitReport {
    /// The report as the device thread sends it.
    pub fn event(self) -> (r: ExecEvent)
        ensures
            r@ == (EventView::Committed {
                round: self.round,
                barcode: self.barcode@,
                volume_uuid: self.volume_uuid@,
                generation: self.generation,
                files_total: self.files_total,
                bytes_used: self.bytes_used,
                bytes_written: self.bytes_written,
                files: state::recs(self.records@),
                full: self.full,
            }),
    {
        ExecEvent::Committed {
            round: self.round,
            barcode: self.barcode,
            volume_uuid: self.volume_uuid,
            generation: self.generation,
            files_total: self.files_total,
            bytes_used: self.bytes_used,
            bytes_written: self.bytes_written,
            files: self.records,
            full: self.full,
        }
    }
}

/// The records of these paths.
pub open spec fn chosen(v: Seq<FileRecView>, changed: Set<Seq<char>>) -> Seq<FileRecView>
    decreases v.len(),
{
    if v.len() == 0 {
        Seq::empty()
    } else if changed.contains(v.last().path) {
        chosen(v.drop_last(), changed).push(v.last())
    } else {
        chosen(v.drop_last(), changed)
    }
}

fn choose_records(v: &Vec<FileRec>, changed: &StrSet) -> (r: Vec<FileRec>)
    ensures
        state::recs(r@) == chosen(state::recs(v@), changed@),
{
    let ghost all = state::recs(v@);
    let mut out: Vec<FileRec> = Vec::new();
    let mut i: usize = 0;
    assert(state::recs(out@) =~= Seq::<FileRecView>::empty());
    while i < v.len()
        invariant
            i <= v@.len(),
            all == state::recs(v@),
            state::recs(out@) == chosen(all.take(i as int), changed@),
        decreases v@.len() - i,
    {
        assert(all.take(i + 1).drop_last() =~= all.take(i as int));
        assert(all.take(i + 1).last() == v@[i as int]@);
        if changed.contains(v[i].path.as_str()) {
            let ghost was = out@;
            let c = v[i].dup();
            out.push(c);
            assert(state::recs(out@) =~= state::recs(was).push(c@));
        }
        i += 1;
    }
    assert(all.take(i as int) =~= all);
    out
}

/// What is reported of a batch that is on tape: of all records of the volume, those that it
/// changed.
pub fn batch_report(
    round: u64,
    barcode: &str,
    volume_uuid: &str,
    generation: u64,
    all: &Vec<FileRec>,
    bytes_used: u64,
    bytes_written: u64,
    changed: &StrSet,
) -> (r: CommitReport)
    ensures
        r.round == round,
        r.barcode@ == barcode@,
        r.volume_uuid@ == volume_uuid@,
        r.generation == generation,
        r.files_total == opening::plain_records(state::recs(all@)),
        r.bytes_used == bytes_used,
        r.bytes_written == bytes_written,
        state::recs(r.records@) == chosen(state::recs(all@), changed@),
        !r.full,
{
    CommitReport {
        round,
        barcode: barcode.to_owned(),
        volume_uuid: volume_uuid.to_owned(),
        generation,
        files_total: opening::count_plain(all),
        bytes_used,
        bytes_written,
        records: choose_records(all, changed),
        full: false,
    }
}

/// What is reported of a tape that was read in full.
pub fn full_report(
    round: u64,
    barcode: &str,
    volume_uuid: &str,
    generation: u64,
    all: Vec<FileRec>,
    bytes_used: u64,
    bytes_written: u64,
) -> (r: CommitReport)
    ensures
        r.round == round,
        r.barcode@ == barcode@,
        r.volume_uuid@ == volume_uuid@,
        r.generation == generation,
        r.files_total == opening::plain_records(state::recs(all@)),
        r.bytes_used == bytes_used,
        r.bytes_written == bytes_written,
        r.records@ == all@,
        r.full,
{
    let files_total = opening::count_plain(&all);
    CommitReport {
        round,
        barcode: barcode.to_owned(),
        volume_uuid: volume_uuid.to_owned(),
        generation,
        files_total,
        bytes_used,
        bytes_written,
        records: all,
        full: true,
    }
}

/// A removal never leaves the content of the path on the volume, and a write never its tombstone:
/// the last word on the path is the new record.
pub proof fn law_one_record_for_a_path(u: UploadView, version: Seq<char>)
    ensures
        u.delete ==> node_ops(u, version).contains(OpView::Discard { path: u.path })
            && node_ops(u, version).last() == (OpView::AppendTombstone {
            path: u.path,
            version,
            directory: u.directory,
        }),
        !u.delete ==> node_ops(u, version).contains(OpView::RemoveTombstone { path: u.path })
            && !(node_ops(u, version).last() is AppendTombstone),
{
    let ops = node_ops(u, version);
    if u.delete {
        assert(ops[0] == (OpView::Discard { path: u.path }));
    } else if u.symlink_target is Some {
        assert(ops[1] == (OpView::RemoveTombstone { path: u.path }));
    } else if u.directory {
        assert(ops[0] == (OpView::RemoveTombstone { path: u.path }));
    } else {
        assert(ops[1] == (OpView::RemoveTombstone { path: u.path }));
    }
}

/// The path of a change is always among those that are reported.
pub proof fn law_changed_path_is_reported(
    svc: ServiceView,
    rows: Map<Seq<char>, StatView>,
    u: UploadView,
    uploads: Seq<UploadView>,
    catalog: Seq<FileRecView>,
    version: Seq<char>,
)
    ensures
        change_plan(svc, rows, u, uploads, catalog, version) matches Ok(p) ==> p.changed.contains(
            u.path,
        ),
{
}

} // verus!
