//! Files and directories as the service records them, and what an index says of them.
use std::sync::Arc;
use vstd::prelude::*;

use crate::daemon::paths;
use crate::daemon::paths::{ServiceError, ServiceErrorView};
use crate::daemon::state;
use crate::daemon::state::{FileRec, FileRecView};
use crate::json;
use crate::json::{Fields, Items, Json, JsonView};
use crate::strmap;
use crate::strmap::{Dup, StrMap};
use crate::text;

verus! {

/// Holds the version of a node.
pub const XATTR_VERSION: &'static str = "tapers.version";

/// Holds the path that a tombstone stands for.
pub const XATTR_DELETED_PATH: &'static str = "tapers.deletedPath";

/// Holds the kind of node that a tombstone stands for.
pub const XATTR_DELETED_KIND: &'static str = "tapers.deletedKind";

pub open spec fn text_view(o: Option<String>) -> Option<Seq<char>> {
    match o {
        Some(s) => Some(s@),
        None => None,
    }
}

pub fn dup_text(o: &Option<String>) -> (r: Option<String>)
    ensures
        text_view(r) == text_view(*o),
{
    match o {
        Some(s) => Some(s.clone()),
        None => None,
    }
}

/// An extended attribute of a node.
#[derive(Debug, Clone, PartialEq, Eq)]
pub struct Xattr {
    pub key: String,
    pub value: String,
    /// The value is encoded.
    pub base64: bool,
}

#[verifier::ext_equal]
pub struct XattrView {
    pub key: Seq<char>,
    pub value: Seq<char>,
    pub base64: bool,
}

impl View for Xattr {
    type V = XattrView;

    open spec fn view(&self) -> XattrView {
        XattrView { key: self.key@, value: self.value@, base64: self.base64 }
    }
}

impl Dup for Xattr {
    fn dup(&self) -> (r: Self) {
        Xattr { key: self.key.clone(), value: self.value.clone(), base64: self.base64 }
    }
}

pub open spec fn xattr_views(v: Seq<Xattr>) -> Seq<XattrView> {
    v.map_values(|x: Xattr| x@)
}

pub fn dup_xattrs(v: &Vec<Xattr>) -> (r: Vec<Xattr>)
    ensures
        xattr_views(r@) == xattr_views(v@),
{
    let mut out: Vec<Xattr> = Vec::new();
    let mut i: usize = 0;
    while i < v.len()
        invariant
            i <= v@.len(),
            out@.len() == i,
            forall|j: int| 0 <= j < i ==> (#[trigger] out@[j])@ == v@[j]@,
        decreases v@.len() - i,
    {
        out.push(v[i].dup());
        i += 1;
    }
    assert(xattr_views(out@) =~= xattr_views(v@));
    out
}

/// The value of the first attribute named `key`.
pub open spec fn xattr_value(v: Seq<XattrView>, key: Seq<char>) -> Option<Seq<char>>
    decreases v.len(),
{
    if v.len() == 0 {
        None
    } else if v[0].key == key {
        Some(v[0].value)
    } else {
        xattr_value(v.drop_first(), key)
    }
}

/// The value of the first attribute named `key`.
pub fn find_xattr(v: &Vec<Xattr>, key: &str) -> (r: Option<String>)
    ensures
        text_view(r) == xattr_value(xattr_views(v@), key@),
{
    let ghost all = xattr_views(v@);
    let mut i: usize = 0;
    assert(all.skip(0) =~= all);
    while i < v.len()
        invariant
            i <= v@.len(),
            all == xattr_views(v@),
            xattr_value(all, key@) == xattr_value(all.skip(i as int), key@),
        decreases v@.len() - i,
    {
        assert(all.skip(i as int)[0] == v@[i as int]@);
        if text::same(v[i].key.as_str(), key) {
            return Some(v[i].value.clone());
        }
        assert(all.skip(i as int).drop_first() =~= all.skip(i + 1));
        i += 1;
    }
    None
}

/// The times and flags of a node.
#[derive(Debug, Clone, PartialEq, Eq)]
pub struct NodeMeta {
    pub readonly: bool,
    pub creation_time: String,
    pub change_time: String,
    pub modify_time: String,
    pub access_time: String,
    pub backup_time: String,
}

#[verifier::ext_equal]
pub struct NodeMetaView {
    pub readonly: bool,
    pub creation_time: Seq<char>,
    pub change_time: Seq<char>,
    pub modify_time: Seq<char>,
    pub access_time: Seq<char>,
    pub backup_time: Seq<char>,
}

impl View for NodeMeta {
    type V = NodeMetaView;

    open spec fn view(&self) -> NodeMetaView {
        NodeMetaView {
            readonly: self.readonly,
            creation_time: self.creation_time@,
            change_time: self.change_time@,
            modify_time: self.modify_time@,
            access_time: self.access_time@,
            backup_time: self.backup_time@,
        }
    }
}

/// What a new node takes over from an older one: the attributes, and the times and flags where
/// it is moved as it is.
#[derive(Debug, PartialEq, Eq)]
pub struct FileMetadata {
    pub meta: Option<NodeMeta>,
    pub xattrs: Vec<Xattr>,
}

#[verifier::ext_equal]
pub struct FileMetadataView {
    pub meta: Option<NodeMetaView>,
    pub xattrs: Seq<XattrView>,
}

impl View for FileMetadata {
    type V = FileMetadataView;

    open spec fn view(&self) -> FileMetadataView {
        FileMetadataView {
            meta: match self.meta {
                Some(m) => Some(m@),
                None => None,
            },
            xattrs: xattr_views(self.xattrs@),
        }
    }
}

/// The attribute that a document describes.
pub open spec fn xattr_of(j: JsonView) -> Option<XattrView> {
    match (j.text_in("key"@), j.text_in("value"@), j.flag_in("base64"@)) {
        (Some(key), Some(value), Some(base64)) => Some(XattrView { key, value, base64 }),
        _ => None,
    }
}

/// The attributes that documents describe, if they all describe one.
pub open spec fn xattrs_of(s: Seq<JsonView>) -> Option<Seq<XattrView>>
    decreases s.len(),
{
    if s.len() == 0 {
        Some(Seq::empty())
    } else {
        match (xattrs_of(s.drop_last()), xattr_of(s.last())) {
            (Some(v), Some(x)) => Some(v.push(x)),
            _ => None,
        }
    }
}

fn read_xattr(j: &Json) -> (r: Option<Xattr>)
    ensures
        match xattr_of(j@) {
            Some(x) => r is Some && r->0@ == x,
            None => r is None,
        },
{
    match (j.text_in("key"), j.text_in("value"), j.flag_in("base64")) {
        (Some(key), Some(value), Some(base64)) => Some(Xattr { key, value, base64 }),
        _ => None,
    }
}

proof fn lemma_xattrs_of_prefix(s: Seq<JsonView>, i: int)
    requires
        0 <= i <= s.len(),
        xattrs_of(s.take(i)) is None,
    ensures
        xattrs_of(s) is None,
    decreases s.len() - i,
{
    if i < s.len() {
        assert(s.take(i + 1).drop_last() =~= s.take(i));
        lemma_xattrs_of_prefix(s, i + 1);
    } else {
        assert(s.take(i) =~= s);
    }
}

/// The attributes that documents describe, if they all describe one.
pub fn read_xattrs(v: &Vec<Json>) -> (r: Option<Vec<Xattr>>)
    ensures
        match xattrs_of(json::items(v@)) {
            Some(x) => r is Some && xattr_views(r->0@) == x,
            None => r is None,
        },
{
    let ghost s = json::items(v@);
    proof {
        json::lemma_items(v@);
    }
    let mut out: Vec<Xattr> = Vec::new();
    let mut i: usize = 0;
    assert(s.take(0) =~= Seq::<JsonView>::empty());
    assert(xattr_views(out@) =~= Seq::<XattrView>::empty());
    while i < v.len()
        invariant
            i <= v@.len(),
            s == json::items(v@),
            s.len() == v@.len(),
            forall|j: int| 0 <= j < s.len() ==> #[trigger] s[j] == v@[j]@,
            xattrs_of(s.take(i as int)) == Some(xattr_views(out@)),
        decreases v@.len() - i,
    {
        proof {
            assert(s.take(i + 1).drop_last() =~= s.take(i as int));
            assert(s.take(i + 1).last() == v@[i as int]@);
        }
        match read_xattr(&v[i]) {
            Some(x) => {
                let ghost was = out@;
                out.push(x);
                assert(xattr_views(out@) =~= xattr_views(was).push(x@));
            },
            None => {
                proof {
                    lemma_xattrs_of_prefix(s, i + 1);
                }
                return None;
            },
        }
        i += 1;
    }
    assert(s.take(i as int) =~= s);
    Some(out)
}

/// The metadata that a directory's record describes, if it is whole.
pub open spec fn directory_metadata_of(j: JsonView) -> Option<FileMetadataView> {
    match (j.field("node"@), j.list_in("xattrs"@)) {
        (Some(n), Some(s)) => match (
            n.flag_in("readonly"@),
            n.text_in("creation_time"@),
            n.text_in("change_time"@),
            n.text_in("modify_time"@),
            n.text_in("access_time"@),
            n.text_in("backup_time"@),
            xattrs_of(s),
        ) {
            (
                Some(readonly),
                Some(creation_time),
                Some(change_time),
                Some(modify_time),
                Some(access_time),
                Some(backup_time),
                Some(xattrs),
            ) => Some(
                FileMetadataView {
                    meta: Some(
                        NodeMetaView {
                            readonly,
                            creation_time,
                            change_time,
                            modify_time,
                            access_time,
                            backup_time,
                        },
                    ),
                    xattrs,
                },
            ),
            _ => None,
        },
        _ => None,
    }
}

fn read_node_meta(n: &Json) -> (r: Option<NodeMeta>)
    ensures
        match (
            n@.flag_in("readonly"@),
            n@.text_in("creation_time"@),
            n@.text_in("change_time"@),
            n@.text_in("modify_time"@),
            n@.text_in("access_time"@),
            n@.text_in("backup_time"@),
        ) {
            (
                Some(readonly),
                Some(creation_time),
                Some(change_time),
                Some(modify_time),
                Some(access_time),
                Some(backup_time),
            ) => r is Some && r->0@ == (NodeMetaView {
                readonly,
                creation_time,
                change_time,
                modify_time,
                access_time,
                backup_time,
            }),
            _ => r is None,
        },
{
    match (
        n.flag_in("readonly"),
        n.text_in("creation_time"),
        n.text_in("change_time"),
        n.text_in("modify_time"),
        n.text_in("access_time"),
        n.text_in("backup_time"),
    ) {
        (
            Some(readonly),
            Some(creation_time),
            Some(change_time),
            Some(modify_time),
            Some(access_time),
            Some(backup_time),
        ) => Some(
            NodeMeta {
                readonly,
                creation_time,
                change_time,
                modify_time,
                access_time,
                backup_time,
            },
        ),
        _ => None,
    }
}

/// The metadata that a directory's record describes. A record that is not whole is refused, so
/// that nothing is lost when the directory is moved.
pub fn directory_metadata(value: &Json) -> (r: Result<FileMetadata, ServiceError>)
    ensures
        match directory_metadata_of(value@) {
            Some(m) => r is Ok && r->Ok_0@ == m,
            None => r is Err && r->Err_0@ == ServiceErrorView::Io(
                "目录属性损坏，拒绝有损搬迁"@,
            ),
        },
{
    let meta = match value.get("node") {
        Some(n) => read_node_meta(n),
        None => None,
    };
    let xattrs = match value.list_in("xattrs") {
        Some(v) => read_xattrs(v),
        None => None,
    };
    match (meta, xattrs) {
        (Some(m), Some(x)) => Ok(FileMetadata { meta: Some(m), xattrs: x }),
        _ => Err(ServiceError::Io("目录属性损坏，拒绝有损搬迁".to_owned())),
    }
}

/// The record describes a directory.
pub open spec fn dir_kind(j: JsonView) -> bool {
    j.text_in("kind"@) == Some("directory"@)
}

/// Whether the record describes a directory.
pub fn is_directory(metadata: &Json) -> (r: bool)
    ensures
        r == dir_kind(metadata@),
{
    match metadata.text_in("kind") {
        Some(k) => text::same(k.as_str(), "directory"),
        None => false,
    }
}

/// A version is at least another: first the round counts, then the number.
pub open spec fn version_ge(a: (u64, u64), b: (u64, u64)) -> bool {
    a.0 > b.0 || (a.0 == b.0 && a.1 >= b.1)
}

/// Whether a version is at least another.
pub fn is_version_ge(a: (u64, u64), b: (u64, u64)) -> (r: bool)
    ensures
        r == version_ge(a, b),
{
    a.0 > b.0 || (a.0 == b.0 && a.1 >= b.1)
}

/// A file of an index, by its path without a leading slash.
#[derive(Debug)]
pub struct IndexFile {
    pub path: String,
    /// The path lies where tombstones are kept.
    pub tombstone: bool,
    pub length: u64,
    pub sha256: Option<String>,
    pub modify_time: String,
    pub symlink: Option<String>,
    pub xattrs: Vec<Xattr>,
}

#[verifier::ext_equal]
pub struct IndexFileView {
    pub path: Seq<char>,
    pub tombstone: bool,
    pub length: u64,
    pub sha256: Option<Seq<char>>,
    pub modify_time: Seq<char>,
    pub symlink: Option<Seq<char>>,
    pub xattrs: Seq<XattrView>,
}

impl View for IndexFile {
    type V = IndexFileView;

    open spec fn view(&self) -> IndexFileView {
        IndexFileView {
            path: self.path@,
            tombstone: self.tombstone,
            length: self.length,
            sha256: text_view(self.sha256),
            modify_time: self.modify_time@,
            symlink: text_view(self.symlink),
            xattrs: xattr_views(self.xattrs@),
        }
    }
}

/// A directory of an index, by its path without a leading slash.
#[derive(Debug)]
pub struct IndexDirectory {
    pub path: String,
    pub meta: NodeMeta,
    pub xattrs: Vec<Xattr>,
}

#[verifier::ext_equal]
pub struct IndexDirectoryView {
    pub path: Seq<char>,
    pub meta: NodeMetaView,
    pub xattrs: Seq<XattrView>,
}

impl View for IndexDirectory {
    type V = IndexDirectoryView;

    open spec fn view(&self) -> IndexDirectoryView {
        IndexDirectoryView {
            path: self.path@,
            meta: self.meta@,
            xattrs: xattr_views(self.xattrs@),
        }
    }
}

/// The document for one attribute.
pub open spec fn xattr_doc(x: XattrView) -> JsonView {
    JsonView::Obj(
        Map::<Seq<char>, JsonView>::empty().insert("key"@, JsonView::Str(x.key)).insert(
            "value"@,
            JsonView::Str(x.value),
        ).insert("base64"@, JsonView::Bool(x.base64)),
    )
}

/// The document for a list of attributes.
pub open spec fn xattrs_doc(v: Seq<XattrView>) -> JsonView {
    JsonView::Arr(v.map_values(|x: XattrView| xattr_doc(x)))
}

fn xattrs_json(v: &Vec<Xattr>) -> (r: Json)
    ensures
        r@ == xattrs_doc(xattr_views(v@)),
{
    let mut out = Items::new();
    let ghost want = xattr_views(v@).map_values(|x: XattrView| xattr_doc(x));
    let mut i: usize = 0;
    while i < v.len()
        invariant
            i <= v@.len(),
            want == xattr_views(v@).map_values(|x: XattrView| xattr_doc(x)),
            out@ == want.take(i as int),
        decreases v@.len() - i,
    {
        out.push(
            Fields::new().with("key", Json::str_of(v[i].key.as_str())).with(
                "value",
                Json::str_of(v[i].value.as_str()),
            ).with("base64", Json::Bool(v[i].base64)).done(),
        );
        assert(want[i as int] == xattr_doc(v@[i as int]@));
        assert(want.take(i + 1) =~= want.take(i as int).push(want[i as int]));
        i += 1;
    }
    assert(want.take(i as int) =~= want);
    out.done()
}

/// The version that an attribute list gives, the lowest where it gives none.
pub open spec fn version_of(v: Seq<XattrView>) -> (u64, u64) {
    match xattr_value(v, XATTR_VERSION@) {
        Some(s) => match paths::version_in(s) {
            Some(ver) => ver,
            None => (0, 0),
        },
        None => (0, 0),
    }
}

/// The version that an attribute list gives, the lowest where it gives none.
pub fn xattr_version(v: &Vec<Xattr>) -> (r: (u64, u64))
    ensures
        r == version_of(xattr_views(v@)),
{
    match find_xattr(v, XATTR_VERSION) {
        Some(s) => match paths::parse_version(s.as_str()) {
            Some(ver) => ver,
            None => (0, 0),
        },
        None => (0, 0),
    }
}

/// The metadata document of a file.
pub open spec fn file_doc(f: IndexFileView) -> JsonView {
    let base = Map::<Seq<char>, JsonView>::empty().insert(
        "modify_time"@,
        JsonView::Str(f.modify_time),
    ).insert("xattrs"@, xattrs_doc(f.xattrs));
    JsonView::Obj(
        match f.symlink {
            Some(t) => base.insert("kind"@, JsonView::Str("symlink"@)).insert(
                "symlink"@,
                JsonView::Str(t),
            ),
            None => base,
        },
    )
}

/// The metadata document of a directory.
pub open spec fn directory_doc(d: IndexDirectoryView) -> JsonView {
    let node = Map::<Seq<char>, JsonView>::empty().insert(
        "readonly"@,
        JsonView::Bool(d.meta.readonly),
    ).insert("creation_time"@, JsonView::Str(d.meta.creation_time)).insert(
        "change_time"@,
        JsonView::Str(d.meta.change_time),
    ).insert("modify_time"@, JsonView::Str(d.meta.modify_time)).insert(
        "access_time"@,
        JsonView::Str(d.meta.access_time),
    ).insert("backup_time"@, JsonView::Str(d.meta.backup_time));
    JsonView::Obj(
        Map::<Seq<char>, JsonView>::empty().insert("kind"@, JsonView::Str("directory"@)).insert(
            "modify_time"@,
            JsonView::Str(d.meta.modify_time),
        ).insert("xattrs"@, xattrs_doc(d.xattrs)).insert("node"@, JsonView::Obj(node)),
    )
}

/// The record of a file. A tombstone stands for the path that it names; one that names none is
/// not counted.
pub open spec fn file_record(f: IndexFileView) -> Option<FileRecView> {
    let version = version_of(f.xattrs);
    if f.tombstone {
        match xattr_value(f.xattrs, XATTR_DELETED_PATH@) {
            Some(target) => Some(
                FileRecView {
                    path: target,
                    length: 0,
                    sha256: Seq::empty(),
                    version,
                    deleted: true,
                    metadata: if xattr_value(f.xattrs, XATTR_DELETED_KIND@) == Some("directory"@) {
                        JsonView::Obj(
                            Map::<Seq<char>, JsonView>::empty().insert(
                                "kind"@,
                                JsonView::Str("directory"@),
                            ),
                        )
                    } else {
                        JsonView::Null
                    },
                },
            ),
            None => None,
        }
    } else {
        Some(
            FileRecView {
                path: "/"@ + f.path,
                length: f.length,
                sha256: match f.sha256 {
                    Some(s) => s,
                    None => Seq::empty(),
                },
                version,
                deleted: false,
                metadata: file_doc(f),
            },
        )
    }
}

fn record_of_file(f: &IndexFile) -> (r: Option<FileRec>)
    ensures
        match file_record(f@) {
            Some(v) => r is Some && r->0@ == v,
            None => r is None,
        },
{
    let version = xattr_version(&f.xattrs);
    if f.tombstone {
        let target = match find_xattr(&f.xattrs, XATTR_DELETED_PATH) {
            Some(t) => t,
            None => {
                return None;
            },
        };
        let directory = match find_xattr(&f.xattrs, XATTR_DELETED_KIND) {
            Some(k) => text::same(k.as_str(), "directory"),
            None => false,
        };
        let metadata = if directory {
            Fields::new().with("kind", Json::str_of("directory")).done()
        } else {
            Json::Null
        };
        let r = FileRec {
            path: target,
            length: 0,
            sha256: String::new(),
            version,
            deleted: true,
            metadata: Arc::new(metadata),
        };
        assert(r@.sha256 =~= Seq::<char>::empty());
        Some(r)
    } else {
        let mut fields = Fields::new().with(
            "modify_time",
            Json::str_of(f.modify_time.as_str()),
        ).with("xattrs", xattrs_json(&f.xattrs));
        match &f.symlink {
            Some(t) => {
                fields = fields.with("kind", Json::str_of("symlink")).with(
                    "symlink",
                    Json::str_of(t.as_str()),
                );
            },
            None => {},
        }
        let sha256 = match &f.sha256 {
            Some(s) => s.clone(),
            None => String::new(),
        };
        Some(
            FileRec {
                path: text::cat2("/", f.path.as_str()),
                length: f.length,
                sha256,
                version,
                deleted: false,
                metadata: Arc::new(fields.done()),
            },
        )
    }
}

/// The record of a directory.
pub open spec fn directory_record(d: IndexDirectoryView) -> FileRecView {
    FileRecView {
        path: "/"@ + d.path,
        length: 0,
        sha256: Seq::empty(),
        version: version_of(d.xattrs),
        deleted: false,
        metadata: directory_doc(d),
    }
}

fn record_of_directory(d: &IndexDirectory) -> (r: FileRec)
    ensures
        r@ == directory_record(d@),
{
    let m = &d.meta;
    let node = Fields::new().with("readonly", Json::Bool(m.readonly)).with(
        "creation_time",
        Json::str_of(m.creation_time.as_str()),
    ).with("change_time", Json::str_of(m.change_time.as_str())).with(
        "modify_time",
        Json::str_of(m.modify_time.as_str()),
    ).with("access_time", Json::str_of(m.access_time.as_str())).with(
        "backup_time",
        Json::str_of(m.backup_time.as_str()),
    ).done();
    let metadata = Fields::new().with("kind", Json::str_of("directory")).with(
        "modify_time",
        Json::str_of(m.modify_time.as_str()),
    ).with("xattrs", xattrs_json(&d.xattrs)).with("node", node).done();
    let r = FileRec {
        path: text::cat2("/", d.path.as_str()),
        length: 0,
        sha256: String::new(),
        version: xattr_version(&d.xattrs),
        deleted: false,
        metadata: Arc::new(metadata),
    };
    assert(r@.sha256 =~= Seq::<char>::empty());
    r
}

pub type Records = Map<Seq<char>, FileRecView>;

/// With the record of a file counted in. What is there beats a tombstone; otherwise the newer
/// one of the two stays, the first where they are equal.
pub open spec fn with_file_record(m: Records, r: FileRecView) -> Records {
    if m.contains_key(r.path) && {
        let old_rec = m[r.path];
        (r.deleted && !old_rec.deleted) || (old_rec.deleted == r.deleted && version_ge(
            old_rec.version,
            r.version,
        ))
    } {
        m
    } else {
        m.insert(r.path, r)
    }
}

/// With the record of a directory counted in, over a tombstone or an older record.
pub open spec fn with_directory_record(m: Records, r: FileRecView) -> Records {
    if m.contains_key(r.path) && !m[r.path].deleted && version_ge(m[r.path].version, r.version) {
        m
    } else {
        m.insert(r.path, r)
    }
}

/// The records of the files.
pub open spec fn file_records(s: Seq<IndexFileView>) -> Records
    decreases s.len(),
{
    if s.len() == 0 {
        Map::empty()
    } else {
        match file_record(s.last()) {
            Some(r) => with_file_record(file_records(s.drop_last()), r),
            None => file_records(s.drop_last()),
        }
    }
}

/// The directory is the reserved one or lies in it.
pub open spec fn reserved(path: Seq<char>) -> bool {
    path == ".tapers"@ || text::has_prefix(path, ".tapers/"@)
}

/// The records with those of the directories counted in.
pub open spec fn all_records(m: Records, s: Seq<IndexDirectoryView>) -> Records
    decreases s.len(),
{
    if s.len() == 0 {
        m
    } else if reserved(s.last().path) {
        all_records(m, s.drop_last())
    } else {
        with_directory_record(all_records(m, s.drop_last()), directory_record(s.last()))
    }
}

/// The bytes of the files that are there.
pub open spec fn live_bytes(s: Seq<IndexFileView>) -> nat
    decreases s.len(),
{
    if s.len() == 0 {
        0
    } else {
        live_bytes(s.drop_last()) + if s.last().tombstone {
            0
        } else {
            s.last().length as nat
        }
    }
}

proof fn lemma_live_bytes_take(s: Seq<IndexFileView>, i: int)
    requires
        0 <= i <= s.len(),
    ensures
        live_bytes(s.take(i)) <= live_bytes(s),
    decreases s.len() - i,
{
    if i < s.len() {
        assert(s.take(i + 1).drop_last() =~= s.take(i));
        lemma_live_bytes_take(s, i + 1);
    } else {
        assert(s.take(i) =~= s);
    }
}

pub open spec fn file_views(v: Seq<IndexFile>) -> Seq<IndexFileView> {
    v.map_values(|f: IndexFile| f@)
}

pub open spec fn directory_views(v: Seq<IndexDirectory>) -> Seq<IndexDirectoryView> {
    v.map_values(|d: IndexDirectory| d@)
}

/// The values of a map in key order.
pub open spec fn in_order(m: Records) -> Seq<FileRecView> {
    strmap::sorted_keys(m).map_values(|k: Seq<char>| m[k])
}

/// Every record of a tape's index in path order, and the bytes of the files that are there.
pub fn catalog_of(files: &Vec<IndexFile>, directories: &Vec<IndexDirectory>) -> (r: (
    Vec<FileRec>,
    u64,
))
    requires
        live_bytes(file_views(files@)) <= u64::MAX,
    ensures
        state::recs(r.0@) == in_order(
            all_records(file_records(file_views(files@)), directory_views(directories@)),
        ),
        r.1 == live_bytes(file_views(files@)),
{
    let ghost fs = file_views(files@);
    let ghost ds = directory_views(directories@);
    let mut by_path: StrMap<FileRec> = StrMap::new();
    let mut bytes: u64 = 0;
    let mut i: usize = 0;
    assert(fs.take(0) =~= Seq::<IndexFileView>::empty());
    while i < files.len()
        invariant
            i <= files@.len(),
            fs == file_views(files@),
            live_bytes(fs) <= u64::MAX,
            bytes == live_bytes(fs.take(i as int)),
            by_path@ == file_records(fs.take(i as int)),
        decreases files@.len() - i,
    {
        proof {
            assert(fs.take(i + 1).drop_last() =~= fs.take(i as int));
            assert(fs.take(i + 1).last() == files@[i as int]@);
            lemma_live_bytes_take(fs, i + 1);
        }
        let f = &files[i];
        if !f.tombstone {
            bytes = bytes + f.length;
        }
        match record_of_file(f) {
            Some(rec) => {
                let keep = match by_path.get(rec.path.as_str()) {
                    Some(old_rec) => (rec.deleted && !old_rec.deleted) || (old_rec.deleted
                        == rec.deleted && is_version_ge(old_rec.version, rec.version)),
                    None => false,
                };
                if !keep {
                    by_path.insert(rec.path.clone(), rec);
                }
            },
            None => {},
        }
        i += 1;
    }
    assert(fs.take(i as int) =~= fs);
    let ghost base = by_path@;
    let mut i: usize = 0;
    assert(ds.take(0) =~= Seq::<IndexDirectoryView>::empty());
    while i < directories.len()
        invariant
            i <= directories@.len(),
            ds == directory_views(directories@),
            by_path@ == all_records(base, ds.take(i as int)),
        decreases directories@.len() - i,
    {
        proof {
            assert(ds.take(i + 1).drop_last() =~= ds.take(i as int));
            assert(ds.take(i + 1).last() == directories@[i as int]@);
        }
        let d = &directories[i];
        let p: &str = d.path.as_str();
        if !(text::same(p, ".tapers") || text::starts_with(p, ".tapers/")) {
            let rec = record_of_directory(d);
            let keep = match by_path.get(rec.path.as_str()) {
                Some(old_rec) => !old_rec.deleted && is_version_ge(old_rec.version, rec.version),
                None => false,
            };
            if !keep {
                by_path.insert(rec.path.clone(), rec);
            }
        }
        i += 1;
    }
    assert(ds.take(i as int) =~= ds);
    let n = by_path.len();
    let ghost ks = strmap::sorted_keys(by_path@);
    let mut out: Vec<FileRec> = Vec::new();
    let mut i: usize = 0;
    while i < n
        invariant
            i <= n == ks.len(),
            ks == strmap::sorted_keys(by_path@),
            forall|j: int| 0 <= j < n ==> by_path@.contains_key(#[trigger] ks[j]),
            out@.len() == i,
            forall|j: int| 0 <= j < i ==> (#[trigger] out@[j])@ == by_path@[ks[j]],
        decreases n - i,
    {
        out.push(by_path.value_at(i).dup());
        i += 1;
    }
    assert(state::recs(out@) =~= in_order(by_path@));
    (out, bytes)
}

} // verus!
