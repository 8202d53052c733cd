//! What the index of a tape says of a path.
use vstd::prelude::*;

use crate::daemon::nodes;
use crate::daemon::nodes::{FileMetadataView, IndexDirectoryView, IndexFileView, Records, XattrView};
use crate::daemon::state::FileRecView;

verus! {

/// A file of the index has a record under its path from the root, with its length and its hash, and
/// is there. A tombstone has one under the path that it names, and that path is deleted; a
/// directory has one under its path, as a directory.
pub proof fn law_record_of_an_index_entry(f: IndexFileView, d: IndexDirectoryView)
    ensures
        !f.tombstone ==> (nodes::file_record(f) matches Some(r) && {
            &&& r.path == "/"@ + f.path && r.length == f.length && !r.deleted
            &&& r.sha256 == (match f.sha256 {
                Some(h) => h,
                None => Seq::empty(),
            })
            &&& r.version == nodes::version_of(f.xattrs)
            &&& !nodes::dir_kind(r.metadata)
            &&& f.symlink matches Some(t) ==> r.metadata.text_in("symlink"@) == Some(t)
        }),
        f.tombstone ==> {
            let named = nodes::xattr_value(f.xattrs, nodes::XATTR_DELETED_PATH@);
            &&& nodes::file_record(f) is Some <==> named is Some
            &&& nodes::file_record(f) matches Some(r) ==> {
                &&& r.path == named->0 && r.deleted && r.length == 0
                &&& r.version == nodes::version_of(f.xattrs)
                &&& nodes::dir_kind(r.metadata) <==> nodes::xattr_value(
                    f.xattrs,
                    nodes::XATTR_DELETED_KIND@,
                ) == Some("directory"@)
            }
        },
        ({
            let r = nodes::directory_record(d);
            &&& r.path == "/"@ + d.path && !r.deleted && r.length == 0
            &&& r.version == nodes::version_of(d.xattrs)
            &&& nodes::dir_kind(r.metadata)
        }),
{
    reveal_strlit("kind");
    reveal_strlit("symlink");
    reveal_strlit("modify_time");
    reveal_strlit("xattrs");
    reveal_strlit("node");
    reveal_strlit("directory");
    assert("kind"@.len() == 4 && "node"@.len() == 4);
    assert("kind"@[0] != "node"@[0]);
    assert("symlink"@.len() != "directory"@.len());
    assert("kind"@ != "symlink"@ && "kind"@ != "xattrs"@ && "kind"@ != "modify_time"@);
    assert("symlink"@ != "xattrs"@ && "symlink"@ != "modify_time"@);
}

proof fn lemma_xattrs_back(v: Seq<XattrView>)
    ensures
        nodes::xattrs_of(v.map_values(|x: XattrView| nodes::xattr_doc(x))) == Some(v),
    decreases v.len(),
{
    reveal_strlit("key");
    reveal_strlit("value");
    reveal_strlit("base64");
    assert("key"@.len() == 3 && "value"@.len() == 5 && "base64"@.len() == 6);
    let f = |x: XattrView| nodes::xattr_doc(x);
    if v.len() > 0 {
        let rest = v.drop_last();
        lemma_xattrs_back(rest);
        assert(v.map_values(f).drop_last() =~= rest.map_values(f));
        assert(nodes::xattr_of(nodes::xattr_doc(v.last())) == Some(v.last()));
        assert(rest.push(v.last()) =~= v);
    } else {
        assert(v =~= Seq::empty());
    }
}

/// The metadata of a directory is read back from its record as it was.
pub proof fn law_directory_metadata_is_read_back(d: IndexDirectoryView)
    ensures
        nodes::directory_metadata_of(nodes::directory_record(d).metadata) == Some(
            FileMetadataView { meta: Some(d.meta), xattrs: d.xattrs },
        ),
{
    reveal_strlit("kind");
    reveal_strlit("modify_time");
    reveal_strlit("xattrs");
    reveal_strlit("node");
    reveal_strlit("readonly");
    reveal_strlit("creation_time");
    reveal_strlit("change_time");
    reveal_strlit("access_time");
    reveal_strlit("backup_time");
    assert("kind"@[0] != "node"@[0]);
    assert("modify_time"@[0] == 'm' && "change_time"@[0] == 'c' && "access_time"@[0] == 'a'
        && "backup_time"@[0] == 'b');
    assert("readonly"@.len() == 8 && "creation_time"@.len() == 13);
    lemma_xattrs_back(d.xattrs);
    let j = nodes::directory_doc(d);
    let n = j.field("node"@)->0;
    assert(n.flag_in("readonly"@) == Some(d.meta.readonly));
    assert(n.text_in("creation_time"@) == Some(d.meta.creation_time));
    assert(n.text_in("change_time"@) == Some(d.meta.change_time));
    assert(n.text_in("modify_time"@) == Some(d.meta.modify_time));
    assert(n.text_in("access_time"@) == Some(d.meta.access_time));
    assert(n.text_in("backup_time"@) == Some(d.meta.backup_time));
}

/// The version is the first that counts, the round before the number.
pub open spec fn not_older(a: (u64, u64), b: (u64, u64)) -> bool {
    a.0 > b.0 || (a.0 == b.0 && a.1 >= b.1)
}

/// One record of a path is to be preferred to another: one that is there to a tombstone, else the
/// newer one.
pub open spec fn preferred(a: FileRecView, b: FileRecView) -> bool {
    if a.deleted == b.deleted {
        not_older(a.version, b.version)
    } else {
        !a.deleted
    }
}

proof fn lemma_files(fs: Seq<IndexFileView>, p: Seq<char>)
    ensures
        ({
            let m = nodes::file_records(fs);
            &&& m.contains_key(p) <==> exists|i: int|
                0 <= i < fs.len() && nodes::file_record(#[trigger] fs[i]) is Some
                    && nodes::file_record(fs[i])->0.path == p
            &&& m.contains_key(p) ==> m[p].path == p && exists|i: int|
                0 <= i < fs.len() && nodes::file_record(#[trigger] fs[i]) == Some(m[p])
            &&& forall|i: int|
                0 <= i < fs.len() && nodes::file_record(#[trigger] fs[i]) is Some
                    && nodes::file_record(fs[i])->0.path == p ==> preferred(
                    m[p],
                    nodes::file_record(fs[i])->0,
                )
        }),
    decreases fs.len(),
{
    if fs.len() > 0 {
        let rest = fs.drop_last();
        let n = fs.len() - 1;
        lemma_files(rest, p);
        assert(fs[n] == fs.last());
        assert(forall|i: int| 0 <= i < n ==> #[trigger] rest[i] == fs[i]);
        let was = nodes::file_records(rest);
        let m = nodes::file_records(fs);
        if was.contains_key(p) {
            let i = choose|i: int|
                0 <= i < rest.len() && nodes::file_record(#[trigger] rest[i]) == Some(was[p]);
            assert(nodes::file_record(fs[i]) == Some(was[p]));
        }
        if exists|i: int|
            0 <= i < fs.len() && nodes::file_record(#[trigger] fs[i]) is Some
                && nodes::file_record(fs[i])->0.path == p {
            let i = choose|i: int|
                0 <= i < fs.len() && nodes::file_record(#[trigger] fs[i]) is Some
                    && nodes::file_record(fs[i])->0.path == p;
            if i < n {
                assert(rest[i] == fs[i]);
            }
        }
        assert forall|i: int|
            0 <= i < fs.len() && nodes::file_record(#[trigger] fs[i]) is Some
                && nodes::file_record(fs[i])->0.path == p implies preferred(
            m[p],
            nodes::file_record(fs[i])->0,
        ) by {
            if i < n {
                assert(rest[i] == fs[i]);
                assert(preferred(was[p], nodes::file_record(rest[i])->0));
            }
        }
    }
}

proof fn lemma_directories(base: Records, ds: Seq<IndexDirectoryView>, p: Seq<char>)
    requires
        base.contains_key(p) ==> base[p].path == p,
    ensures
        ({
            let m = nodes::all_records(base, ds);
            &&& m.contains_key(p) <==> base.contains_key(p) || exists|i: int|
                0 <= i < ds.len() && !nodes::reserved((#[trigger] ds[i]).path) && "/"@ + ds[i].path
                    == p
            &&& m.contains_key(p) ==> m[p].path == p && ((base.contains_key(p) && m[p] == base[p])
                || exists|i: int|
                0 <= i < ds.len() && !nodes::reserved((#[trigger] ds[i]).path)
                    && nodes::directory_record(ds[i]) == m[p])
            &&& base.contains_key(p) ==> preferred(m[p], base[p])
            &&& forall|i: int|
                0 <= i < ds.len() && !nodes::reserved((#[trigger] ds[i]).path) && "/"@ + ds[i].path
                    == p ==> preferred(m[p], nodes::directory_record(ds[i]))
        }),
    decreases ds.len(),
{
    if ds.len() > 0 {
        let rest = ds.drop_last();
        let n = ds.len() - 1;
        lemma_directories(base, rest, p);
        assert(ds[n] == ds.last());
        assert(forall|i: int| 0 <= i < n ==> #[trigger] rest[i] == ds[i]);
        let was = nodes::all_records(base, rest);
        let m = nodes::all_records(base, ds);
        if exists|i: int|
            0 <= i < rest.len() && !nodes::reserved((#[trigger] rest[i]).path) && "/"@
                + rest[i].path == p {
            let i = choose|i: int|
                0 <= i < rest.len() && !nodes::reserved((#[trigger] rest[i]).path) && "/"@
                    + rest[i].path == p;
            assert(ds[i] == rest[i]);
        }
        if exists|i: int|
            0 <= i < ds.len() && !nodes::reserved((#[trigger] ds[i]).path) && "/"@ + ds[i].path
                == p {
            let i = choose|i: int|
                0 <= i < ds.len() && !nodes::reserved((#[trigger] ds[i]).path) && "/"@
                    + ds[i].path == p;
            if i < n {
                assert(ds[i] == rest[i]);
            }
        }
        if was.contains_key(p) && !(base.contains_key(p) && was[p] == base[p]) {
            let i = choose|i: int|
                0 <= i < rest.len() && !nodes::reserved((#[trigger] rest[i]).path)
                    && nodes::directory_record(rest[i]) == was[p];
            assert(ds[i] == rest[i]);
        }
        assert forall|i: int|
            0 <= i < ds.len() && !nodes::reserved((#[trigger] ds[i]).path) && "/"@ + ds[i].path
                == p implies preferred(m[p], nodes::directory_record(ds[i])) by {
            if i < n {
                assert(rest[i] == ds[i]);
            }
        }
    }
}

/// The index of a tape gives a record for just the paths that it names: those of its files, those
/// that its tombstones name, and those of its directories but for the reserved ones. Each record is
/// one of those that the index has of the path, and none of them is to be preferred to it: what is
/// there counts before a tombstone, and what is newer before what is older.
pub proof fn law_index_gives_the_records(
    fs: Seq<IndexFileView>,
    ds: Seq<IndexDirectoryView>,
    p: Seq<char>,
)
    ensures
        ({
            let m = nodes::all_records(nodes::file_records(fs), ds);
            let by_file = exists|i: int|
                0 <= i < fs.len() && nodes::file_record(#[trigger] fs[i]) is Some
                    && nodes::file_record(fs[i])->0.path == p;
            let by_directory = exists|i: int|
                0 <= i < ds.len() && !nodes::reserved((#[trigger] ds[i]).path) && "/"@ + ds[i].path
                    == p;
            &&& m.contains_key(p) <==> by_file || by_directory
            &&& m.contains_key(p) ==> {
                &&& m[p].path == p
                &&& (exists|i: int|
                    0 <= i < fs.len() && nodes::file_record(#[trigger] fs[i]) == Some(m[p])) || (
                exists|i: int|
                    0 <= i < ds.len() && !nodes::reserved((#[trigger] ds[i]).path)
                        && nodes::directory_record(ds[i]) == m[p])
                &&& forall|i: int|
                    0 <= i < fs.len() && nodes::file_record(#[trigger] fs[i]) is Some
                        && nodes::file_record(fs[i])->0.path == p ==> preferred(
                        m[p],
                        nodes::file_record(fs[i])->0,
                    )
                &&& forall|i: int|
                    0 <= i < ds.len() && !nodes::reserved((#[trigger] ds[i]).path) && "/"@
                        + ds[i].path == p ==> preferred(m[p], nodes::directory_record(ds[i]))
            }
        }),
{
    let base = nodes::file_records(fs);
    lemma_files(fs, p);
    lemma_directories(base, ds, p);
}

/// The bytes that a tape holds are those of its files; tombstones count nothing.
pub proof fn law_live_bytes_are_summed(fs: Seq<IndexFileView>, f: IndexFileView)
    ensures
        nodes::live_bytes(Seq::empty()) == 0,
        nodes::live_bytes(fs.push(f)) == nodes::live_bytes(fs) + (if f.tombstone {
            0
        } else {
            f.length as int
        }),
{
    assert(fs.push(f).drop_last() =~= fs);
}

} // verus!
