//! What the rows of an index come to.
use vstd::prelude::*;

use crate::catalog::sync;
use crate::catalog::sync::{CatalogFileView, ExtentInsert};

verus! {

/// How many extents the files have.
pub open spec fn extents_in(v: Seq<CatalogFileView>) -> nat
    decreases v.len(),
{
    if v.len() == 0 {
        0
    } else {
        extents_in(v.skip(1)) + v[0].extents.len()
    }
}

proof fn lemma_extents_in(v: Seq<CatalogFileView>, f: CatalogFileView)
    ensures
        extents_in(v.push(f)) == extents_in(v) + f.extents.len(),
    decreases v.len(),
{
    if v.len() == 0 {
        assert(v.push(f).skip(1) =~= v);
    } else {
        assert(v.push(f).skip(1) =~= v.skip(1).push(f));
        lemma_extents_in(v.skip(1), f);
    }
}

/// Every extent of every file gets a row, behind those of the files before it and in its place in
/// the file, under the identifier of its file; there are no other rows.
pub proof fn law_every_extent_gets_a_row(v: Seq<CatalogFileView>, i: int, k: int)
    requires
        0 <= i < v.len(),
        0 <= k < v[i].extents.len(),
        k <= u64::MAX,
    ensures
        sync::all_extent_rows(v).len() == extents_in(v),
        extents_in(v.take(i)) + k < extents_in(v),
        ({
            let row = sync::all_extent_rows(v)[extents_in(v.take(i)) + k];
            &&& row.file_uid == v[i].file_uid
            &&& row.seq == k
            &&& row.extent == v[i].extents[k]
        }),
    decreases v.len(),
{
    lemma_count(v);
    let prev = v.drop_last();
    lemma_count(prev);
    assert(prev.push(v.last()) =~= v);
    lemma_extents_in(prev, v.last());
    if i < prev.len() {
        law_every_extent_gets_a_row(prev, i, k);
        assert(v.take(i) =~= prev.take(i));
    } else {
        assert(v.take(i) =~= prev);
    }
}

proof fn lemma_count(v: Seq<CatalogFileView>)
    ensures
        sync::all_extent_rows(v).len() == extents_in(v),
    decreases v.len(),
{
    if v.len() > 0 {
        lemma_count(v.drop_last());
        assert(v.drop_last().push(v.last()) =~= v);
        lemma_extents_in(v.drop_last(), v.last());
    }
}

/// The row of a file is about that file; a time that is not known is none.
pub proof fn law_row_is_of_the_file(f: CatalogFileView)
    ensures
        ({
            let r = sync::file_row(f);
            &&& r.file_uid == f.file_uid && r.path == f.path && r.size == f.length
            &&& r.readonly == f.readonly
            &&& f.modify_time.len() > 0 ==> r.mtime == Some(f.modify_time)
            &&& f.creation_time.len() > 0 ==> r.ctime == Some(f.creation_time)
            &&& f.modify_time.len() == 0 ==> r.mtime is None
            &&& f.creation_time.len() == 0 ==> r.ctime is None
        }),
{
}

} // verus!
