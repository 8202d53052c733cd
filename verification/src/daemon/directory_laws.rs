//! What the commands of the log come to in the directory.
use vstd::prelude::*;

use crate::daemon::directory;
use crate::daemon::directory::{DirectoryView, Key, Rows, StagedView, TapeEntryView};
use crate::daemon::state::{AppliedView, CommandView, FileRecView, PoolView, SummaryView};
use crate::strmap;

verus! {

proof fn lemma_unstaged(staging: Seq<StagedView>, barcode: Seq<char>, generation: u64, s: StagedView)
    ensures
        directory::unstaged(staging, barcode, generation).contains(s) <==> staging.contains(s) && !(s.barcode
            == barcode && s.generation <= generation),
    decreases staging.len(),
{
    if staging.len() > 0 {
        let prev = staging.drop_last();
        let last = staging.last();
        let rest = directory::unstaged(prev, barcode, generation);
        lemma_unstaged(prev, barcode, generation, s);
        assert(staging =~= prev.push(last));
        assert(staging.contains(s) <==> prev.contains(s) || s == last) by {
            if prev.contains(s) {
                let i = choose|i: int| 0 <= i < prev.len() && prev[i] == s;
                assert(staging[i] == s);
            }
            assert(staging[staging.len() - 1] == last);
        }
        assert(rest.push(last).contains(s) <==> rest.contains(s) || s == last) by {
            if rest.contains(s) {
                let i = choose|i: int| 0 <= i < rest.len() && rest[i] == s;
                assert(rest.push(last)[i] == s);
            }
            assert(rest.push(last)[rest.len() as int] == last);
        }
    }
}

/// The parts of a commit that count as arrived are those of its staged records.
pub proof fn law_arrived_parts(
    staging: Seq<StagedView>,
    barcode: Seq<char>,
    generation: u64,
    part: u32,
)
    ensures
        directory::parts_of(staging, barcode, generation).contains(part) <==> exists|i: int|
            0 <= i < staging.len() && (#[trigger] staging[i]).barcode == barcode
                && staging[i].generation == generation && staging[i].part == part,
    decreases staging.len(),
{
    if staging.len() > 0 {
        let prev = staging.drop_last();
        law_arrived_parts(prev, barcode, generation, part);
        if exists|i: int|
            0 <= i < prev.len() && (#[trigger] prev[i]).barcode == barcode && prev[i].generation
                == generation && prev[i].part == part {
            let i = choose|i: int|
                0 <= i < prev.len() && (#[trigger] prev[i]).barcode == barcode
                    && prev[i].generation == generation && prev[i].part == part;
            assert(staging[i] == prev[i]);
        }
        if exists|i: int|
            0 <= i < staging.len() && (#[trigger] staging[i]).barcode == barcode
                && staging[i].generation == generation && staging[i].part == part {
            let i = choose|i: int|
                0 <= i < staging.len() && (#[trigger] staging[i]).barcode == barcode
                    && staging[i].generation == generation && staging[i].part == part;
            if i < prev.len() {
                assert(prev[i] == staging[i]);
            }
        }
        assert(staging[staging.len() - 1] == staging.last());
    }
}

/// When a reclaimed tape is taken in, just the rows on it go: every row on another tape is there
/// as it was, and so is every staged record of another tape. The tape stays in its pool, empty and
/// in its first generation; pools and other tapes are as they were.
pub proof fn law_reclaim_takes_only_its_tape(
    d: DirectoryView,
    index: u64,
    barcode: Seq<char>,
    volume_uuid: Seq<char>,
)
    requires
        d.applied < index,
    ensures
        ({
            let cmd = CommandView::TapeReclaimed { barcode, volume_uuid };
            let e = d.applied(index, cmd, AppliedView::Reclaimed)->0;
            &&& d.applied(index, cmd, AppliedView::Reclaimed) is Some
            &&& forall|k: Key| #[trigger]
                e.files.contains_key(k) <==> d.files.contains_key(k) && d.files[k].barcode != barcode
            &&& forall|k: Key| #[trigger] e.files.contains_key(k) ==> e.files[k] == d.files[k]
            &&& forall|s: StagedView| #[trigger]
                e.staging.contains(s) <==> d.staging.contains(s) && s.barcode != barcode
            &&& e.pools == d.pools
            &&& e.tapes.dom() == d.tapes.dom()
            &&& forall|b: Seq<char>| #[trigger]
                d.tapes.contains_key(b) && b != barcode ==> e.tapes[b] == d.tapes[b]
            &&& d.tapes.contains_key(barcode) ==> {
                &&& e.tapes[barcode].pool_uuid == d.tapes[barcode].pool_uuid
                &&& e.tapes[barcode].summary.volume_uuid == volume_uuid
                &&& e.tapes[barcode].summary.generation == 1
                &&& e.tapes[barcode].summary.files == 0
                &&& e.tapes[barcode].summary.bytes_used == 0
                &&& e.tapes[barcode].summary.bytes_written == 0
            }
            &&& e.applied == index
        }),
{
    let e = d.reclaimed(barcode, volume_uuid);
    assert forall|s: StagedView| #[trigger] e.staging.contains(s) <==> d.staging.contains(s)
        && s.barcode != barcode by {
        lemma_unstaged(d.staging, barcode, u64::MAX, s);
    }
    assert(e.tapes.dom() =~= d.tapes.dom());
}

/// A commit of this tape and generation has staged nothing for the path.
pub open spec fn not_staged(
    staging: Seq<StagedView>,
    barcode: Seq<char>,
    generation: u64,
    path: Seq<char>,
) -> bool {
    forall|i: int|
        0 <= i < staging.len() && (#[trigger] staging[i]).file is Some && staging[i].barcode
            == barcode && staging[i].generation == generation ==> staging[i].file->0.path != path
}

proof fn lemma_merged_other(
    rows: Rows,
    staging: Seq<StagedView>,
    barcode: Seq<char>,
    generation: u64,
    pool: Seq<char>,
    k: Key,
)
    requires
        k.0 != pool || not_staged(staging, barcode, generation, k.1),
    ensures
        directory::merged(rows, staging, barcode, generation, pool).contains_key(k) <==> rows.contains_key(k),
        rows.contains_key(k) ==> directory::merged(rows, staging, barcode, generation, pool)[k] == rows[k],
    decreases staging.len(),
{
    if staging.len() > 0 {
        let prev = staging.drop_last();
        if k.0 == pool {
            assert forall|i: int|
                0 <= i < prev.len() && (#[trigger] prev[i]).file is Some && prev[i].barcode
                    == barcode && prev[i].generation == generation implies prev[i].file->0.path
                != k.1 by {
                assert(staging[i] == prev[i]);
            }
            assert(staging[staging.len() - 1] == staging.last());
        }
        lemma_merged_other(rows, prev, barcode, generation, pool, k);
    }
}

proof fn lemma_staged_at(
    staging: Seq<StagedView>,
    barcode: Seq<char>,
    generation: u64,
    i: int,
)
    requires
        directory::once_each(staging, barcode, generation),
        0 <= i < staging.len(),
        staging[i].barcode == barcode,
        staging[i].generation == generation,
        staging[i].file is Some,
    ensures
        directory::staged_file(staging, barcode, generation, staging[i].file->0.path) == staging[i].file,
    decreases staging.len(),
{
    let prev = staging.drop_last();
    if i < prev.len() {
        assert(directory::once_each(prev, barcode, generation)) by {
            assert forall|a: int, b: int|
                0 <= a < b < prev.len() && (#[trigger] prev[a]).file is Some && (
                #[trigger] prev[b]).file is Some && prev[a].barcode == barcode && prev[b].barcode
                    == barcode && prev[a].generation == generation && prev[b].generation
                    == generation implies prev[a].file->0.path != prev[b].file->0.path by {
                assert(staging[a] == prev[a] && staging[b] == prev[b]);
            }
        }
        assert(prev[i] == staging[i]);
        lemma_staged_at(prev, barcode, generation, i);
        assert(staging[staging.len() - 1] == staging.last());
    }
}

/// When a commit whose parts are all there is taken in, each of its records is found under its
/// path in the pool of the tape, with the tape, the generation and all that the record says. Only
/// where another tape has a record of that path with the same or a newer version does that one
/// stay. The tape has the numbers of the commit.
pub proof fn law_commit_brings_its_records(
    d: DirectoryView,
    index: u64,
    barcode: Seq<char>,
    summary: SummaryView,
    parts: u32,
    full: bool,
    i: int,
)
    requires
        d.applied < index,
        d.tapes.contains_key(barcode),
        directory::parts_of(d.staging, barcode, summary.generation).len() == parts,
        directory::once_each(d.staging, barcode, summary.generation),
        0 <= i < d.staging.len(),
        d.staging[i].barcode == barcode,
        d.staging[i].generation == summary.generation,
        d.staging[i].file is Some,
    ensures
        ({
            let cmd = CommandView::TapeCommitted {
                barcode,
                volume_uuid: summary.volume_uuid,
                generation: summary.generation,
                files: summary.files,
                bytes_used: summary.bytes_used,
                bytes_written: summary.bytes_written,
                parts,
                full,
            };
            let f = d.staging[i].file->0;
            let k = (d.tapes[barcode].pool_uuid, f.path);
            let e = d.applied(index, cmd, AppliedView::CatalogCommitted)->0;
            let was = d.files[k];
            let row = e.files[k];
            &&& d.applied(index, cmd, AppliedView::CatalogCommitted) is Some
            &&& e.files.contains_key(k)
            &&& if d.files.contains_key(k) && was.barcode != barcode && (was.version.0
                > f.version.0 || (was.version.0 == f.version.0 && was.version.1 >= f.version.1)) {
                row == was
            } else {
                &&& row.barcode == barcode
                &&& row.generation == summary.generation
                &&& row.length == f.length
                &&& row.sha256 == f.sha256
                &&& row.version == f.version
                &&& row.deleted == f.deleted
                &&& row.metadata == f.metadata
            }
            &&& e.tapes[barcode] == (TapeEntryView { summary, ..d.tapes[barcode] })
        }),
{
    let g = summary.generation;
    let pool = d.tapes[barcode].pool_uuid;
    let f = d.staging[i].file->0;
    let base = if full {
        directory::rows_off(d.files, barcode)
    } else {
        d.files
    };
    lemma_staged_at(d.staging, barcode, g, i);
    directory::law_merge_by_version(base, d.staging, barcode, g, pool, f.path);
}

/// A commit that is taken in leaves the rows of other pools and of paths that it does not name,
/// and all other tapes and pools. Only where it is all that the tape holds do the rows on the tape
/// go that it does not name. Of what is staged, just what the tape had staged up to this
/// generation goes.
pub proof fn law_commit_leaves_the_rest(
    d: DirectoryView,
    index: u64,
    barcode: Seq<char>,
    summary: SummaryView,
    parts: u32,
    full: bool,
    k: Key,
)
    requires
        d.applied < index,
        d.tapes.contains_key(barcode),
        k.0 != d.tapes[barcode].pool_uuid || not_staged(
            d.staging,
            barcode,
            summary.generation,
            k.1,
        ),
    ensures
        ({
            let cmd = CommandView::TapeCommitted {
                barcode,
                volume_uuid: summary.volume_uuid,
                generation: summary.generation,
                files: summary.files,
                bytes_used: summary.bytes_used,
                bytes_written: summary.bytes_written,
                parts,
                full,
            };
            let whole = directory::parts_of(d.staging, barcode, summary.generation).len() == parts;
            let e = d.applied(index, cmd, AppliedView::CatalogCommitted)->0;
            &&& d.applied(index, cmd, AppliedView::CatalogCommitted) is Some
            &&& e.files.contains_key(k) <==> d.files.contains_key(k) && !(whole && full
                && d.files[k].barcode == barcode)
            &&& e.files.contains_key(k) ==> e.files[k] == d.files[k]
            &&& e.pools == d.pools
            &&& e.tapes.dom() == d.tapes.dom()
            &&& forall|b: Seq<char>| #[trigger]
                d.tapes.contains_key(b) && b != barcode ==> e.tapes[b] == d.tapes[b]
            &&& forall|s: StagedView| #[trigger]
                e.staging.contains(s) <==> d.staging.contains(s) && !(s.barcode == barcode
                    && s.generation <= summary.generation)
            &&& e.applied == index
        }),
{
    let g = summary.generation;
    let pool = d.tapes[barcode].pool_uuid;
    let base = if full {
        directory::rows_off(d.files, barcode)
    } else {
        d.files
    };
    lemma_merged_other(base, d.staging, barcode, g, pool, k);
    let e = d.committed(barcode, summary, parts, full);
    assert(e.tapes.dom() =~= d.tapes.dom());
    assert forall|s: StagedView| #[trigger] e.staging.contains(s) <==> d.staging.contains(s) && !(
    s.barcode == barcode && s.generation <= g) by {
        lemma_unstaged(d.staging, barcode, g, s);
    }
}

/// Each record of a part is staged with the tape, the generation and the number of the part, in
/// its order, behind what was staged before; an empty part leaves one mark. Nothing else changes.
pub proof fn law_part_is_staged(
    d: DirectoryView,
    index: u64,
    barcode: Seq<char>,
    generation: u64,
    part: u32,
    files: Seq<FileRecView>,
    out: AppliedView,
)
    requires
        d.applied < index,
    ensures
        ({
            let cmd = CommandView::CatalogPart { barcode, generation, part, files };
            let e = d.applied(index, cmd, out)->0;
            let n = d.staging.len();
            &&& d.applied(index, cmd, out) is Some
            &&& e.staging.len() == n + (if files.len() == 0 {
                1
            } else {
                files.len()
            })
            &&& forall|i: int| 0 <= i < n ==> #[trigger] e.staging[i] == d.staging[i]
            &&& forall|i: int|
                n <= i < e.staging.len() ==> {
                    &&& (#[trigger] e.staging[i]).barcode == barcode
                    &&& e.staging[i].generation == generation
                    &&& e.staging[i].part == part
                    &&& e.staging[i].file == (if files.len() == 0 {
                        None
                    } else {
                        Some(files[i - n])
                    })
                }
            &&& e.files == d.files
            &&& e.tapes == d.tapes
            &&& e.pools == d.pools
            &&& e.applied == index
        }),
{
}

/// An accepted assignment puts just this tape into the pool that is named, by its identifier or its
/// name, with no commit yet; an accepted release takes just this tape out. The rows stay.
pub proof fn law_assignment_is_of_one_tape(
    d: DirectoryView,
    index: u64,
    barcode: Seq<char>,
    pool: Seq<char>,
    done: Seq<char>,
)
    requires
        d.applied < index,
    ensures
        ({
            let out = AppliedView::Admin(Ok(done));
            let a = d.applied(index, CommandView::TapeAssign { barcode, pool }, out);
            let b = d.applied(index, CommandView::TapeUnassign { barcode }, out);
            &&& a matches Some(e) ==> {
                let uuid = e.tapes[barcode].pool_uuid;
                &&& e.tapes.contains_key(barcode)
                &&& if d.pools.contains_key(pool) {
                    uuid == pool
                } else {
                    d.pools.dom().finite() ==> d.pools.contains_key(uuid) && d.pools[uuid].name
                        == pool
                }
                &&& e.tapes[barcode].summary.generation == 0
                &&& e.tapes[barcode].summary.files == 0
                &&& e.tapes.remove(barcode) == d.tapes.remove(barcode)
                &&& e.files == d.files && e.pools == d.pools && e.staging == d.staging
                &&& e.applied == index
            }
            &&& b is Some && !b->0.tapes.contains_key(barcode)
            &&& b->0.tapes == d.tapes.remove(barcode)
            &&& b->0.files == d.files && b->0.pools == d.pools && b->0.staging == d.staging
            &&& b->0.applied == index
        }),
{
    if !d.pools.contains_key(pool) && d.pools.dom().finite() {
        let keys = strmap::sorted_keys(d.pools);
        strmap::lemma_sorted_keys_list(d.pools);
        assert forall|i: int| 0 <= i < keys.len() implies d.pools.contains_key(
            #[trigger] keys[i],
        ) by {
            assert(keys.contains(keys[i]));
        }
        lemma_named_is_there(keys, d.pools, pool);
    }
    match d.resolved(pool) {
        Some(uuid) => {
            let t = TapeEntryView { pool_uuid: uuid, summary: directory::no_commit() };
            assert(d.tapes.insert(barcode, t).remove(barcode) =~= d.tapes.remove(barcode));
        },
        None => {},
    }
}

proof fn lemma_named_is_there(
    keys: Seq<Seq<char>>,
    pools: Map<Seq<char>, PoolView>,
    name: Seq<char>,
)
    requires
        forall|i: int| 0 <= i < keys.len() ==> pools.contains_key(#[trigger] keys[i]),
    ensures
        directory::named(keys, pools, name) matches Some(u) ==> pools.contains_key(u) && pools[u].name == name,
    decreases keys.len(),
{
    if keys.len() > 0 {
        assert forall|i: int| 0 <= i < keys.drop_first().len() implies pools.contains_key(
            #[trigger] keys.drop_first()[i],
        ) by {
            assert(keys.drop_first()[i] == keys[i + 1]);
        }
        lemma_named_is_there(keys.drop_first(), pools, name);
    }
}

/// An accepted pool is there under its identifier with its name and limit, no other pool has its
/// name, and every other pool is as it was.
pub proof fn law_pool_is_created(
    d: DirectoryView,
    index: u64,
    uuid: Seq<char>,
    name: Seq<char>,
    file_limit: u64,
    done: Seq<char>,
    u: Seq<char>,
)
    requires
        d.applied < index,
    ensures
        ({
            let cmd = CommandView::PoolCreate { uuid, name, file_limit };
            let e = d.applied(index, cmd, AppliedView::Admin(Ok(done)))->0;
            &&& d.applied(index, cmd, AppliedView::Admin(Ok(done))) is Some
            &&& e.pools.contains_key(uuid)
            &&& e.pools[uuid].name == name && e.pools[uuid].file_limit == file_limit
            &&& u != uuid ==> (e.pools.contains_key(u) <==> d.pools.contains_key(u)
                && d.pools[u].name != name)
            &&& u != uuid && e.pools.contains_key(u) ==> e.pools[u] == d.pools[u]
            &&& e.files == d.files && e.tapes == d.tapes && e.staging == d.staging
            &&& e.applied == index
        }),
{
}

} // verus!
