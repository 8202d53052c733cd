//! What tapes hold, what has to leave them, and what new versions take over.
use vstd::prelude::*;

use crate::daemon::directory;
use crate::daemon::directory::{Key, RowView, Rows};
use crate::daemon::files;
use crate::daemon::files::StatView;
use crate::daemon::library;
use crate::daemon::library::{DriveView, InventoryView};
use crate::daemon::nodes;
use crate::daemon::nodes::IndexDirectoryView;
use crate::daemon::reclaim;
use crate::daemon::reclaim::AsideView;
use crate::daemon::state::ControlView;
use crate::daemon::status;
use crate::daemon::tape_state;
use crate::daemon::write_tape::TapeSearchView;

verus! {

/// The directories of an index that must have a place elsewhere are just those outside of what is
/// reserved, by their paths from the root.
pub proof fn law_directories_that_need_a_place(dirs: Seq<IndexDirectoryView>, p: Seq<char>)
    ensures
        reclaim::directories_to_place(dirs).contains(p) <==> exists|i: int|
            0 <= i < dirs.len() && p == "/"@ + (#[trigger] dirs[i]).path && !nodes::reserved(
                dirs[i].path,
            ),
    decreases dirs.len(),
{
    if dirs.len() > 0 {
        let prev = dirs.drop_last();
        let last = dirs.last();
        let v = reclaim::directories_to_place(prev);
        let x = "/"@ + last.path;
        law_directories_that_need_a_place(prev, p);
        assert(dirs[dirs.len() - 1] == last);
        assert(v.push(x).contains(p) <==> v.contains(p) || p == x) by {
            if v.contains(p) {
                let i = choose|i: int| 0 <= i < v.len() && v[i] == p;
                assert(v.push(x)[i] == p);
            }
            assert(v.push(x)[v.len() as int] == x);
        }
        if v.contains(p) {
            let i = choose|i: int|
                0 <= i < prev.len() && p == "/"@ + (#[trigger] prev[i]).path && !nodes::reserved(
                    prev[i].path,
                );
            assert(dirs[i] == prev[i]);
        }
        if exists|i: int|
            0 <= i < dirs.len() && p == "/"@ + (#[trigger] dirs[i]).path && !nodes::reserved(
                dirs[i].path,
            ) {
            let i = choose|i: int|
                0 <= i < dirs.len() && p == "/"@ + (#[trigger] dirs[i]).path && !nodes::reserved(
                    dirs[i].path,
                );
            if i < prev.len() {
                assert(prev[i] == dirs[i]);
            }
        }
    } else {
        assert(reclaim::directories_to_place(dirs).len() == 0);
    }
}

/// A tape that is reclaimed is taken where it is, unless it is the one that is written; one that is
/// in no drive is loaded, and where no drive is free besides the one that is written the tape for
/// reading leaves its drive first.
pub proof fn law_tape_is_had_aside(
    inv: InventoryView,
    barcode: Seq<char>,
    writing: Option<usize>,
    read: Option<usize>,
    k: int,
)
    ensures
        ({
            let a = reclaim::aside_of(inv, barcode, writing, read);
            let held = 0 <= k < inv.drives.len() && inv.drives[k].holds(barcode) && forall|j: int|
                0 <= j < k ==> !(#[trigger] inv.drives[j]).holds(barcode);
            let nowhere = forall|j: int|
                0 <= j < inv.drives.len() ==> !(#[trigger] inv.drives[j]).holds(barcode);
            let free = exists|j: int|
                0 <= j < inv.drives.len() && (#[trigger] inv.drives[j]).loaded is None && Some(
                    inv.drives[j].dev,
                ) != writing;
            let reads = read is Some && exists|j: int|
                0 <= j < inv.drives.len() && (#[trigger] inv.drives[j]).dev == read->0;
            &&& held && Some(inv.drives[k].dev) != writing ==> a == AsideView::There {
                dev: inv.drives[k].dev,
            }
            &&& held && Some(inv.drives[k].dev) == writing ==> a is Fail
            &&& nowhere && (free || !reads) ==> a is Load
            &&& nowhere && !free && reads && inv.drives.len() <= usize::MAX ==> (
            a matches AsideView::Clear { drive } && drive < inv.drives.len()
                && inv.drives[drive as int].dev == read->0)
        }),
{
    let f = |d: DriveView| d.holds(barcode);
    let g = |d: DriveView| d.loaded is None && Some(d.dev) != writing;
    library::lemma_first_drive(inv.drives, f);
    library::lemma_first_drive(inv.drives, g);
    let at = inv.drive_with(barcode) as int;
    let free_at = inv.free_drive_but(writing) as int;
    if at < inv.drives.len() {
        assert(f(inv.drives[at]));
        assert(inv.drives[at].holds(barcode));
    }
    assert forall|j: int| 0 <= j < at implies !(#[trigger] inv.drives[j]).holds(barcode) by {
        assert(!f(inv.drives[j]));
    }
    if free_at < inv.drives.len() {
        assert(g(inv.drives[free_at]));
    }
    assert forall|j: int| 0 <= j < free_at implies !((#[trigger] inv.drives[j]).loaded is None
        && Some(inv.drives[j].dev) != writing) by {
        assert(!g(inv.drives[j]));
    }
    if read is Some {
        let h = |d: DriveView| d.dev == read->0;
        library::lemma_first_drive(inv.drives, h);
        let r = inv.drive_of(read->0) as int;
        if r < inv.drives.len() {
            assert(h(inv.drives[r]));
        }
        assert forall|j: int| 0 <= j < r implies (#[trigger] inv.drives[j]).dev != read->0 by {
            assert(!h(inv.drives[j]));
        }
    }
}

/// A new version of a file that is there takes over its attributes, all of them and nothing else;
/// where these cannot be known it is refused, and a file that is not there has none to take over.
pub proof fn law_new_version_takes_over_the_attributes(current: Option<StatView>)
    ensures
        current is None ==> files::carried_over(current) matches Ok(None),
        current matches Some(st) ==> {
            let listed = st.metadata.list_in("xattrs"@);
            let known = listed is Some && nodes::xattrs_of(listed->0) is Some;
            &&& files::carried_over(current) is Ok <==> known
            &&& files::carried_over(current) matches Ok(m) ==> m is Some && m->0.meta is None
                && Some(m->0.xattrs) == nodes::xattrs_of(listed->0)
        },
{
}

/// What is live on a tape grows by the length of each row that comes to it, and by none that comes
/// to another.
pub proof fn law_live_bytes_are_those_of_the_rows(
    rows: Rows,
    k: Key,
    row: RowView,
    barcode: Seq<char>,
)
    requires
        rows.dom().finite(),
        !rows.contains_key(k),
    ensures
        ({
            let before = directory::rows_on(rows, barcode);
            let after = directory::rows_on(rows.insert(k, row), barcode);
            &&& row.barcode == barcode ==> directory::total_length(after)
                == directory::total_length(before) + row.length && after.dom().len()
                == before.dom().len() + 1
            &&& row.barcode != barcode ==> after == before
            &&& directory::total_length(Map::empty()) == 0
        }),
{
    let before = directory::rows_on(rows, barcode);
    let after = directory::rows_on(rows.insert(k, row), barcode);
    assert(before.dom().subset_of(rows.dom()));
    vstd::set_lib::lemma_len_subset(before.dom(), rows.dom());
    if row.barcode == barcode {
        assert(after =~= before.insert(k, row));
        lemma_total(after, k);
        assert(after.remove(k) =~= before);
        assert(after.dom() =~= before.dom().insert(k));
    } else {
        assert(after =~= before);
    }
}

proof fn lemma_total(rows: Rows, k: Key)
    requires
        rows.dom().finite(),
        rows.contains_key(k),
    ensures
        directory::total_length(rows) == rows[k].length + directory::total_length(rows.remove(k)),
    decreases rows.dom().len(),
{
    let c = rows.dom().choose();
    assert(rows.dom().contains(k));
    if c != k {
        lemma_total(rows.remove(c), k);
        lemma_total(rows.remove(k), c);
        assert(rows.remove(c).remove(k) =~= rows.remove(k).remove(c));
    }
}

proof fn lemma_repeated(keys: Seq<Seq<char>>, m: Map<Seq<char>, u64>, p: Seq<char>)
    ensures
        directory::repeated(keys, m).contains(p) <==> keys.contains(p) && m[p] > 0,
    decreases keys.len(),
{
    if keys.len() > 0 {
        let prev = keys.drop_last();
        let last = keys.last();
        let head = directory::repeated(prev, m);
        let tail = Seq::new(m[last] as nat, |i: int| last);
        lemma_repeated(prev, m, p);
        assert(keys[keys.len() - 1] == last);
        assert(keys.contains(p) <==> prev.contains(p) || p == last) by {
            if prev.contains(p) {
                let i = choose|i: int| 0 <= i < prev.len() && prev[i] == p;
                assert(keys[i] == p);
            }
            if keys.contains(p) && p != last {
                let i = choose|i: int| 0 <= i < keys.len() && keys[i] == p;
                assert(prev[i] == p);
            }
        }
        assert((head + tail).contains(p) <==> head.contains(p) || (p == last && m[last] > 0)) by {
            if head.contains(p) {
                let i = choose|i: int| 0 <= i < head.len() && head[i] == p;
                assert((head + tail)[i] == p);
            }
            if m[last] > 0 {
                assert((head + tail)[head.len() as int] == last);
            }
            if (head + tail).contains(p) {
                let i = choose|i: int| 0 <= i < (head + tail).len() && (head + tail)[i] == p;
                if i < head.len() {
                    assert(head[i] == p);
                }
            }
        }
    } else {
        assert(directory::repeated(keys, m).len() == 0);
    }
}

/// A path is listed for a tape just where some pool has a row of it there, as often as pools have.
pub proof fn law_paths_of_a_tape(
    rows: Rows,
    barcode: Seq<char>,
    keys: Seq<Seq<char>>,
    p: Seq<char>,
)
    requires
        rows.dom().finite(),
        rows.dom().len() <= u64::MAX,
        ({
            let m = directory::path_counts(directory::rows_on(rows, barcode));
            forall|x: Seq<char>| #[trigger] keys.contains(x) <==> m.contains_key(x)
        }),
    ensures
        ({
            let m = directory::path_counts(directory::rows_on(rows, barcode));
            directory::repeated(keys, m).contains(p) <==> exists|u: Seq<char>| #[trigger]
                rows.contains_key((u, p)) && rows[(u, p)].barcode == barcode
        }),
{
    let here = directory::rows_on(rows, barcode);
    let m = directory::path_counts(here);
    lemma_repeated(keys, m, p);
    let pools = directory::pools_of(here, p);
    let of_path = pools.map(|u: Seq<char>| (u, p));
    assert(keys.contains(p) <==> m.contains_key(p));
    if m.contains_key(p) {
        let u = choose|u: Seq<char>| here.contains_key((u, p));
        assert(here.contains_key((u, p)));
        assert(rows.contains_key((u, p)) && rows[(u, p)].barcode == barcode);
        let back = rows.dom().map(|k: Key| k.0);
        rows.dom().lemma_map_finite(|k: Key| k.0);
        assert(pools.subset_of(back)) by {
            assert forall|x: Seq<char>| pools.contains(x) implies #[trigger] back.contains(x) by {
                assert(rows.dom().contains((x, p)));
                assert((x, p).0 == x);
            }
        }
        vstd::set_lib::lemma_map_size_bound(rows.dom(), back, |k: Key| k.0);
        vstd::set_lib::lemma_len_subset(pools, back);
        assert(pools.contains(u));
        assert(pools.len() > 0) by {
            if pools.len() == 0 {
                assert(!Set::<Seq<char>>::empty().contains(u));
                assert(pools =~= Set::empty());
            }
        }
    }
    if exists|u: Seq<char>| #[trigger] rows.contains_key((u, p)) && rows[(u, p)].barcode
        == barcode {
        let u = choose|u: Seq<char>| #[trigger]
            rows.contains_key((u, p)) && rows[(u, p)].barcode == barcode;
        assert(here.contains_key((u, p)));
    }
}

/// The status has a row for just the tapes that are assigned, with the figures of their last commit
/// and the state that they were given; a tape without either is empty and takes data.
pub proof fn law_status_has_the_state_of_tapes(c: ControlView, b: Seq<char>)
    ensures
        status::tape_rows(c).contains_key(b) <==> c.tapes.contains_key(b),
        c.tapes.contains_key(b) ==> {
            let r = status::tape_rows(c)[b];
            &&& c.tape_state.contains_key(b) ==> r.state == c.tape_state[b]
            &&& !c.tape_state.contains_key(b) ==> r.state == tape_state::APPENDABLE@
            &&& c.tape_summary.contains_key(b) ==> {
                let s = c.tape_summary[b];
                r.generation == s.generation && r.files == s.files && r.bytes_used == s.bytes_used
                    && r.bytes_written == s.bytes_written
            }
            &&& !c.tape_summary.contains_key(b) ==> r.generation == 0 && r.files == 0
                && r.bytes_used == 0 && r.bytes_written == 0
        },
{
}

/// A candidate that could not be loaded or used is passed over once: the next one is tried, none
/// before it again, and why a tape could not be loaded is kept.
pub proof fn law_search_passes_on(s: TapeSearchView, e: Seq<char>, unloaded: bool)
    ensures
        ({
            let a = s.load_failed(e);
            let b = s.passed(unloaded);
            &&& a.next == s.next + 1 && a.cands == s.cands && a.inv == s.inv
            &&& a.notes.len() == s.notes.len() + 1 && s.notes.is_prefix_of(a.notes)
            &&& b.next == s.next + 1 && b.cands == s.cands && b.notes == s.notes
            &&& !unloaded ==> b.inv == s.inv
            &&& unloaded ==> b.inv == s.inv.after_unload(s.slot)
        }),
{
}

} // verus!
