//! The tables that are printed of a catalog.
use vstd::prelude::*;

use crate::catalog::query;
use crate::catalog::query::{FileExtentRow, FileHit, VolumeRow};
use crate::catalog::sync::SyncStats;
use crate::cli::format_util;
use crate::text;

verus! {

/// A text, or a dash in its place.
pub open spec fn or_dash(s: Option<String>) -> Seq<char> {
    match s {
        Some(s) => s@,
        None => "-"@,
    }
}

fn dash(s: &Option<String>) -> (r: String)
    ensures
        r@ == or_dash(*s),
{
    match s {
        Some(s) => s.as_str().to_owned(),
        None => "-".to_owned(),
    }
}

/// The line above the volumes.
pub fn volume_header() -> (r: String)
    ensures
        r@ == volume_columns(
            "BARCODE"@,
            "UUID"@,
            "GEN"@,
            "FILES"@,
            "SIZE"@,
            "USED"@,
            "TOTAL"@,
            "LAST SYNC"@,
        ),
{
    volume_text("BARCODE", "UUID", "GEN", "FILES", "SIZE", "USED", "TOTAL", "LAST SYNC")
}

/// The columns of a volume.
pub open spec fn volume_columns(
    barcode: Seq<char>,
    uuid: Seq<char>,
    generation: Seq<char>,
    files: Seq<char>,
    size: Seq<char>,
    used: Seq<char>,
    total: Seq<char>,
    sync: Seq<char>,
) -> Seq<char> {
    text::at_left(barcode, 8) + "  "@ + text::at_left(uuid, 36) + "  "@ + text::at_right(
        generation,
        6,
    ) + "  "@ + text::at_right(files, 10) + "  "@ + text::at_right(size, 10) + "  "@
        + text::at_right(used, 8) + "  "@ + text::at_right(total, 8) + "  "@ + sync
}

fn volume_text(
    barcode: &str,
    uuid: &str,
    generation: &str,
    files: &str,
    size: &str,
    used: &str,
    total: &str,
    sync: &str,
) -> (r: String)
    ensures
        r@ == volume_columns(barcode@, uuid@, generation@, files@, size@, used@, total@, sync@),
{
    let mut t = text::cat4(
        text::left(barcode, 8).as_str(),
        "  ",
        text::left(uuid, 36).as_str(),
        "  ",
    );
    t.push_str(text::right(generation, 6).as_str());
    t.push_str("  ");
    t.push_str(text::right(files, 10).as_str());
    t.push_str("  ");
    t.push_str(text::right(size, 10).as_str());
    t.push_str("  ");
    t.push_str(text::right(used, 8).as_str());
    t.push_str("  ");
    t.push_str(text::right(total, 8).as_str());
    t.push_str("  ");
    t.push_str(sync);
    t
}

/// The line of a volume. What is used is only shown where both capacities are known.
pub fn volume_line(v: &VolumeRow) -> (r: String)
    ensures
        r@ == volume_columns(
            or_dash(v.barcode),
            v.uuid@,
            text::decimal(v.generation as nat),
            text::decimal(v.file_count as nat),
            format_util::size_text(v.total_size),
            (match (v.total_capacity, v.remaining_capacity) {
                (Some(t), Some(rem)) => format_util::size_text(query::less_by(t, rem)),
                _ => "-"@,
            }),
            (match (v.total_capacity, v.remaining_capacity) {
                (Some(t), Some(rem)) => format_util::size_text(t),
                _ => "-"@,
            }),
            v.last_sync@,
        ),
{
    let mut used = "-".to_owned();
    let mut total = "-".to_owned();
    match (v.total_capacity, v.remaining_capacity) {
        (Some(t), Some(rem)) => {
            used = format_util::format_size(t.saturating_sub(rem));
            total = format_util::format_size(t);
        },
        _ => {},
    }
    volume_text(
        dash(&v.barcode).as_str(),
        v.uuid.as_str(),
        text::decimal_text(v.generation).as_str(),
        text::decimal_text(v.file_count).as_str(),
        format_util::format_size(v.total_size).as_str(),
        used.as_str(),
        total.as_str(),
        v.last_sync.as_str(),
    )
}

/// The columns of a file that was found.
pub open spec fn hit_columns(
    barcode: Seq<char>,
    size: Seq<char>,
    mtime: Seq<char>,
    path: Seq<char>,
) -> Seq<char> {
    text::at_left(barcode, 8) + "  "@ + text::at_right(size, 12) + "  "@ + text::at_left(mtime, 20)
        + "  "@ + path
}

fn hit_text(barcode: &str, size: &str, mtime: &str, path: &str) -> (r: String)
    ensures
        r@ == hit_columns(barcode@, size@, mtime@, path@),
{
    let mut t = text::cat4(
        text::left(barcode, 8).as_str(),
        "  ",
        text::right(size, 12).as_str(),
        "  ",
    );
    t.push_str(text::left(mtime, 20).as_str());
    t.push_str("  ");
    t.push_str(path);
    t
}

/// The line above the files that were found.
pub fn hit_header() -> (r: String)
    ensures
        r@ == hit_columns("BARCODE"@, "SIZE"@, "MTIME"@, "PATH"@),
{
    hit_text("BARCODE", "SIZE", "MTIME", "PATH")
}

/// The line of a file that was found.
pub fn hit_line(h: &FileHit) -> (r: String)
    ensures
        r@ == hit_columns(
            or_dash(h.barcode),
            format_util::size_text(h.size),
            or_dash(h.mtime),
            h.path@,
        ),
{
    hit_text(
        dash(&h.barcode).as_str(),
        format_util::format_size(h.size).as_str(),
        dash(&h.mtime).as_str(),
        h.path.as_str(),
    )
}

/// The columns of a file of a volume.
pub open spec fn extent_columns(
    size: Seq<char>,
    partition: Seq<char>,
    block: Seq<char>,
    path: Seq<char>,
) -> Seq<char> {
    text::at_right(size, 12) + "  "@ + text::at_right(partition, 4) + "  "@ + text::at_right(
        block,
        10,
    ) + "  "@ + path
}

fn extent_text(size: &str, partition: &str, block: &str, path: &str) -> (r: String)
    ensures
        r@ == extent_columns(size@, partition@, block@, path@),
{
    let mut t = text::cat4(
        text::right(size, 12).as_str(),
        "  ",
        text::right(partition, 4).as_str(),
        "  ",
    );
    t.push_str(text::right(block, 10).as_str());
    t.push_str("  ");
    t.push_str(path);
    t
}

/// The line above the files of a volume.
pub fn extent_header() -> (r: String)
    ensures
        r@ == extent_columns("SIZE"@, "PART"@, "BLOCK"@, "PATH"@),
{
    extent_text("SIZE", "PART", "BLOCK", "PATH")
}

/// The line of a file of a volume.
pub fn extent_line(f: &FileExtentRow) -> (r: String)
    ensures
        r@ == extent_columns(
            format_util::size_text(f.size),
            seq![f.partition],
            text::decimal(f.start_block as nat),
            f.path@,
        ),
{
    let mut p = String::new();
    p.push(f.partition);
    assert(p@ =~= seq![f.partition]);
    extent_text(
        format_util::format_size(f.size).as_str(),
        p.as_str(),
        text::decimal_text(f.start_block).as_str(),
        f.path.as_str(),
    )
}

/// What is said once a volume has been put into the catalog.
pub fn sync_line(s: &SyncStats) -> (r: String)
    ensures
        r@ == "已同步: uuid="@ + s.volume_uuid@ + " barcode="@ + or_dash(s.barcode) + " gen="@
            + text::decimal(s.generation as nat) + " files="@ + text::decimal(s.files as nat)
            + " extents="@ + text::decimal(s.extents as nat) + (match s.capacity {
            Some(c) => " used="@ + format_util::size_text(query::less_by(c.total, c.remaining))
                + "/"@ + format_util::size_text(c.total),
            None => Seq::empty(),
        }) + (if s.replaced_previous {
            "（覆盖旧快照）"@
        } else {
            Seq::empty()
        }),
{
    let mut t = text::cat4(
        "已同步: uuid=",
        s.volume_uuid.as_str(),
        " barcode=",
        dash(&s.barcode).as_str(),
    );
    t.push_str(" gen=");
    t.push_str(text::decimal_text(s.generation).as_str());
    t.push_str(" files=");
    t.push_str(text::decimal_text(s.files as u64).as_str());
    t.push_str(" extents=");
    t.push_str(text::decimal_text(s.extents as u64).as_str());
    match &s.capacity {
        Some(c) => {
            let note = text::cat4(
                " used=",
                format_util::format_size(c.used()).as_str(),
                "/",
                format_util::format_size(c.total).as_str(),
            );
            t.push_str(note.as_str());
        },
        None => {
            assert(t@ + Seq::<char>::empty() =~= t@);
        },
    }
    if s.replaced_previous {
        t.push_str("（覆盖旧快照）");
    } else {
        assert(t@ + Seq::<char>::empty() =~= t@);
    }
    t
}

} // verus!
