//! What filling the catalog from a volume reads and reports.
use vstd::prelude::*;

use crate::catalog::query::CapacitySnapshot;
use crate::text;

verus! {

/// What a synchronisation did.
#[derive(Debug, Clone)]
pub struct SyncStats {
    pub volume_uuid: String,
    pub barcode: Option<String>,
    pub generation: u64,
    pub files: usize,
    pub extents: usize,
    pub replaced_previous: bool,
    pub capacity: Option<CapacitySnapshot>,
}

/// The text, or `None` where it is empty.
pub fn nonempty(s: &str) -> (r: Option<&str>)
    ensures
        r is Some <==> s@.len() > 0,
        r is Some ==> r->0@ == s@,
{
    if s.is_empty() {
        None
    } else {
        Some(s)
    }
}

/// A character that pads a barcode.
pub open spec fn pads_barcode(c: char) -> bool {
    c == '\0' || c == ' '
}

/// The barcode in an attribute value: its text without zero characters and blanks at either end;
/// a value that is no text counts as empty.
pub open spec fn barcode_text(value: Seq<u8>) -> Seq<char> {
    if vstd::utf8::valid_utf8(value) {
        text::trim(vstd::utf8::decode_utf8(value), |c: char| pads_barcode(c))
    } else {
        Seq::empty()
    }
}

/// The barcode in an attribute value, `None` where it is empty.
pub fn read_barcode(value: &[u8]) -> (r: Option<String>)
    ensures
        r is Some <==> barcode_text(value@).len() > 0,
        r is Some ==> r->0@ == barcode_text(value@),
{
    let t = match text::utf8(value) {
        Some(t) => t,
        None => {
            return None;
        },
    };
    let v = text::chars(t.as_str());
    let ghost drop = |c: char| pads_barcode(c);
    let mut marks: Vec<bool> = Vec::new();
    let mut k: usize = 0;
    while k < v.len()
        invariant
            k <= v@.len(),
            marks@.len() == k,
            drop == (|c: char| pads_barcode(c)),
            forall|j: int| 0 <= j < k ==> #[trigger] marks@[j] == drop(v@[j]),
        decreases v@.len() - k,
    {
        let c: char = v[k];
        marks.push(c == '\0' || c == ' ');
        k += 1;
    }
    let s = text::trim_marked(t.as_str(), &marks, Ghost(drop));
    if s.as_str().is_empty() {
        None
    } else {
        Some(s)
    }
}

/// A capacity reading that counts: one with some capacity in it.
pub fn usable_capacity(read: Option<CapacitySnapshot>) -> (r: Option<CapacitySnapshot>)
    ensures
        r == (match read {
            Some(c) => if c.total > 0 {
                Some(c)
            } else {
                None
            },
            None => None,
        }),
{
    match read {
        Some(c) => {
            if c.total > 0 {
                Some(c)
            } else {
                None
            }
        },
        None => None,
    }
}

/// A piece of a file on tape.
#[derive(Debug, Clone, Copy, PartialEq, Eq, Structural)]
pub struct Extent {
    pub partition: char,
    pub start_block: u64,
    pub byte_offset: u64,
    pub byte_count: u64,
    pub file_offset: u64,
}

/// A file in the index of a volume.
#[derive(Debug)]
pub struct CatalogFile {
    pub path: String,
    pub file_uid: u64,
    pub length: u64,
    pub modify_time: String,
    pub creation_time: String,
    pub readonly: bool,
    pub extents: Vec<Extent>,
}

#[verifier::ext_equal]
pub struct CatalogFileView {
    pub path: Seq<char>,
    pub file_uid: u64,
    pub length: u64,
    pub modify_time: Seq<char>,
    pub creation_time: Seq<char>,
    pub readonly: bool,
    pub extents: Seq<Extent>,
}

impl View for CatalogFile {
    type V = CatalogFileView;

    open spec fn view(&self) -> CatalogFileView {
        CatalogFileView {
            path: self.path@,
            file_uid: self.file_uid,
            length: self.length,
            modify_time: self.modify_time@,
            creation_time: self.creation_time@,
            readonly: self.readonly,
            extents: self.extents@,
        }
    }
}

pub open spec fn catalog_files(v: Seq<CatalogFile>) -> Seq<CatalogFileView> {
    v.map_values(|f: CatalogFile| f@)
}

/// A row of the table of files.
#[derive(Debug, Clone, PartialEq, Eq)]
pub struct FileInsert {
    pub file_uid: u64,
    pub path: String,
    pub size: u64,
    pub mtime: Option<String>,
    pub ctime: Option<String>,
    pub readonly: bool,
}

#[verifier::ext_equal]
pub struct FileInsertView {
    pub file_uid: u64,
    pub path: Seq<char>,
    pub size: u64,
    pub mtime: Option<Seq<char>>,
    pub ctime: Option<Seq<char>>,
    pub readonly: bool,
}

impl View for FileInsert {
    type V = FileInsertView;

    open spec fn view(&self) -> FileInsertView {
        FileInsertView {
            file_uid: self.file_uid,
            path: self.path@,
            size: self.size,
            mtime: match self.mtime {
                Some(s) => Some(s@),
                None => None,
            },
            ctime: match self.ctime {
                Some(s) => Some(s@),
                None => None,
            },
            readonly: self.readonly,
        }
    }
}

/// A row of the table of extents: the `seq`th of a file.
#[derive(Debug, Clone, Copy, PartialEq, Eq, Structural)]
pub struct ExtentInsert {
    pub file_uid: u64,
    pub seq: u64,
    pub extent: Extent,
}

/// The row of a volume.
#[derive(Debug, Clone, PartialEq, Eq)]
pub struct VolumeInsert {
    pub uuid: String,
    pub barcode: Option<String>,
    pub ltfs_version: String,
    pub generation: u64,
    pub blocksize: u64,
    pub index_update: String,
    pub last_sync: String,
    pub total_capacity: Option<u64>,
    pub remaining_capacity: Option<u64>,
    /// When the capacity was read.
    pub capacity_sync: Option<String>,
}

/// The text, or none where it is empty.
pub open spec fn text_or_none(s: Seq<char>) -> Option<Seq<char>> {
    if s.len() > 0 {
        Some(s)
    } else {
        None
    }
}

/// The row of a file.
pub open spec fn file_row(f: CatalogFileView) -> FileInsertView {
    FileInsertView {
        file_uid: f.file_uid,
        path: f.path,
        size: f.length,
        mtime: text_or_none(f.modify_time),
        ctime: text_or_none(f.creation_time),
        readonly: f.readonly,
    }
}

/// The rows of the extents of a file.
pub open spec fn extent_rows(f: CatalogFileView) -> Seq<ExtentInsert> {
    Seq::new(
        f.extents.len(),
        |i: int| ExtentInsert { file_uid: f.file_uid, seq: i as u64, extent: f.extents[i] },
    )
}

/// The rows of the extents of all files, file by file.
pub open spec fn all_extent_rows(v: Seq<CatalogFileView>) -> Seq<ExtentInsert>
    decreases v.len(),
{
    if v.len() == 0 {
        Seq::empty()
    } else {
        all_extent_rows(v.drop_last()) + extent_rows(v.last())
    }
}

/// The rows with which a volume replaces what the catalog has of it.
#[derive(Debug)]
pub struct SyncRows {
    pub volume: VolumeInsert,
    pub files: Vec<FileInsert>,
    pub extents: Vec<ExtentInsert>,
}

fn time_or_none(s: &str) -> (r: Option<String>)
    ensures
        match r {
            Some(t) => text_or_none(s@) == Some(t@),
            None => text_or_none(s@) is None,
        },
{
    match nonempty(s) {
        Some(t) => Some(t.to_owned()),
        None => None,
    }
}

fn push_extents(out: &mut Vec<ExtentInsert>, f: &CatalogFile)
    ensures
        final(out)@ == old(out)@ + extent_rows(f@),
{
    let ghost was = out@;
    let n = f.extents.len();
    let mut i: usize = 0;
    assert(was + extent_rows(f@).take(0) =~= was);
    while i < n
        invariant
            i <= n == f.extents@.len(),
            was == old(out)@,
            out@ == was + extent_rows(f@).take(i as int),
        decreases n - i,
    {
        let row = ExtentInsert { file_uid: f.file_uid, seq: i as u64, extent: f.extents[i] };
        assert(row == extent_rows(f@)[i as int]);
        out.push(row);
        assert(out@ =~= was + extent_rows(f@).take(i + 1));
        i += 1;
    }
    assert(extent_rows(f@).take(i as int) =~= extent_rows(f@));
}

/// What is known of a volume besides its files.
#[derive(Debug, Clone, PartialEq, Eq)]
pub struct VolumeFacts {
    pub uuid: String,
    pub ltfs_version: String,
    pub generation: u64,
    pub blocksize: u64,
    pub index_update: String,
}

/// The rows with which a volume replaces what the catalog has of it. `now` is the time of the
/// synchronisation.
pub fn sync_rows(
    facts: &VolumeFacts,
    barcode: &Option<String>,
    capacity: Option<CapacitySnapshot>,
    now: &str,
    files: &Vec<CatalogFile>,
) -> (r: SyncRows)
    ensures
        r.volume.uuid@ == facts.uuid@,
        match *barcode {
            Some(b) => r.volume.barcode is Some && r.volume.barcode->0@ == b@,
            None => r.volume.barcode is None,
        },
        r.volume.ltfs_version@ == facts.ltfs_version@,
        r.volume.generation == facts.generation,
        r.volume.blocksize == facts.blocksize,
        r.volume.index_update@ == facts.index_update@,
        r.volume.last_sync@ == now@,
        match capacity {
            Some(c) => {
                &&& r.volume.total_capacity == Some(c.total)
                &&& r.volume.remaining_capacity == Some(c.remaining)
                &&& r.volume.capacity_sync is Some
                &&& r.volume.capacity_sync->0@ == now@
            },
            None => {
                &&& r.volume.total_capacity is None
                &&& r.volume.remaining_capacity is None
                &&& r.volume.capacity_sync is None
            },
        },
        r.files@.map_values(|f: FileInsert| f@) == catalog_files(files@).map_values(
            |f: CatalogFileView| file_row(f),
        ),
        r.extents@ == all_extent_rows(catalog_files(files@)),
{
    let ghost all = catalog_files(files@);
    let ghost g = |f: FileInsert| f@;
    let ghost h = |f: CatalogFileView| file_row(f);
    let mut rows: Vec<FileInsert> = Vec::new();
    let mut extents: Vec<ExtentInsert> = Vec::new();
    let mut i: usize = 0;
    while i < files.len()
        invariant
            i <= files@.len(),
            all == catalog_files(files@),
            g == (|f: FileInsert| f@),
            h == (|f: CatalogFileView| file_row(f)),
            rows@.map_values(g) == all.take(i as int).map_values(h),
            extents@ == all_extent_rows(all.take(i as int)),
        decreases files@.len() - i,
    {
        let ghost was = rows@;
        let f = &files[i];
        assert(all.take(i + 1).drop_last() =~= all.take(i as int));
        assert(all.take(i + 1).last() == f@);
        let row = FileInsert {
            file_uid: f.file_uid,
            path: f.path.clone(),
            size: f.length,
            mtime: time_or_none(f.modify_time.as_str()),
            ctime: time_or_none(f.creation_time.as_str()),
            readonly: f.readonly,
        };
        assert(row@ =~= file_row(f@));
        rows.push(row);
        assert(rows@.map_values(g) =~= was.map_values(g).push(row@));
        assert(rows@.map_values(g) =~= all.take(i + 1).map_values(h));
        push_extents(&mut extents, f);
        i += 1;
    }
    assert(all.take(i as int) =~= all);
    let (total_capacity, remaining_capacity, capacity_sync) = match capacity {
        Some(c) => (Some(c.total), Some(c.remaining), Some(now.to_owned())),
        None => (None, None, None),
    };
    let barcode = match barcode {
        Some(b) => Some(b.clone()),
        None => None,
    };
    SyncRows {
        volume: VolumeInsert {
            uuid: facts.uuid.clone(),
            barcode,
            ltfs_version: facts.ltfs_version.clone(),
            generation: facts.generation,
            blocksize: facts.blocksize,
            index_update: facts.index_update.clone(),
            last_sync: now.to_owned(),
            total_capacity,
            remaining_capacity,
            capacity_sync,
        },
        files: rows,
        extents,
    }
}

/// What is reported once the rows are in.
pub fn sync_stats(
    rows: &SyncRows,
    capacity: Option<CapacitySnapshot>,
    replaced_previous: bool,
) -> (r: SyncStats)
    ensures
        r.volume_uuid@ == rows.volume.uuid@,
        match rows.volume.barcode {
            Some(b) => r.barcode is Some && r.barcode->0@ == b@,
            None => r.barcode is None,
        },
        r.generation == rows.volume.generation,
        r.files == rows.files@.len(),
        r.extents == rows.extents@.len(),
        r.replaced_previous == replaced_previous,
        r.capacity == capacity,
{
    let barcode = match &rows.volume.barcode {
        Some(b) => Some(b.clone()),
        None => None,
    };
    SyncStats {
        volume_uuid: rows.volume.uuid.clone(),
        barcode,
        generation: rows.volume.generation,
        files: rows.files.len(),
        extents: rows.extents.len(),
        replaced_previous,
        capacity,
    }
}

/// Every file of the index gets a row, in order.
pub proof fn law_every_file_gets_a_row(v: Seq<CatalogFileView>, i: int)
    requires
        0 <= i < v.len(),
    ensures
        v.map_values(|f: CatalogFileView| file_row(f))[i].path == v[i].path,
        v.map_values(|f: CatalogFileView| file_row(f)).len() == v.len(),
{
}

} // verus!
