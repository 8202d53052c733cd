//! Rows of the catalog, and what a search pattern means.
use vstd::prelude::*;

use crate::strmap::Dup;
use crate::text;

verus! {

/// A volume in the catalog.
#[derive(Debug, Clone)]
pub struct VolumeRow {
    pub uuid: String,
    pub barcode: Option<String>,
    pub generation: u64,
    pub blocksize: u64,
    pub last_sync: String,
    pub file_count: u64,
    pub total_size: u64,
    /// Capacity in bytes when it was last read, if it could be.
    pub total_capacity: Option<u64>,
    pub remaining_capacity: Option<u64>,
}

/// The capacity of a tape.
#[derive(Debug, Clone, Copy, PartialEq, Eq, Structural)]
pub struct CapacitySnapshot {
    pub total: u64,
    pub remaining: u64,
}

impl View for CapacitySnapshot {
    type V = CapacitySnapshot;

    open spec fn view(&self) -> CapacitySnapshot {
        *self
    }
}

impl Dup for CapacitySnapshot {
    fn dup(&self) -> (r: Self) {
        *self
    }
}

/// `a - b`, or zero where `b` is larger.
pub open spec fn less_by(a: u64, b: u64) -> u64 {
    if a >= b {
        (a - b) as u64
    } else {
        0
    }
}

impl CapacitySnapshot {
    /// What is used of the capacity.
    pub fn used(&self) -> (r: u64)
        ensures
            r == less_by(self.total, self.remaining),
    {
        self.total.saturating_sub(self.remaining)
    }
}

/// A file that a search found.
#[derive(Debug, Clone)]
pub struct FileHit {
    pub volume_uuid: String,
    pub barcode: Option<String>,
    pub path: String,
    pub size: u64,
    pub mtime: Option<String>,
}

/// A file of a volume, with where its first extent lies.
#[derive(Debug, Clone)]
pub struct FileExtentRow {
    pub path: String,
    pub size: u64,
    pub file_uid: u64,
    pub partition: char,
    pub start_block: u64,
    pub byte_count: u64,
    pub file_offset: u64,
}

/// What a search pattern matches: as it stands where it holds a wildcard, else anywhere in a
/// path.
pub open spec fn like(pattern: Seq<char>) -> Seq<char> {
    if pattern.contains('%') || pattern.contains('_') {
        pattern
    } else {
        "%"@ + pattern + "%"@
    }
}

/// The pattern to search paths by.
pub fn like_pattern(pattern: &str) -> (r: String)
    ensures
        r@ == like(pattern@),
{
    if text::has_char(pattern, '%') || text::has_char(pattern, '_') {
        pattern.to_owned()
    } else {
        text::cat3("%", pattern, "%")
    }
}

/// The partition letter of an extent, a question mark where there is none.
pub fn partition_letter(part: Option<&str>) -> (r: char)
    ensures
        r == (match part {
            Some(s) => if s@.len() > 0 {
                s@[0]
            } else {
                '?'
            },
            None => '?',
        }),
{
    match part {
        Some(s) => {
            let v = text::chars(s);
            if v.len() > 0 {
                v[0]
            } else {
                '?'
            }
        },
        None => '?',
    }
}

/// A number that the database may lack.
pub fn or_zero(n: Option<u64>) -> (r: u64)
    ensures
        r == (match n {
            Some(n) => n,
            None => 0,
        }),
{
    match n {
        Some(n) => n,
        None => 0,
    }
}

} // verus!
