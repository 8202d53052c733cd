//! Opening a tape for writing: what is on it, whether it belongs to the pool, and whether there
//! is room.
use vstd::prelude::*;

use crate::daemon::nodes;
use crate::daemon::state;
use crate::daemon::state::{FileRec, FileRecView};
use crate::daemon::tape_state;
use crate::daemon::write_tape::{Candidate, CandidateView};
use crate::error::{TapeError, TapeErrorView};
use crate::text;

verus! {

/// What is on a tape.
#[derive(Debug)]
pub enum FormatProbe {
    Ltfs,
    Blank,
    /// Data of another kind.
    Foreign(String),
    Failed(TapeError),
}

/// What is done next with a tape.
#[derive(Debug)]
pub enum OpenStep {
    /// It is formatted under this name.
    Format { volume_id: String },
    Mount,
    /// The end of its data is put in order: what is not in an index is kept or given up.
    CloseTail { salvage: bool },
    /// Its pool mark is looked at.
    Look,
    /// The mark of the pool is written.
    WriteMark,
    /// Its room is measured.
    Measure,
    /// It is written: so many bytes in all, and so many of them still free.
    Serve { usable: u64, free: u64 },
    /// It cannot be used, and gets this state.
    Refuse { note: String, state: &'static str },
    /// The round is over.
    Abort(TapeError),
}

#[verifier::ext_equal]
pub enum OpenView {
    Format { volume_id: Seq<char> },
    Mount,
    CloseTail { salvage: bool },
    Look,
    WriteMark,
    Measure,
    Serve { usable: u64, free: u64 },
    Refuse { note: Seq<char>, state: Seq<char> },
    Abort(TapeErrorView),
}

impl View for OpenStep {
    type V = OpenView;

    open spec fn view(&self) -> OpenView {
        match *self {
            OpenStep::Format { volume_id } => OpenView::Format { volume_id: volume_id@ },
            OpenStep::Mount => OpenView::Mount,
            OpenStep::CloseTail { salvage } => OpenView::CloseTail { salvage },
            OpenStep::Look => OpenView::Look,
            OpenStep::WriteMark => OpenView::WriteMark,
            OpenStep::Measure => OpenView::Measure,
            OpenStep::Serve { usable, free } => OpenView::Serve { usable, free },
            OpenStep::Refuse { note, state } => OpenView::Refuse { note: note@, state: state@ },
            OpenStep::Abort(e) => OpenView::Abort(e@),
        }
    }
}

/// The name of a volume: the first six characters of its barcode.
pub open spec fn volume_name(barcode: Seq<char>) -> Seq<char> {
    if barcode.len() <= 6 {
        barcode
    } else {
        barcode.take(6)
    }
}

/// The name of a volume: the first six characters of its barcode.
pub fn volume_id(barcode: &str) -> (r: String)
    ensures
        r@ == volume_name(barcode@),
{
    let v = text::chars(barcode);
    let n = if v.len() <= 6 {
        v.len()
    } else {
        6
    };
    let r = text::text_of(v.as_slice(), 0, n);
    assert(r@ =~= volume_name(barcode@));
    r
}

/// A failure with a tape: it ends the round where the device was lost, and otherwise only the
/// tape cannot be used.
pub open spec fn failure(barcode: Seq<char>, what: Seq<char>, e: TapeErrorView) -> OpenView {
    if e.ownership_lost() {
        OpenView::Abort(e)
    } else {
        OpenView::Refuse { note: barcode + what + e.message(), state: tape_state::CHECK@ }
    }
}

fn failed(barcode: &str, what: &str, e: TapeError) -> (r: OpenStep)
    ensures
        r@ == failure(barcode@, what@, e@),
{
    if e.ownership_lost() {
        OpenStep::Abort(e)
    } else {
        let note = text::cat3(barcode, what, e.message().as_str());
        OpenStep::Refuse { note, state: tape_state::CHECK }
    }
}

/// What follows from what is on the tape. Only a blank one is formatted.
pub open spec fn after_probe(c: CandidateView, p: FormatProbe) -> OpenView {
    match p {
        FormatProbe::Ltfs => OpenView::Mount,
        FormatProbe::Blank => OpenView::Format { volume_id: volume_name(c.barcode) },
        FormatProbe::Foreign(what) => OpenView::Refuse {
            note: c.barcode + " 上是别的数据（"@ + what@ + "），不自动覆盖"@,
            state: tape_state::LABEL_MISMATCH@,
        },
        FormatProbe::Failed(e) => failure(c.barcode, " 无法识别: "@, e@),
    }
}

/// What is known of a volume that was mounted.
#[derive(Debug, Clone, PartialEq, Eq)]
pub struct MountFacts {
    pub generation: u64,
    pub files: u64,
    /// The state of the end of its data, in words.
    pub tail: String,
    /// There is data, or a broken index, after the last index.
    pub open_tail: bool,
    pub writable: bool,
    /// Why it is not writable.
    pub restricted: Option<String>,
}

/// What a tail that was put in order held.
#[derive(Debug, Clone, Copy, PartialEq, Eq, Structural)]
pub struct TailReport {
    pub first_block: u64,
    pub end_block: u64,
    pub generation: u64,
}

/// A tape that is being opened.
#[derive(Debug)]
pub struct Opening {
    pub cand: Candidate,
    /// The name of the device that it is in.
    pub device: String,
    /// What is said of it.
    pub summary: String,
}

#[verifier::ext_equal]
pub struct OpeningView {
    pub cand: CandidateView,
    pub device: Seq<char>,
    pub summary: Seq<char>,
}

impl View for Opening {
    type V = OpeningView;

    open spec fn view(&self) -> OpeningView {
        OpeningView { cand: self.cand@, device: self.device@, summary: self.summary@ }
    }
}

/// The volume is read-only.
pub open spec fn read_only(barcode: Seq<char>, restricted: Option<String>) -> OpenView {
    OpenView::Refuse {
        note: barcode + " 只读: "@ + (match restricted {
            Some(s) => s@,
            None => "-"@,
        }),
        state: tape_state::CHECK@,
    }
}

impl OpeningView {
    pub open spec fn saying(self, s: Seq<char>) -> OpeningView {
        OpeningView { summary: self.summary + s, ..self }
    }

    /// What follows from mounting the volume.
    pub open spec fn after_mount(self, m: Result<MountFacts, TapeError>, salvage: bool) -> (
        OpeningView,
        OpenView,
    ) {
        match m {
            Err(e) => (self, failure(self.cand.barcode, " 无法挂载: "@, e@)),
            Ok(f) => (
                OpeningView {
                    summary: self.device + " ["@ + self.cand.barcode + "]: gen="@ + text::decimal(
                        f.generation as nat,
                    ) + " 文件 "@ + text::decimal(f.files as nat) + " 个 尾部 "@ + f.tail@,
                    ..self
                },
                if f.writable {
                    OpenView::Look
                } else if f.open_tail {
                    OpenView::CloseTail { salvage }
                } else {
                    read_only(self.cand.barcode, f.restricted)
                },
            ),
        }
    }

    /// What follows from putting the tail in order; `writable` tells of the volume after that.
    pub open spec fn after_tail(
        self,
        r: Result<TailReport, TapeError>,
        writable: bool,
        restricted: Option<String>,
    ) -> (OpeningView, OpenView) {
        match r {
            Err(e) => (self, OpenView::Abort(e@)),
            Ok(t) => (
                self.saying(
                    "；已收尾：放弃块 "@ + text::decimal(t.first_block as nat) + ".."@
                        + text::decimal(
                        (if t.end_block > 0 {
                            t.end_block - 1
                        } else {
                            0
                        }) as nat,
                    ) + "，新索引 gen="@ + text::decimal(t.generation as nat),
                ),
                if writable {
                    OpenView::Look
                } else {
                    read_only(self.cand.barcode, restricted)
                },
            ),
        }
    }

    /// What follows from the pool mark on the volume.
    pub open spec fn after_look(self, mark: Option<Seq<char>>) -> OpenView {
        match mark {
            None => OpenView::WriteMark,
            Some(u) => if u == self.cand.pool_uuid {
                OpenView::Measure
            } else {
                OpenView::Refuse {
                    note: self.cand.barcode + " 的池标记是 "@ + u + "，与归属 "@
                        + self.cand.pool_uuid + " 不符"@,
                    state: tape_state::LABEL_MISMATCH@,
                }
            },
        }
    }

    /// What follows from writing the pool mark.
    pub open spec fn after_mark(self, r: Result<(), TapeError>) -> (OpeningView, OpenView) {
        match r {
            Ok(_) => (self.saying("；已写入池标记"@), OpenView::Measure),
            Err(e) => (self, OpenView::Abort(e@)),
        }
    }
}

/// The room that is kept back on a tape, so that the indexes that close it always fit: a fiftieth,
/// or four times its index where that is more, and a twentieth, or 1 GiB where that is less.
pub open spec fn reserve_of(total: u64, index_entries: u64) -> int {
    let share = total / 50;
    let indexes = 4 * (index_entries * 1100);
    let spare = if total / 20 < 0x4000_0000 {
        total / 20
    } else {
        0x4000_0000
    };
    (if share as int > indexes {
        share as int
    } else {
        indexes
    }) + spare
}

/// The room that is kept back on a tape.
pub fn reserve(total: u64, index_entries: u64) -> (r: u64)
    requires
        4 * (index_entries * 1100) + 0x4000_0000 <= u64::MAX,
    ensures
        r == reserve_of(total, index_entries),
{
    let share: u64 = total / 50;
    let indexes: u64 = 4 * (index_entries * 1100);
    let twentieth: u64 = total / 20;
    let spare: u64 = if twentieth < 0x4000_0000 {
        twentieth
    } else {
        0x4000_0000
    };
    if share > indexes {
        share + spare
    } else {
        indexes + spare
    }
}

/// How much fits on a tape and how much is left, in bytes.
#[derive(Debug, Clone, Copy, PartialEq, Eq, Structural)]
pub struct Capacity {
    pub total: u64,
    pub remaining: u64,
}

/// What stands for a capacity that cannot be read: 1 PiB.
pub const UNKNOWN_CAPACITY: u64 = 0x4_0000_0000_0000;

/// The capacity that is reckoned with.
pub open spec fn reckoned(c: Option<Capacity>) -> Capacity {
    match c {
        Some(c) => c,
        None => Capacity { total: UNKNOWN_CAPACITY, remaining: UNKNOWN_CAPACITY },
    }
}

impl OpeningView {
    /// What follows from the room on the tape.
    pub open spec fn after_measure(
        self,
        files_now: u64,
        index_entries: u64,
        capacity: Option<Capacity>,
    ) -> (OpeningView, OpenView) {
        let c = reckoned(capacity);
        let kept = reserve_of(c.total, index_entries);
        if files_now >= self.cand.file_limit {
            (
                self,
                OpenView::Refuse {
                    note: self.cand.barcode + " 文件数 "@ + text::decimal(files_now as nat)
                        + " 已到上限"@,
                    state: tape_state::DATA_FULL@,
                },
            )
        } else if c.remaining <= kept {
            (
                self,
                OpenView::Refuse {
                    note: self.cand.barcode + " 已满（剩余 "@ + text::decimal(
                        (c.remaining / 0x10_0000) as nat,
                    ) + " MiB）"@,
                    state: tape_state::FULL@,
                },
            )
        } else {
            (
                self.saying(
                    "；可用 "@ + text::decimal(((c.remaining - kept) / 0x10_0000) as nat)
                        + " MiB"@,
                ),
                OpenView::Serve {
                    usable: if c.total > kept {
                        (c.total - kept) as u64
                    } else {
                        0
                    },
                    free: (c.remaining - kept) as u64,
                },
            )
        }
    }
}

impl Opening {
    /// Begins with a tape in a device.
    pub fn begin(cand: &Candidate, device: &str) -> (r: Self)
        ensures
            r@ == (OpeningView { cand: cand@, device: device@, summary: Seq::empty() }),
    {
        let c = Candidate {
            barcode: cand.barcode.clone(),
            pool_uuid: cand.pool_uuid.clone(),
            pool_name: cand.pool_name.clone(),
            file_limit: cand.file_limit,
            bytes_used: cand.bytes_used,
        };
        let r = Opening { cand: c, device: device.to_owned(), summary: String::new() };
        assert(r@.summary =~= Seq::<char>::empty());
        r
    }

    /// What follows from what is on the tape.
    pub fn on_probe(&self, p: FormatProbe) -> (r: OpenStep)
        ensures
            r@ == after_probe(self@.cand, p),
    {
        match p {
            FormatProbe::Ltfs => OpenStep::Mount,
            FormatProbe::Blank => OpenStep::Format {
                volume_id: volume_id(self.cand.barcode.as_str()),
            },
            FormatProbe::Foreign(what) => OpenStep::Refuse {
                note: text::cat4(
                    self.cand.barcode.as_str(),
                    " 上是别的数据（",
                    what.as_str(),
                    "），不自动覆盖",
                ),
                state: tape_state::LABEL_MISMATCH,
            },
            FormatProbe::Failed(e) => failed(
                self.cand.barcode.as_str(),
                " 无法识别: ",
                e,
            ),
        }
    }

    /// What follows from formatting the tape.
    pub fn on_format(&self, r: Result<(), TapeError>) -> (step: OpenStep)
        ensures
            step@ == (match r {
                Ok(_) => OpenView::Mount,
                Err(e) => failure(self@.cand.barcode, " 格式化失败: "@, e@),
            }),
    {
        match r {
            Ok(_) => OpenStep::Mount,
            Err(e) => failed(self.cand.barcode.as_str(), " 格式化失败: ", e),
        }
    }

    fn refuse_read_only(&self, restricted: &Option<String>) -> (r: OpenStep)
        ensures
            r@ == read_only(self@.cand.barcode, *restricted),
    {
        let why: &str = match restricted {
            Some(s) => s.as_str(),
            None => "-",
        };
        OpenStep::Refuse {
            note: text::cat3(self.cand.barcode.as_str(), " 只读: ", why),
            state: tape_state::CHECK,
        }
    }

    /// What follows from mounting the volume.
    pub fn on_mount(&mut self, m: Result<MountFacts, TapeError>, salvage: bool) -> (r: OpenStep)
        ensures
            (final(self)@, r@) == old(self)@.after_mount(m, salvage),
    {
        match m {
            Err(e) => failed(self.cand.barcode.as_str(), " 无法挂载: ", e),
            Ok(f) => {
                let mut t = text::cat4(
                    self.device.as_str(),
                    " [",
                    self.cand.barcode.as_str(),
                    "]: gen=",
                );
                t.push_str(text::decimal_text(f.generation).as_str());
                t.push_str(" 文件 ");
                t.push_str(text::decimal_text(f.files).as_str());
                t.push_str(" 个 尾部 ");
                t.push_str(f.tail.as_str());
                self.summary = t;
                if f.writable {
                    OpenStep::Look
                } else if f.open_tail {
                    OpenStep::CloseTail { salvage }
                } else {
                    self.refuse_read_only(&f.restricted)
                }
            },
        }
    }

    /// What follows from putting the tail in order.
    pub fn on_tail(
        &mut self,
        r: Result<TailReport, TapeError>,
        writable: bool,
        restricted: &Option<String>,
    ) -> (step: OpenStep)
        ensures
            (final(self)@, step@) == old(self)@.after_tail(r, writable, *restricted),
    {
        match r {
            Err(e) => OpenStep::Abort(e),
            Ok(t) => {
                let mut s = text::cat4(
                    "；已收尾：放弃块 ",
                    text::decimal_text(t.first_block).as_str(),
                    "..",
                    text::decimal_text(t.end_block.saturating_sub(1)).as_str(),
                );
                s.push_str("，新索引 gen=");
                s.push_str(text::decimal_text(t.generation).as_str());
                self.summary.push_str(s.as_str());
                if writable {
                    OpenStep::Look
                } else {
                    self.refuse_read_only(restricted)
                }
            },
        }
    }

    /// What follows from the pool mark on the volume.
    pub fn on_look(&self, mark: &Option<String>) -> (r: OpenStep)
        ensures
            r@ == self@.after_look(nodes::text_view(*mark)),
    {
        match mark {
            None => OpenStep::WriteMark,
            Some(u) => {
                if text::same(u.as_str(), self.cand.pool_uuid.as_str()) {
                    OpenStep::Measure
                } else {
                    let mut note = text::cat4(
                        self.cand.barcode.as_str(),
                        " 的池标记是 ",
                        u.as_str(),
                        "，与归属 ",
                    );
                    note.push_str(self.cand.pool_uuid.as_str());
                    note.push_str(" 不符");
                    OpenStep::Refuse { note, state: tape_state::LABEL_MISMATCH }
                }
            },
        }
    }

    /// What follows from writing the pool mark.
    pub fn on_mark(&mut self, r: Result<(), TapeError>) -> (step: OpenStep)
        ensures
            (final(self)@, step@) == old(self)@.after_mark(r),
    {
        match r {
            Ok(_) => {
                self.summary.push_str("；已写入池标记");
                OpenStep::Measure
            },
            Err(e) => OpenStep::Abort(e),
        }
    }

    /// What follows from the room on the tape. `files_now` are the files in its index, and
    /// `index_entries` all that its index lists.
    pub fn on_measure(
        &mut self,
        files_now: u64,
        index_entries: u64,
        capacity: Option<Capacity>,
    ) -> (r: OpenStep)
        requires
            4 * (index_entries * 1100) + 0x4000_0000 <= u64::MAX,
        ensures
            (final(self)@, r@) == old(self)@.after_measure(files_now, index_entries, capacity),
    {
        let c = match capacity {
            Some(c) => c,
            None => Capacity { total: UNKNOWN_CAPACITY, remaining: UNKNOWN_CAPACITY },
        };
        let kept = reserve(c.total, index_entries);
        if files_now >= self.cand.file_limit {
            return OpenStep::Refuse {
                note: text::cat4(
                    self.cand.barcode.as_str(),
                    " 文件数 ",
                    text::decimal_text(files_now).as_str(),
                    " 已到上限",
                ),
                state: tape_state::DATA_FULL,
            };
        }
        if c.remaining <= kept {
            return OpenStep::Refuse {
                note: text::cat4(
                    self.cand.barcode.as_str(),
                    " 已满（剩余 ",
                    text::decimal_text(c.remaining / 0x10_0000).as_str(),
                    " MiB）",
                ),
                state: tape_state::FULL,
            };
        }
        let free: u64 = c.remaining - kept;
        let s = text::cat3(
            "；可用 ",
            text::decimal_text(free / 0x10_0000).as_str(),
            " MiB",
        );
        self.summary.push_str(s.as_str());
        OpenStep::Serve { usable: c.total.saturating_sub(kept), free }
    }
}

/// The bytes that were really written on a tape; 0 where they cannot be read.
pub fn bytes_written(capacity: Option<Capacity>) -> (r: u64)
    ensures
        r == (match capacity {
            Some(c) => if c.total > c.remaining {
                (c.total - c.remaining) as u64
            } else {
                0
            },
            None => 0,
        }),
{
    match capacity {
        Some(c) => c.total.saturating_sub(c.remaining),
        None => 0,
    }
}

/// How many of the records are no directories.
pub open spec fn plain_records(v: Seq<FileRecView>) -> nat
    decreases v.len(),
{
    if v.len() == 0 {
        0
    } else {
        plain_records(v.drop_last()) + (if nodes::dir_kind(v.last().metadata) {
            0nat
        } else {
            1nat
        })
    }
}

/// How many of the records are no directories.
pub fn count_plain(v: &Vec<FileRec>) -> (r: u64)
    ensures
        r == plain_records(state::recs(v@)),
{
    let ghost all = state::recs(v@);
    let n = v.len();
    let mut out: u64 = 0;
    let mut i: usize = 0;
    while i < n
        invariant
            i <= n == v@.len(),
            all == state::recs(v@),
            out == plain_records(all.take(i as int)),
            out <= i,
        decreases n - i,
    {
        assert(all.take(i + 1).drop_last() =~= all.take(i as int));
        assert(all.take(i + 1).last() == v@[i as int]@);
        if !nodes::is_directory(&v[i].metadata) {
            out = out + 1;
        }
        i += 1;
    }
    assert(all.take(i as int) =~= all);
    out
}

/// Nothing but a blank tape is ever formatted on the way to being written.
pub proof fn law_only_blank_tapes_are_formatted(c: CandidateView, p: FormatProbe)
    ensures
        after_probe(c, p) is Format ==> p is Blank,
{
}

/// A tape with the mark of another pool is not written.
pub proof fn law_other_pools_are_not_written(o: OpeningView, mark: Seq<char>)
    requires
        mark != o.cand.pool_uuid,
    ensures
        o.after_look(Some(mark)) is Refuse,
{
}

/// What is free on a tape that is written leaves the reserve untouched, and a tape at its file
/// limit is not written.
pub proof fn law_served_tape_keeps_its_reserve(
    o: OpeningView,
    files_now: u64,
    index_entries: u64,
    c: Capacity,
)
    ensures
        o.after_measure(files_now, index_entries, Some(c)).1 matches OpenView::Serve {
            usable,
            free,
        } ==> free + reserve_of(c.total, index_entries) == c.remaining && files_now
            < o.cand.file_limit && free > 0,
{
}

} // verus!
