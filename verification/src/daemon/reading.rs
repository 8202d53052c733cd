//! Reading a file wherever it lies: from the tape that is written, from the tape that was loaded
//! for reading, or from one that has to be loaded first.
use vstd::prelude::*;

use crate::daemon::files;
use crate::daemon::files::{FileService, ServiceView, Stat, StatView};
use crate::daemon::library;
use crate::daemon::library::{DriveView, Inventory, InventoryView};
use crate::error::{TapeError, TapeErrorView};
use crate::text;

verus! {

/// Why a file cannot be read.
#[derive(Debug, Clone, PartialEq, Eq)]
pub enum ReadError {
    /// Not now; worth another try.
    Busy(String),
    Failed(String),
    /// The device was lost while reading; the round is over.
    Lost(String),
}

#[verifier::ext_equal]
pub enum ReadErrorView {
    Busy(Seq<char>),
    Failed(Seq<char>),
    Lost(Seq<char>),
}

impl View for ReadError {
    type V = ReadErrorView;

    open spec fn view(&self) -> ReadErrorView {
        match *self {
            ReadError::Busy(s) => ReadErrorView::Busy(s@),
            ReadError::Failed(s) => ReadErrorView::Failed(s@),
            ReadError::Lost(s) => ReadErrorView::Lost(s@),
        }
    }
}

/// A device error while reading.
pub open spec fn device_error(e: TapeErrorView, context: Seq<char>) -> ReadErrorView {
    let reason = context + ": "@ + e.message();
    if e.ownership_lost() {
        ReadErrorView::Lost(reason)
    } else {
        ReadErrorView::Failed(reason)
    }
}

impl ReadErrorView {
    /// The error in words.
    pub open spec fn message(self) -> Seq<char> {
        match self {
            ReadErrorView::Busy(s) => "稍后重试: "@ + s,
            ReadErrorView::Failed(s) => s,
            ReadErrorView::Lost(s) => s,
        }
    }
}

impl ReadError {
    /// A device error while reading: the loss of the device is told from a fault of the medium.
    pub fn device(e: &TapeError, context: &str) -> (r: Self)
        ensures
            r@ == device_error(e@, context@),
    {
        let reason = text::cat3(context, ": ", e.message().as_str());
        if e.ownership_lost() {
            ReadError::Lost(reason)
        } else {
            ReadError::Failed(reason)
        }
    }

    pub fn dup(&self) -> (r: Self)
        ensures
            r@ == self@,
    {
        match self {
            ReadError::Busy(s) => ReadError::Busy(s.clone()),
            ReadError::Failed(s) => ReadError::Failed(s.clone()),
            ReadError::Lost(s) => ReadError::Lost(s.clone()),
        }
    }

    /// The error in words.
    pub fn message(&self) -> (r: String)
        ensures
            r@ == self@.message(),
    {
        match self {
            ReadError::Busy(s) => text::cat2("稍后重试: ", s.as_str()),
            ReadError::Failed(s) => s.clone(),
            ReadError::Lost(s) => s.clone(),
        }
    }
}

/// A tape that was loaded for reading.
#[derive(Debug, Clone, PartialEq, Eq)]
pub struct ReadTape {
    pub dev: usize,
    pub barcode: String,
    /// When it was last used, in milliseconds.
    pub used: u64,
}

#[verifier::ext_equal]
pub struct ReadTapeView {
    pub dev: usize,
    pub barcode: Seq<char>,
    pub used: u64,
}

impl View for ReadTape {
    type V = ReadTapeView;

    open spec fn view(&self) -> ReadTapeView {
        ReadTapeView { dev: self.dev, barcode: self.barcode@, used: self.used }
    }
}

pub open spec fn read_tape(t: Option<ReadTape>) -> Option<ReadTapeView> {
    match t {
        Some(t) => Some(t@),
        None => None,
    }
}

/// Where a file is read from.
#[derive(Debug)]
pub enum ReadPlan {
    /// The tape that is written, in this device.
    Written { dev: usize },
    /// The tape that was loaded for reading, in this device.
    Loaded { dev: usize },
    /// A tape that has to be loaded.
    Fetch { barcode: String },
    Refused(ReadError),
}

#[verifier::ext_equal]
pub enum ReadPlanView {
    Written { dev: usize },
    Loaded { dev: usize },
    Fetch { barcode: Seq<char> },
    Refused(ReadErrorView),
}

impl View for ReadPlan {
    type V = ReadPlanView;

    open spec fn view(&self) -> ReadPlanView {
        match *self {
            ReadPlan::Written { dev } => ReadPlanView::Written { dev },
            ReadPlan::Loaded { dev } => ReadPlanView::Loaded { dev },
            ReadPlan::Fetch { barcode } => ReadPlanView::Fetch { barcode: barcode@ },
            ReadPlan::Refused(e) => ReadPlanView::Refused(e@),
        }
    }
}

/// Where a file is read from: the directory names the tape.
pub open spec fn source_of(
    svc: ServiceView,
    path: Seq<char>,
    row: Option<StatView>,
    drive: Option<usize>,
    read: Option<ReadTapeView>,
) -> ReadPlanView {
    match svc.stat(path, row) {
        Err(e) => ReadPlanView::Refused(ReadErrorView::Failed(e.message())),
        Ok(None) => ReadPlanView::Refused(
            ReadErrorView::Failed("文件不存在: "@ + path),
        ),
        Ok(Some(st)) => if drive is Some && svc.serving is Some && svc.serving->0.tape.barcode
            == st.barcode {
            ReadPlanView::Written { dev: drive->0 }
        } else if read is Some && read->0.barcode == st.barcode {
            ReadPlanView::Loaded { dev: read->0.dev }
        } else {
            ReadPlanView::Fetch { barcode: st.barcode }
        },
    }
}

/// Where a file is read from.
pub fn plan_read(
    svc: &FileService,
    path: &str,
    row: Option<Stat>,
    drive: Option<usize>,
    read: &Option<ReadTape>,
) -> (r: ReadPlan)
    ensures
        r@ == source_of(svc@, path@, files::stat_view(row), drive, read_tape(*read)),
{
    let st = match svc.stat(path, row) {
        Err(e) => {
            return ReadPlan::Refused(ReadError::Failed(e.message()));
        },
        Ok(None) => {
            return ReadPlan::Refused(
                ReadError::Failed(text::cat2("文件不存在: ", path)),
            );
        },
        Ok(Some(st)) => st,
    };
    let written = match svc.tape() {
        Some(t) => text::same(t.barcode.as_str(), st.barcode.as_str()),
        None => false,
    };
    if written {
        match drive {
            Some(dev) => {
                return ReadPlan::Written { dev };
            },
            None => {},
        }
    }
    match read {
        Some(t) => {
            if text::same(t.barcode.as_str(), st.barcode.as_str()) {
                return ReadPlan::Loaded { dev: t.dev };
            }
        },
        None => {},
    }
    ReadPlan::Fetch { barcode: st.barcode }
}

/// The slot of a tape that has to be loaded.
pub fn slot_of(inv: &Inventory, barcode: &str) -> (r: Result<u16, ReadError>)
    ensures
        match r {
            Ok(a) => inv@.slots.contains_key(barcode@) && a == inv@.slots[barcode@],
            Err(e) => !inv@.slots.contains_key(barcode@) && e@ == ReadErrorView::Failed(
                barcode@ + " 不在库里的存储槽位中"@,
            ),
        },
{
    match inv.slots.get(barcode) {
        Some(a) => Ok(*a),
        None => Err(
            ReadError::Failed(
                text::cat2(barcode, " 不在库里的存储槽位中"),
            ),
        ),
    }
}

/// The device that a tape is loaded into for reading.
#[derive(Debug)]
pub enum Target {
    /// A drive of its own.
    Device { dev: usize },
    /// The only drive: the tape that is written leaves it for the while.
    Swap { dev: usize },
    Refused(ReadError),
}

#[verifier::ext_equal]
pub enum TargetView {
    Device { dev: usize },
    Swap { dev: usize },
    Refused(ReadErrorView),
}

impl View for Target {
    type V = TargetView;

    open spec fn view(&self) -> TargetView {
        match *self {
            Target::Device { dev } => TargetView::Device { dev },
            Target::Swap { dev } => TargetView::Swap { dev },
            Target::Refused(e) => TargetView::Refused(e@),
        }
    }
}

/// The device that a tape is loaded into for reading: the one that was cleared, or a free one that
/// is not written. Where there is none the tape that is written gives way, but only while nothing
/// is being written.
pub open spec fn target_of(
    inv: InventoryView,
    cleared: Option<usize>,
    drive: Option<usize>,
    idle: bool,
    writing: Seq<char>,
    barcode: Seq<char>,
) -> TargetView {
    let free = inv.free_drive_but(drive) as int;
    match cleared {
        Some(dev) => TargetView::Device { dev },
        None => if free < inv.drives.len() {
            TargetView::Device { dev: inv.drives[free].dev }
        } else {
            match drive {
                None => TargetView::Refused(
                    ReadErrorView::Failed("没有可用的驱动器"@),
                ),
                Some(w) => if idle {
                    TargetView::Swap { dev: w }
                } else {
                    TargetView::Refused(
                        ReadErrorView::Busy(
                            "唯一的驱动器正在写入 "@ + writing + "，读 "@ + barcode
                                + " 上的文件要等写入侧空闲"@,
                        ),
                    )
                },
            }
        },
    }
}

/// The device that a tape is loaded into for reading.
pub fn choose_target(
    inv: &Inventory,
    cleared: Option<usize>,
    drive: Option<usize>,
    idle: bool,
    writing: &str,
    barcode: &str,
) -> (r: Target)
    ensures
        r@ == target_of(inv@, cleared, drive, idle, writing@, barcode@),
{
    match cleared {
        Some(dev) => {
            return Target::Device { dev };
        },
        None => {},
    }
    let free = inv.find_free_but(drive);
    if free < inv.drives.len() {
        assert(inv@.drives[free as int] == inv.drives@[free as int]@);
        return Target::Device { dev: inv.drives[free].dev };
    }
    match drive {
        None => Target::Refused(ReadError::Failed("没有可用的驱动器".to_owned())),
        Some(w) => {
            if idle {
                Target::Swap { dev: w }
            } else {
                let mut t = text::cat4(
                    "唯一的驱动器正在写入 ",
                    writing,
                    "，读 ",
                    barcode,
                );
                t.push_str(" 上的文件要等写入侧空闲");
                Target::Refused(ReadError::Busy(t))
            }
        },
    }
}

/// The address of the drive that is the given device.
pub fn address_of(inv: &Inventory, dev: usize) -> (r: Result<u16, ReadError>)
    ensures
        match r {
            Ok(a) => inv@.drive_of(dev) < inv@.drives.len() && a == inv@.drives[inv@.drive_of(
                dev,
            ) as int].addr,
            Err(e) => inv@.drive_of(dev) >= inv@.drives.len() && e@ == ReadErrorView::Failed(
                "驱动器不在库存里"@,
            ),
        },
{
    let i = inv.find_device(dev);
    if i < inv.drives.len() {
        assert(inv@.drives[i as int] == inv.drives@[i as int]@);
        Ok(inv.drives[i].addr)
    } else {
        Err(ReadError::Failed("驱动器不在库存里".to_owned()))
    }
}

/// Whether a tape that was loaded has to be reported in full: the directory has another generation
/// of it than the tape, or none, which counts as 0. The control state's summary may be ahead of the
/// directory, which is why it is not asked.
pub fn needs_report(listed: u64, generation: u64) -> (r: bool)
    ensures
        r == (listed != generation),
{
    listed != generation
}

/// Whether the tape for reading has been idle long enough to go back to its slot.
pub fn is_idle(t: &ReadTape, now: u64, read_idle: u64) -> (r: bool)
    ensures
        r == ((if now > t.used {
            now - t.used
        } else {
            0
        }) >= read_idle),
{
    now.saturating_sub(t.used) >= read_idle
}

/// The tape that is written leaves its drive for a read only where there is no other drive, and
/// only while nothing is being written.
pub proof fn law_writing_is_not_disturbed(
    inv: InventoryView,
    cleared: Option<usize>,
    drive: Option<usize>,
    idle: bool,
    writing: Seq<char>,
    barcode: Seq<char>,
)
    requires
        target_of(inv, cleared, drive, idle, writing, barcode) is Swap,
    ensures
        idle,
        cleared is None,
        forall|i: int|
            0 <= i < inv.drives.len() ==> (#[trigger] inv.drives[i]).loaded is Some || Some(
                inv.drives[i].dev,
            ) == drive,
{
    let f = |d: DriveView| d.loaded is None && Some(d.dev) != drive;
    library::lemma_first_drive(inv.drives, f);
    assert forall|i: int| 0 <= i < inv.drives.len() implies (#[trigger] inv.drives[i]).loaded is Some
        || Some(inv.drives[i].dev) == drive by {
        assert(!f(inv.drives[i]));
    }
}

/// A file is read from a tape only where the directory has it there.
pub proof fn law_read_from_the_named_tape(
    svc: ServiceView,
    path: Seq<char>,
    row: Option<StatView>,
    drive: Option<usize>,
    read: Option<ReadTapeView>,
)
    ensures
        source_of(svc, path, row, drive, read) matches ReadPlanView::Fetch { barcode } ==> (
        svc.stat(path, row) matches Ok(Some(st)) && st.barcode == barcode),
        source_of(svc, path, row, drive, read) is Loaded ==> (svc.stat(path, row) matches Ok(
            Some(st),
        ) && read is Some && read->0.barcode == st.barcode),
        source_of(svc, path, row, drive, read) is Written ==> (svc.stat(path, row) matches Ok(
            Some(st),
        ) && svc.serving is Some && svc.serving->0.tape.barcode == st.barcode),
{
}

} // verus!
