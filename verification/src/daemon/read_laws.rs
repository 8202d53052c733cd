//! What a read from a tape comes to, step by step.
use vstd::prelude::*;

use crate::daemon::library;
use crate::daemon::library::DriveView;
use crate::daemon::read_run;
use crate::daemon::read_run::{ReadEventView, ReadPhase, ReadRunView, ReadStepView};
use crate::daemon::reading::{ReadErrorView, ReadPlanView, ReadTapeView};

verus! {

proof fn lemma_drive_of(s: library::InventoryView, dev: usize)
    ensures
        s.drive_of(dev) < s.drives.len() ==> s.drives[s.drive_of(dev) as int].dev == dev,
        s.drive_of(dev) < s.drives.len() <==> exists|k: int|
            0 <= k < s.drives.len() && (#[trigger] s.drives[k]).dev == dev,
{
    let f = |d: DriveView| d.dev == dev;
    library::lemma_first_drive(s.drives, f);
    let at = s.drive_of(dev) as int;
    if at < s.drives.len() {
        assert(f(s.drives[at]));
    }
    if exists|k: int| 0 <= k < s.drives.len() && (#[trigger] s.drives[k]).dev == dev {
        let k = choose|k: int| 0 <= k < s.drives.len() && (#[trigger] s.drives[k]).dev == dev;
        assert(f(s.drives[k]));
    }
}

/// A file on a tape that is in a drive is read there; for another the tape is looked for; and a read
/// that is refused is over.
pub proof fn law_read_begins_where_the_file_is(
    drive: Option<usize>,
    read: Option<ReadTapeView>,
    dev: usize,
    barcode: Seq<char>,
    e: ReadErrorView,
)
    ensures
        read_run::begun(ReadPlanView::Written { dev }, drive, read).1 == seq![
            ReadStepView::Read { dev },
        ],
        read_run::begun(ReadPlanView::Loaded { dev }, drive, read).1 == seq![
            ReadStepView::Read { dev },
        ],
        ({
            let (s, steps) = read_run::begun(ReadPlanView::Fetch { barcode }, drive, read);
            &&& steps == seq![ReadStepView::Survey]
            &&& s.barcode == barcode && s.drive == drive && s.read == read && !s.swapped
        }),
        read_run::begun(ReadPlanView::Refused(e), drive, read).1 == seq![
            ReadStepView::Done(Err(e)),
        ],
{
}

/// A tape is fetched from the slot that it is in; where it is in none the read fails. The tape that
/// was read before leaves its drive first, where it is still in one, and that drive is then used.
pub proof fn law_tape_is_looked_for(
    s: ReadRunView,
    inv: library::InventoryView,
    idle: bool,
    writing: Seq<char>,
)
    requires
        s.phase == ReadPhase::Looking,
    ensures
        ({
            let (t, steps) = s.next(ReadEventView::Surveyed { inv: Ok(inv), idle, writing });
            let there = inv.slots.contains_key(s.barcode);
            let old_in = s.read is Some && exists|k: int|
                0 <= k < inv.drives.len() && (#[trigger] inv.drives[k]).dev == s.read->0.dev;
            &&& !there ==> t.phase == ReadPhase::Over && steps.len() == 1 && (
            steps[0] matches ReadStepView::Done(Err(ReadErrorView::Failed(_))))
            &&& there ==> t.from == inv.slots[s.barcode] && t.read is None && t.barcode == s.barcode
                && t.drive == s.drive
            &&& there && old_in ==> t.target == Some(s.read->0.dev) && steps == seq![
                ReadStepView::Unload { dev: s.read->0.dev },
            ]
            &&& there && !old_in ==> t.target == s.target && steps == seq![ReadStepView::Survey]
        }),
{
    if s.read is Some {
        lemma_drive_of(inv, s.read->0.dev);
    }
}

/// The tape is loaded from its slot into the drive that was chosen, at that drive's address, and is
/// read in that drive; the directory is told of it just where it has another generation.
pub proof fn law_fetched_tape_is_read_in_its_drive(
    s: ReadRunView,
    inv: library::InventoryView,
    idle: bool,
    writing: Seq<char>,
    dev: usize,
    g: u64,
    listed: u64,
    now: u64,
)
    requires
        s.target == Some(dev),
    ensures
        ({
            let (t, steps) = s.next(ReadEventView::Surveyed { inv: Ok(inv), idle, writing });
            let there = exists|k: int|
                0 <= k < inv.drives.len() && (#[trigger] inv.drives[k]).dev == dev;
            &&& s.phase == ReadPhase::Aiming && there ==> steps.len() == 1 && (
            steps[0] matches ReadStepView::Load { from, to, dev: d } && from == s.from && d == dev
                && exists|k: int|
                0 <= k < inv.drives.len() && (#[trigger] inv.drives[k]).dev == dev
                    && inv.drives[k].addr == to)
            &&& s.phase == ReadPhase::Aiming && !there ==> t.phase == ReadPhase::Over
                && steps.len() == 1 && (steps[0] matches ReadStepView::Done(Err(_)))
        }),
        s.phase == ReadPhase::Loading ==> ({
            let steps = s.next(ReadEventView::Loaded { generation: Ok(g), listed, now }).1;
            &&& steps.last() == ReadStepView::Read { dev }
            &&& steps.contains(ReadStepView::Report { dev }) <==> listed != g
            &&& steps.len() <= 2
        }),
{
    lemma_drive_of(inv, dev);
    let steps = s.next(ReadEventView::Loaded { generation: Ok(g), listed, now }).1;
    if s.phase == ReadPhase::Loading && listed != g {
        assert(steps[0] == (ReadStepView::Report { dev }));
    }
}

/// What was read is what the client gets: at once where the tape that is written stayed in its
/// drive, and else once there is a tape to write to again, with that tape's state told first. A tape
/// in a drive of its own is kept for the next read.
pub proof fn law_client_gets_what_was_read(s: ReadRunView, n: u64, now: u64, summary: Seq<char>)
    ensures
        ({
            let (t, steps) = s.next(ReadEventView::Read { bytes: Ok(n), now });
            let (u, more) = s.next(ReadEventView::Restored(Ok(summary)));
            let done = seq![ReadStepView::Done(Ok(n))];
            &&& s.phase == ReadPhase::FromWritten ==> steps == done && t.read == s.read
            &&& s.phase == ReadPhase::FromLoaded ==> steps == done && (s.read matches Some(old)
                ==> t.read == Some(ReadTapeView { used: now, ..old }))
            &&& s.phase == ReadPhase::FromFetched && !s.swapped && s.target is Some ==> steps
                == done && t.read == Some(
                ReadTapeView { dev: s.target->0, barcode: s.barcode, used: now },
            )
            &&& s.phase == ReadPhase::FromFetched && s.swapped ==> t.result == Some(
                Ok::<u64, ReadErrorView>(n),
            ) && steps == seq![ReadStepView::Survey]
            &&& s.phase == ReadPhase::Restoring && s.result is Some ==> u.phase == ReadPhase::Over
                && more == seq![ReadStepView::Serving(summary), ReadStepView::Done(s.result->0)]
        }),
{
}

/// The tape that was read leaves the drive that it had taken from the tape that is written, and only
/// then is that tape brought back.
pub proof fn law_borrowed_drive_is_cleared(
    s: ReadRunView,
    inv: library::InventoryView,
    idle: bool,
    writing: Seq<char>,
)
    requires
        s.target is Some,
    ensures
        s.phase == ReadPhase::Returning && (exists|k: int|
            0 <= k < inv.drives.len() && (#[trigger] inv.drives[k]).dev == s.target->0) ==> s.next(
            ReadEventView::Surveyed { inv: Ok(inv), idle, writing },
        ).1 == seq![ReadStepView::Unload { dev: s.target->0 }],
        s.phase == ReadPhase::Leaving ==> s.next(ReadEventView::Unloaded(Ok(()))).1 == seq![
            ReadStepView::Restore,
        ],
        s.phase == ReadPhase::Clearing ==> s.next(ReadEventView::Unloaded(Ok(()))).1 == seq![
            ReadStepView::Survey,
        ],
        s.phase == ReadPhase::GivingWay ==> ({
            let (t, steps) = s.next(ReadEventView::Unloaded(Ok(())));
            t.target == s.drive && t.drive is None && t.swapped && steps == seq![
                ReadStepView::Survey,
            ]
        }),
{
    lemma_drive_of(inv, s.target->0);
}

} // verus!
