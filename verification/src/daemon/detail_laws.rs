//! What errors, names and answers mean.
use vstd::prelude::*;

use crate::daemon::executor;
use crate::daemon::http;
use crate::daemon::http::AdminOutcome;
use crate::daemon::library;
use crate::daemon::library::{DeviceView, DriveView, WantedView};
use crate::daemon::opening;
use crate::daemon::paths;
use crate::daemon::paths::InFlight;
use crate::daemon::write_tape::TapeSearchView;
use crate::engine::volume_state::{PendingEntry, PendingState};
use crate::error::{TapeError, TapeErrorView};

verus! {

/// A volume is named by the beginning of its barcode, six characters of it where it has as many.
pub proof fn law_volume_has_the_name_of_its_barcode(barcode: Seq<char>)
    ensures
        opening::volume_name(barcode).is_prefix_of(barcode),
        barcode.len() >= 6 ==> opening::volume_name(barcode).len() == 6,
        barcode.len() < 6 ==> opening::volume_name(barcode) == barcode,
{
    assert(barcode.take(barcode.len() as int) =~= barcode);
}

/// A device has gone to someone else just where a reservation is in the way, or where it has been
/// reset, or where its reservations have been taken over or released. Nothing else says so, no
/// error of the medium and none of the host.
pub proof fn law_what_says_that_a_device_is_lost(e: TapeErrorView)
    ensures
        e is ReservationConflict ==> e.ownership_lost(),
        e matches TapeErrorView::ScsiCommand { sense_key, asc, ascq, .. } ==> {
            &&& sense_key != 6 ==> !e.ownership_lost()
            &&& sense_key == 6 && asc == 0x29 ==> e.ownership_lost()
            &&& sense_key == 6 && asc == 0x2a ==> (e.ownership_lost() <==> 3 <= ascq <= 5)
            &&& sense_key == 6 && asc != 0x29 && asc != 0x2a ==> !e.ownership_lost()
        },
        !(e is ReservationConflict) && !(e is ScsiCommand) ==> !e.ownership_lost(),
{
}

/// A look at the holder of a device ends the round just where it says that the device is lost, and
/// the device is named then.
pub proof fn law_lost_device_ends_the_round(d: DeviceView, r: Result<(), TapeError>)
    ensures
        executor::holder_verdict(d, r) is Some <==> (r matches Err(e) && e@.ownership_lost()),
        executor::holder_verdict(d, r) matches Some(why) ==> d.name.is_prefix_of(why),
{
    if let Err(e) = r {
        let why = d.name + ": "@ + e@.message();
        assert(why.take(d.name.len() as int) =~= d.name);
    }
}

/// A drive is waited for just where it says itself that it is not ready.
pub proof fn law_what_is_waited_for(e: TapeErrorView)
    ensures
        executor::says_not_ready(e) <==> e is ScsiCommand && e->sense_key == 2,
        executor::says_not_ready(e) ==> !e.ownership_lost(),
{
}

/// A command is answered as done just where it was done, as refused just where it was rejected, and
/// where nobody can say, as open.
pub proof fn law_commands_are_answered(o: AdminOutcome, addrs: Map<u64, Seq<char>>)
    ensures
        ({
            let code = http::admin_doc(o, addrs).code;
            &&& code == 200 <==> o is Reply && o->Reply_0@ is Done
            &&& code == 409 <==> o is Reply && o->Reply_0@ is Rejected
            &&& code == 504 <==> o is Unknown
            &&& code == 503 <==> o is Gone || (o is Reply && o->Reply_0@ is NotLeader)
        }),
{
}

/// A device is found among those that are wanted at the first that has its serial number.
pub proof fn law_wanted_device_is_found(v: Seq<WantedView>, serial: Seq<char>)
    ensures
        library::wanted_at(v, serial) <= v.len(),
        library::wanted_at(v, serial) < v.len() ==> v[library::wanted_at(v, serial) as int].serial
            == serial,
        forall|i: int|
            0 <= i < library::wanted_at(v, serial) ==> (#[trigger] v[i]).serial != serial,
    decreases v.len(),
{
    if v.len() > 0 && v[0].serial != serial {
        let t = v.skip(1);
        law_wanted_device_is_found(t, serial);
        assert forall|i: int| 0 <= i < library::wanted_at(v, serial) implies (
        #[trigger] v[i]).serial != serial by {
            if i > 0 {
                assert(t[i - 1].serial != serial);
            }
        }
    }
}

/// A change under way is told as what it is: a removal as such, and any other by whether it has all
/// come.
pub proof fn law_change_under_way_is_told(e: PendingEntry)
    ensures
        paths::flight(e) == InFlight::Deleting <==> e.removal,
        paths::flight(e) == InFlight::Staged <==> !e.removal && e.state == PendingState::Ready,
        paths::flight(e) == InFlight::Uploading <==> !e.removal && e.state != PendingState::Ready,
{
}

/// Of the drives just those are remarked on that hold a tape which is no candidate, each once and
/// in their order, behind what the search itself has noted.
pub proof fn law_strangers_are_noted(
    s: TapeSearchView,
    devices: Seq<DeviceView>,
    drives: Seq<DriveView>,
    d: DriveView,
)
    ensures
        ({
            let before = s.with_strangers(devices, drives);
            let after = s.with_strangers(devices, drives.push(d));
            let stranger = d.loaded is Some && !s.is_candidate(d.loaded->0.barcode);
            &&& s.with_strangers(devices, Seq::empty()) == s.notes
            &&& !stranger ==> after == before
            &&& stranger ==> after.len() == before.len() + 1 && before.is_prefix_of(after)
                && devices[d.dev as int].name.is_prefix_of(after.last())
        }),
{
    assert(drives.push(d).drop_last() =~= drives);
    let before = s.with_strangers(devices, drives);
    let after = s.with_strangers(devices, drives.push(d));
    if d.loaded is Some && !s.is_candidate(d.loaded->0.barcode) {
        assert(after.take(before.len() as int) =~= before);
        let name = devices[d.dev as int].name;
        assert(after.last().take(name.len() as int) =~= name);
    }
}

/// The target of a link is good just where it is not empty and has no character that a document
/// cannot hold: no control character but the tab and the ends of lines, and neither of the two
/// that stand for none.
pub proof fn law_which_targets_are_good(s: Seq<char>)
    ensures
        paths::good_target(s) <==> s.len() > 0 && !exists|i: int|
            0 <= i < s.len() && {
                let n = (#[trigger] s[i]) as int;
                (n < 32 && n != 9 && n != 10 && n != 13) || n == 0xfffe || n == 0xffff
            },
{
}

} // verus!
