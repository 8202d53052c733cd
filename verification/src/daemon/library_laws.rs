//! What is known of a library after taking stock, and after a tape was moved.
use vstd::prelude::*;

use crate::changer::element::{ElementType, StatusView};
use crate::daemon::files::{ServiceView, StatView};
use crate::daemon::library;
use crate::daemon::library::{DeviceKind, DeviceView, DriveView, InventoryView};
use crate::daemon::reading;
use crate::daemon::reading::{ReadPlanView, ReadTapeView, TargetView};
use crate::text;

verus! {

/// A storage slot that holds the tape with this barcode.
pub open spec fn slot_with(e: StatusView, b: Seq<char>) -> bool {
    &&& e.element_type == ElementType::Storage
    &&& e.full
    &&& e.volume_tag is Some
    &&& text::stripped(e.volume_tag->0) == b
    &&& b.len() > 0
}

/// A storage slot without a tape.
pub open spec fn slot_empty(e: StatusView, a: u16) -> bool {
    e.element_type == ElementType::Storage && !e.full && e.address == a
}

/// A drive that is one of the devices.
pub open spec fn known_drive(e: StatusView, devices: Seq<DeviceView>, dev: int) -> bool {
    &&& e.element_type == ElementType::DataTransfer
    &&& e.drive_id is Some
    &&& 0 <= dev < devices.len()
    &&& devices[dev].kind == DeviceKind::Drive
    &&& text::has_text(text::stripped(e.drive_id->0), devices[dev].serial) || text::has_text(
        devices[dev].serial,
        text::stripped(e.drive_id->0),
    )
}

/// What the stock says of a drive is what its element says: its device, its address, and the tape in
/// it with the slot that it came from.
pub open spec fn drive_told(d: DriveView, e: StatusView, devices: Seq<DeviceView>) -> bool {
    &&& known_drive(e, devices, d.dev as int)
    &&& d.addr == e.address
    &&& d.loaded is Some <==> e.full && e.volume_tag is Some && text::stripped(
        e.volume_tag->0,
    ).len() > 0
    &&& d.loaded is Some ==> d.loaded->0.barcode == text::stripped(e.volume_tag->0)
        && d.loaded->0.home == e.source_address
}

proof fn lemma_drive_at(devices: Seq<DeviceView>, id: Seq<char>)
    ensures
        library::drive_at(devices, id) <= devices.len(),
        library::drive_at(devices, id) < devices.len() ==> library::is_drive(
            devices[library::drive_at(devices, id) as int],
            id,
        ),
        forall|i: int|
            0 <= i < library::drive_at(devices, id) ==> !library::is_drive(
                #[trigger] devices[i],
                id,
            ),
    decreases devices.len(),
{
    if devices.len() > 0 && !library::is_drive(devices[0], id) {
        let rest = devices.skip(1);
        let n = library::drive_at(rest, id) as int;
        lemma_drive_at(rest, id);
        assert(n < rest.len() ==> rest[n] == devices[n + 1]);
        assert forall|i: int| 0 <= i < n + 1 implies !library::is_drive(
            #[trigger] devices[i],
            id,
        ) by {
            if i > 0 {
                assert(rest[i - 1] == devices[i]);
            }
        }
    }
}

proof fn lemma_push_contains(v: Seq<u16>, x: u16, a: u16)
    ensures
        v.push(x).contains(a) <==> v.contains(a) || x == a,
{
    assert(v.push(x)[v.len() as int] == x);
    if v.contains(a) {
        let i = choose|i: int| 0 <= i < v.len() && v[i] == a;
        assert(v.push(x)[i] == a);
    }
    if v.push(x).contains(a) && x != a {
        let i = choose|i: int| 0 <= i < v.push(x).len() && v.push(x)[i] == a;
        assert(v[i] == a);
    }
}

/// Taking stock finds each tape that lies in a slot, in such a slot; each empty slot, and no other;
/// and of the drives just those that are among the devices, each as its element says.
pub proof fn law_stock_is_what_the_elements_say(
    devices: Seq<DeviceView>,
    elems: Seq<StatusView>,
    b: Seq<char>,
    a: u16,
    k: int,
)
    requires
        devices.len() <= usize::MAX,
    ensures
        ({
            let inv = library::inventory_of(devices, elems);
            &&& inv.slots.contains_key(b) <==> exists|i: int|
                0 <= i < elems.len() && slot_with(#[trigger] elems[i], b)
            &&& inv.slots.contains_key(b) ==> exists|i: int|
                0 <= i < elems.len() && slot_with(#[trigger] elems[i], b) && elems[i].address
                    == inv.slots[b]
            &&& inv.empty_slots.contains(a) <==> exists|i: int|
                0 <= i < elems.len() && slot_empty(#[trigger] elems[i], a)
            &&& 0 <= k < inv.drives.len() ==> exists|i: int|
                0 <= i < elems.len() && drive_told(inv.drives[k], #[trigger] elems[i], devices)
            &&& forall|i: int|
                0 <= i < elems.len() && (exists|dev: int| known_drive(elems[i], devices, dev))
                    ==> exists|j: int|
                    0 <= j < inv.drives.len() && (#[trigger] inv.drives[j]).addr
                        == (#[trigger] elems[i]).address
        }),
    decreases elems.len(),
{
    if elems.len() > 0 {
        let rest = elems.drop_last();
        let e = elems.last();
        let was = library::inventory_of(devices, rest);
        let inv = library::inventory_of(devices, elems);
        let n = elems.len() - 1;
        law_stock_is_what_the_elements_say(devices, rest, b, a, k);
        assert(elems[n] == e);
        assert(forall|i: int| 0 <= i < n ==> #[trigger] rest[i] == elems[i]);
        lemma_push_contains(was.empty_slots, e.address, a);
        let id = text::stripped(e.drive_id->0);
        lemma_drive_at(devices, id);
        let at = library::drive_at(devices, id) as int;
        // slots
        if exists|i: int| 0 <= i < rest.len() && slot_with(#[trigger] rest[i], b) {
            let i = choose|i: int| 0 <= i < rest.len() && slot_with(#[trigger] rest[i], b);
            assert(slot_with(elems[i], b));
        }
        if exists|i: int| 0 <= i < elems.len() && slot_with(#[trigger] elems[i], b) {
            let i = choose|i: int| 0 <= i < elems.len() && slot_with(#[trigger] elems[i], b);
            if i < n {
                assert(slot_with(rest[i], b));
            }
        }
        if was.slots.contains_key(b) {
            let i = choose|i: int|
                0 <= i < rest.len() && slot_with(#[trigger] rest[i], b) && rest[i].address
                    == was.slots[b];
            assert(slot_with(elems[i], b) && elems[i].address == was.slots[b]);
        }
        if slot_with(e, b) {
            assert(slot_with(elems[n], b) && elems[n].address == inv.slots[b]);
        }
        // empty slots
        if exists|i: int| 0 <= i < rest.len() && slot_empty(#[trigger] rest[i], a) {
            let i = choose|i: int| 0 <= i < rest.len() && slot_empty(#[trigger] rest[i], a);
            assert(slot_empty(elems[i], a));
        }
        if exists|i: int| 0 <= i < elems.len() && slot_empty(#[trigger] elems[i], a) {
            let i = choose|i: int| 0 <= i < elems.len() && slot_empty(#[trigger] elems[i], a);
            if i < n {
                assert(slot_empty(rest[i], a));
            }
        }
        if slot_empty(e, a) {
            assert(slot_empty(elems[n], a));
        }
        // drives
        if 0 <= k < inv.drives.len() {
            if k < was.drives.len() {
                assert(inv.drives[k] == was.drives[k]);
                let i = choose|i: int|
                    0 <= i < rest.len() && drive_told(was.drives[k], #[trigger] rest[i], devices);
                assert(drive_told(inv.drives[k], elems[i], devices));
            } else {
                assert(drive_told(inv.drives[k], elems[n], devices));
            }
        }
        assert forall|i: int|
            0 <= i < elems.len() && (exists|dev: int| known_drive(
                elems[i],
                devices,
                dev,
            )) implies exists|j: int|
            0 <= j < inv.drives.len() && (#[trigger] inv.drives[j]).addr == (
            #[trigger] elems[i]).address by {
            if i < n {
                assert(rest[i] == elems[i]);
                let j = choose|j: int|
                    0 <= j < was.drives.len() && (#[trigger] was.drives[j]).addr
                        == rest[i].address;
                assert(inv.drives[j] == was.drives[j]);
            } else {
                let dev = choose|dev: int| known_drive(e, devices, dev);
                assert(library::is_drive(devices[dev], id));
                assert(at <= dev);
                assert(inv.drives[was.drives.len() as int].addr == e.address);
            }
        }
    }
}

proof fn lemma_slots_but(v: Seq<u16>, x: u16, a: u16)
    ensures
        library::slots_but(v, x).contains(a) <==> v.contains(a) && a != x,
    decreases v.len(),
{
    if v.len() > 0 {
        lemma_slots_but(v.drop_last(), x, a);
        lemma_push_contains(v.drop_last(), v.last(), a);
        lemma_push_contains(library::slots_but(v.drop_last(), x), v.last(), a);
        assert(v =~= v.drop_last().push(v.last()));
    }
}

/// A tape that was moved from its slot into a drive is in that drive, with the slot as its home, and
/// in no slot; the slot is empty. Every other drive, tape and slot is as it was.
pub proof fn law_loaded_tape_is_in_the_drive(
    inv: InventoryView,
    barcode: Seq<char>,
    from: u16,
    i: int,
    j: int,
    a: u16,
)
    requires
        0 <= i < inv.drives.len(),
    ensures
        ({
            let w = inv.after_load(barcode, from, i);
            &&& w.drives.len() == inv.drives.len()
            &&& w.drives[i].holds(barcode)
            &&& w.drives[i].loaded->0.home == Some(from)
            &&& w.drives[i].dev == inv.drives[i].dev && w.drives[i].addr == inv.drives[i].addr
            &&& 0 <= j < inv.drives.len() && j != i ==> w.drives[j] == inv.drives[j]
            &&& w.slots == inv.slots.remove(barcode)
            &&& w.empty_slots.contains(a) <==> a == from || inv.empty_slots.contains(a)
        }),
{
    lemma_slots_but(inv.empty_slots, from, a);
    let w = inv.after_load(barcode, from, i);
    let rest = library::slots_but(inv.empty_slots, from);
    assert(w.empty_slots[0] == from);
    if rest.contains(a) {
        let k = choose|k: int| 0 <= k < rest.len() && rest[k] == a;
        assert(w.empty_slots[k + 1] == a);
    }
    if w.empty_slots.contains(a) && a != from {
        let k = choose|k: int| 0 <= k < w.empty_slots.len() && w.empty_slots[k] == a;
        assert(rest[k - 1] == a);
    }
}

/// A tape goes out of a drive just where there is an empty slot, into an empty one; its drive is
/// empty then, the tape is in that slot, and the slot is no longer empty. All else is as it was.
pub proof fn law_unloaded_tape_is_in_a_slot(inv: InventoryView, i: int, j: int, a: u16)
    requires
        0 <= i < inv.drives.len(),
        inv.drives[i].loaded is Some,
    ensures
        ({
            let l = inv.drives[i].loaded->0;
            let w = inv.after_unload(i);
            let dest = library::way_out(l.home, inv.empty_slots);
            &&& dest is None <==> inv.empty_slots.len() == 0
            &&& dest is Some ==> inv.empty_slots.contains(dest->0)
            &&& l.home is Some && inv.empty_slots.contains(l.home->0) ==> dest == l.home
            &&& w.drives[i].loaded is None
            &&& w.drives[i].dev == inv.drives[i].dev && w.drives[i].addr == inv.drives[i].addr
            &&& 0 <= j < inv.drives.len() && j != i ==> w.drives[j] == inv.drives[j]
            &&& dest is Some ==> {
                &&& w.slots == inv.slots.insert(l.barcode, dest->0)
                &&& w.empty_slots.contains(a) <==> inv.empty_slots.contains(a) && a != dest->0
            }
            &&& dest is None ==> w.slots == inv.slots
        }),
{
    let l = inv.drives[i].loaded->0;
    match library::way_out(l.home, inv.empty_slots) {
        Some(d) => {
            lemma_slots_but(inv.empty_slots, d, a);
            assert(inv.empty_slots.len() > 0 ==> inv.empty_slots.contains(inv.empty_slots[0]));
        },
        None => {},
    }
}

/// The drive that is named for a tape holds it, a free drive is empty, and one that is named beside
/// another is not that one; none is named just where there is none.
pub proof fn law_drives_are_found(
    inv: InventoryView,
    barcode: Seq<char>,
    dev: Option<usize>,
    i: int,
)
    ensures
        ({
            let n = inv.drives.len();
            let h = inv.drive_with(barcode);
            let f = inv.free_drive();
            let g = inv.free_drive_but(dev);
            &&& h <= n && (h < n ==> inv.drives[h as int].holds(barcode))
            &&& f <= n && (f < n ==> inv.drives[f as int].loaded is None)
            &&& g <= n && (g < n ==> inv.drives[g as int].loaded is None && Some(
                inv.drives[g as int].dev,
            ) != dev)
            &&& 0 <= i < n && inv.drives[i].holds(barcode) ==> h <= i
            &&& 0 <= i < n && inv.drives[i].loaded is None ==> f <= i
            &&& 0 <= i < n && inv.drives[i].loaded is None && Some(inv.drives[i].dev) != dev ==> g
                <= i
        }),
{
    library::lemma_first_drive(inv.drives, |d: DriveView| d.holds(barcode));
    library::lemma_first_drive(inv.drives, |d: DriveView| d.loaded is None);
    library::lemma_first_drive(
        inv.drives,
        |d: DriveView| d.loaded is None && Some(d.dev) != dev,
    );
}

/// A file is read from where its tape is: from the drive that writes where that tape is being
/// written, from the one that reads where it is loaded there, and else its tape is fetched. It is
/// refused just where there is no such file.
pub proof fn law_file_is_read_where_its_tape_is(
    svc: ServiceView,
    path: Seq<char>,
    row: Option<StatView>,
    drive: Option<usize>,
    read: Option<ReadTapeView>,
)
    ensures
        ({
            let plan = reading::source_of(svc, path, row, drive, read);
            let there = svc.stat(path, row) matches Ok(Some(_));
            let st = svc.stat(path, row)->Ok_0->0;
            let written = drive is Some && svc.serving is Some && svc.serving->0.tape.barcode
                == st.barcode;
            let loaded = read is Some && read->0.barcode == st.barcode;
            &&& plan is Refused <==> !there
            &&& there && written ==> plan == (ReadPlanView::Written { dev: drive->0 })
            &&& there && !written && loaded ==> plan == (ReadPlanView::Loaded { dev: read->0.dev })
            &&& there && !written && !loaded ==> plan == (ReadPlanView::Fetch {
                barcode: st.barcode,
            })
        }),
{
}

/// A tape is loaded for reading into the drive that was cleared for it, or into a free one that is
/// not the one that writes; only where there is none, and nothing is being written, does the tape
/// that is written give way.
pub proof fn law_tape_to_read_finds_a_drive(
    inv: InventoryView,
    cleared: Option<usize>,
    drive: Option<usize>,
    idle: bool,
    writing: Seq<char>,
    barcode: Seq<char>,
)
    ensures
        ({
            let t = reading::target_of(inv, cleared, drive, idle, writing, barcode);
            let free = exists|i: int|
                0 <= i < inv.drives.len() && (#[trigger] inv.drives[i]).loaded is None && Some(
                    inv.drives[i].dev,
                ) != drive;
            &&& cleared matches Some(dev) ==> t == (TargetView::Device { dev })
            &&& cleared is None && free ==> t is Device
            &&& cleared is None && t is Device ==> exists|i: int|
                0 <= i < inv.drives.len() && (#[trigger] inv.drives[i]).loaded is None
                    && inv.drives[i].dev == t->Device_dev && Some(inv.drives[i].dev) != drive
            &&& cleared is None && !free ==> {
                &&& t is Swap <==> drive is Some && idle
                &&& t is Swap ==> Some(t->Swap_dev) == drive
                &&& t is Refused <==> drive is None || !idle
            }
        }),
{
    let f = |d: DriveView| d.loaded is None && Some(d.dev) != drive;
    library::lemma_first_drive(inv.drives, f);
    let n = inv.free_drive_but(drive) as int;
    if n < inv.drives.len() {
        assert(f(inv.drives[n]));
    } else {
        assert forall|i: int| 0 <= i < inv.drives.len() implies !((
        #[trigger] inv.drives[i]).loaded is None && Some(inv.drives[i].dev) != drive) by {
            assert(!f(inv.drives[i]));
        }
    }
}

} // verus!
