//! The library that a node serves: its devices, what lies where, and where a tape goes.
use vstd::prelude::*;

use crate::changer::element::{ElementStatus, ElementType, StatusView};
use crate::changer::element;
use crate::error::{TapeError, TapeErrorView};
use crate::strmap::StrMap;
use crate::text;

verus! {

#[derive(Debug, Clone, Copy, PartialEq, Eq, Structural)]
pub enum DeviceKind {
    Changer,
    Drive,
}

/// A device of the library.
#[derive(Debug, Clone, PartialEq, Eq)]
pub struct ManagedDevice {
    pub name: String,
    /// Its serial number. By it the changer's drive elements are told apart.
    pub serial: String,
    pub kind: DeviceKind,
}

#[verifier::ext_equal]
pub struct DeviceView {
    pub name: Seq<char>,
    pub serial: Seq<char>,
    pub kind: DeviceKind,
}

impl View for ManagedDevice {
    type V = DeviceView;

    open spec fn view(&self) -> DeviceView {
        DeviceView { name: self.name@, serial: self.serial@, kind: self.kind }
    }
}

pub open spec fn device_views(v: Seq<ManagedDevice>) -> Seq<DeviceView> {
    v.map_values(|d: ManagedDevice| d@)
}

/// A device that is looked for.
#[derive(Debug, Clone, PartialEq, Eq)]
pub struct Wanted {
    pub serial: String,
    pub kind: DeviceKind,
}

#[verifier::ext_equal]
pub struct WantedView {
    pub serial: Seq<char>,
    pub kind: DeviceKind,
}

impl View for Wanted {
    type V = WantedView;

    open spec fn view(&self) -> WantedView {
        WantedView { serial: self.serial@, kind: self.kind }
    }
}

pub open spec fn wanted_views(v: Seq<Wanted>) -> Seq<WantedView> {
    v.map_values(|w: Wanted| w@)
}

/// The devices of a library by their serial numbers: device names change, these do not.
#[derive(Debug, Clone, PartialEq, Eq)]
pub struct SgProvider {
    pub changer_serial: Option<String>,
    pub drive_serials: Vec<String>,
}

/// The search for the devices of a library.
#[derive(Debug)]
pub struct DeviceSearch {
    pub wanted: Vec<Wanted>,
    pub found: Vec<ManagedDevice>,
}

/// Where a device with this serial number is first wanted; the length where it is not.
pub open spec fn wanted_at(v: Seq<WantedView>, serial: Seq<char>) -> nat
    decreases v.len(),
{
    if v.len() == 0 || v[0].serial == serial {
        0
    } else {
        1 + wanted_at(v.skip(1), serial)
    }
}

impl SgProvider {
    /// What is looked for: the drives, and the changer last.
    pub open spec fn devices(self) -> Seq<WantedView> {
        self.drive_serials@.map_values(
            |s: String| WantedView { serial: s@, kind: DeviceKind::Drive },
        ) + (match self.changer_serial {
            Some(c) => seq![WantedView { serial: c@, kind: DeviceKind::Changer }],
            None => Seq::empty(),
        })
    }

    /// Begins the search.
    pub fn search(&self) -> (r: DeviceSearch)
        ensures
            wanted_views(r.wanted@) == self.devices(),
            r.found@.len() == 0,
    {
        let mut wanted: Vec<Wanted> = Vec::new();
        let ghost f = |s: String| WantedView { serial: s@, kind: DeviceKind::Drive };
        let mut i: usize = 0;
        while i < self.drive_serials.len()
            invariant
                i <= self.drive_serials@.len(),
                f == (|s: String| WantedView { serial: s@, kind: DeviceKind::Drive }),
                wanted_views(wanted@) == self.drive_serials@.take(i as int).map_values(f),
            decreases self.drive_serials@.len() - i,
        {
            let ghost was = wanted@;
            let w = Wanted { serial: self.drive_serials[i].clone(), kind: DeviceKind::Drive };
            wanted.push(w);
            assert(wanted_views(wanted@) =~= wanted_views(was).push(w@));
            assert(wanted_views(wanted@) =~= self.drive_serials@.take(i + 1).map_values(f));
            i += 1;
        }
        assert(self.drive_serials@.take(i as int) =~= self.drive_serials@);
        let ghost drives = wanted_views(wanted@);
        match &self.changer_serial {
            Some(c) => {
                let w = Wanted { serial: c.clone(), kind: DeviceKind::Changer };
                wanted.push(w);
                assert(wanted_views(wanted@) =~= drives + seq![w@]);
            },
            None => {
                assert(drives + Seq::<WantedView>::empty() =~= drives);
            },
        }
        DeviceSearch { wanted, found: Vec::new() }
    }
}

impl DeviceSearch {
    /// A device with this serial number is there at `path`. Whether it was wanted is the result.
    pub fn offer(&mut self, serial: &str, path: &str) -> (r: bool)
        ensures
            ({
                let was = wanted_views(old(self).wanted@);
                let at = wanted_at(was, serial@);
                &&& r == (at < was.len())
                &&& !r ==> wanted_views(final(self).wanted@) == was && device_views(
                    final(self).found@,
                ) == device_views(old(self).found@)
                &&& r ==> wanted_views(final(self).wanted@) == was.remove(at as int)
                    && device_views(final(self).found@) == device_views(old(self).found@).push(
                    DeviceView {
                        name: serial@ + " ("@ + path@ + ")"@,
                        serial: serial@,
                        kind: was[at as int].kind,
                    },
                )
            }),
    {
        let ghost was = wanted_views(self.wanted@);
        let ghost found0 = device_views(self.found@);
        let n = self.wanted.len();
        let mut i: usize = 0;
        assert(was.skip(0) =~= was);
        while i < n
            invariant
                i <= n == self.wanted@.len(),
                was == wanted_views(self.wanted@),
                was == wanted_views(old(self).wanted@),
                found0 == device_views(self.found@),
                found0 == device_views(old(self).found@),
                wanted_at(was, serial@) == i + wanted_at(was.skip(i as int), serial@),
            decreases n - i,
        {
            let ghost rest = was.skip(i as int);
            assert(rest[0] == self.wanted@[i as int]@);
            if text::same(self.wanted[i].serial.as_str(), serial) {
                let ghost before = self.wanted@;
                let w = self.wanted.remove(i);
                assert(wanted_views(self.wanted@) =~= was.remove(i as int));
                let mut name = text::cat4(serial, " (", path, ")");
                let d = ManagedDevice { name, serial: w.serial, kind: w.kind };
                let ghost fb = self.found@;
                self.found.push(d);
                assert(device_views(self.found@) =~= device_views(fb).push(d@));
                return true;
            }
            assert(rest.skip(1) =~= was.skip(i + 1));
            i += 1;
        }
        false
    }

    /// All devices there are have been offered; an error where one is missing.
    pub fn finish(self) -> (r: Result<Vec<ManagedDevice>, TapeError>)
        ensures
            match r {
                Ok(v) => self.wanted@.len() == 0 && v@ == self.found@,
                Err(e) => self.wanted@.len() > 0 && e@ == TapeErrorView::NotReady(
                    "找不到序列号为 "@ + self.wanted@[0].serial@ + " 的设备"@,
                ),
            },
    {
        if self.wanted.len() > 0 {
            return Err(
                TapeError::NotReady(
                    text::cat3(
                        "找不到序列号为 ",
                        self.wanted[0].serial.as_str(),
                        " 的设备",
                    ),
                ),
            );
        }
        Ok(self.found)
    }
}

/// A tape in a drive, and the slot that it came from.
#[derive(Debug, Clone, PartialEq, Eq)]
pub struct Loaded {
    pub barcode: String,
    pub home: Option<u16>,
}

#[verifier::ext_equal]
pub struct LoadedView {
    pub barcode: Seq<char>,
    pub home: Option<u16>,
}

impl View for Loaded {
    type V = LoadedView;

    open spec fn view(&self) -> LoadedView {
        LoadedView { barcode: self.barcode@, home: self.home }
    }
}

/// A drive as the changer sees it.
#[derive(Debug, Clone, PartialEq, Eq)]
pub struct DriveSlot {
    /// Which of the devices it is.
    pub dev: usize,
    /// The address of its element.
    pub addr: u16,
    pub loaded: Option<Loaded>,
}

#[verifier::ext_equal]
pub struct DriveView {
    pub dev: usize,
    pub addr: u16,
    pub loaded: Option<LoadedView>,
}

impl View for DriveSlot {
    type V = DriveView;

    open spec fn view(&self) -> DriveView {
        DriveView {
            dev: self.dev,
            addr: self.addr,
            loaded: match self.loaded {
                Some(l) => Some(l@),
                None => None,
            },
        }
    }
}

impl DriveView {
    /// It holds this tape.
    pub open spec fn holds(self, barcode: Seq<char>) -> bool {
        self.loaded is Some && self.loaded->0.barcode == barcode
    }
}

pub open spec fn drive_views(v: Seq<DriveSlot>) -> Seq<DriveView> {
    v.map_values(|d: DriveSlot| d@)
}

/// What lies where in the library.
#[derive(Debug)]
pub struct Inventory {
    pub drives: Vec<DriveSlot>,
    /// The slot of each tape that is in one.
    pub slots: StrMap<u16>,
    pub empty_slots: Vec<u16>,
}

#[verifier::ext_equal]
pub struct InventoryView {
    pub drives: Seq<DriveView>,
    pub slots: Map<Seq<char>, u16>,
    pub empty_slots: Seq<u16>,
}

impl View for Inventory {
    type V = InventoryView;

    open spec fn view(&self) -> InventoryView {
        InventoryView {
            drives: drive_views(self.drives@),
            slots: self.slots@,
            empty_slots: self.empty_slots@,
        }
    }
}

/// The barcode that an element tells, without white space; none where it is blank.
pub open spec fn tag_of(e: StatusView) -> Option<Seq<char>> {
    match e.volume_tag {
        Some(t) => if text::stripped(t).len() > 0 {
            Some(text::stripped(t))
        } else {
            None
        },
        None => None,
    }
}

/// A drive with this device identifier: one of the two serial numbers stands in the other.
pub open spec fn is_drive(d: DeviceView, id: Seq<char>) -> bool {
    d.kind == DeviceKind::Drive && (text::has_text(id, d.serial) || text::has_text(d.serial, id))
}

/// The first drive with this device identifier; the length where there is none.
pub open spec fn drive_at(devices: Seq<DeviceView>, id: Seq<char>) -> nat
    decreases devices.len(),
{
    if devices.len() == 0 || is_drive(devices[0], id) {
        0
    } else {
        1 + drive_at(devices.skip(1), id)
    }
}

/// What lies where, after one more element.
pub open spec fn with_element(
    inv: InventoryView,
    devices: Seq<DeviceView>,
    e: StatusView,
) -> InventoryView {
    match e.element_type {
        ElementType::DataTransfer => match e.drive_id {
            None => inv,
            Some(id) => {
                let at = drive_at(devices, text::stripped(id));
                if at < devices.len() {
                    InventoryView {
                        drives: inv.drives.push(
                            DriveView {
                                dev: at as usize,
                                addr: e.address,
                                loaded: if e.full && tag_of(e) is Some {
                                    Some(
                                        LoadedView {
                                            barcode: tag_of(e)->0,
                                            home: e.source_address,
                                        },
                                    )
                                } else {
                                    None
                                },
                            },
                        ),
                        ..inv
                    }
                } else {
                    inv
                }
            },
        },
        ElementType::Storage => if !e.full {
            InventoryView { empty_slots: inv.empty_slots.push(e.address), ..inv }
        } else {
            match tag_of(e) {
                Some(b) => InventoryView { slots: inv.slots.insert(b, e.address), ..inv },
                None => inv,
            }
        },
        _ => inv,
    }
}

/// What lies where, as the elements tell.
pub open spec fn inventory_of(devices: Seq<DeviceView>, elems: Seq<StatusView>) -> InventoryView
    decreases elems.len(),
{
    if elems.len() == 0 {
        InventoryView { drives: Seq::empty(), slots: Map::empty(), empty_slots: Seq::empty() }
    } else {
        with_element(inventory_of(devices, elems.drop_last()), devices, elems.last())
    }
}

fn read_tag(e: &ElementStatus) -> (r: Option<String>)
    ensures
        r is Some <==> tag_of(e@) is Some,
        r is Some ==> r->0@ == tag_of(e@)->0,
{
    match &e.volume_tag {
        Some(t) => {
            let s = text::strip(t.as_str());
            if text::chars(s.as_str()).len() > 0 {
                Some(s)
            } else {
                None
            }
        },
        None => None,
    }
}

fn find_drive(devices: &Vec<ManagedDevice>, id: &str) -> (r: usize)
    ensures
        r == drive_at(device_views(devices@), id@),
        r <= devices@.len(),
{
    let n = devices.len();
    let ghost all = device_views(devices@);
    let mut i: usize = 0;
    assert(all.skip(0) =~= all);
    while i < n
        invariant
            i <= n == devices@.len(),
            all == device_views(devices@),
            drive_at(all, id@) == i + drive_at(all.skip(i as int), id@),
        decreases n - i,
    {
        let ghost rest = all.skip(i as int);
        assert(rest[0] == devices@[i as int]@);
        let d = &devices[i];
        if d.kind == DeviceKind::Drive && (text::contains_text(id, d.serial.as_str())
            || text::contains_text(d.serial.as_str(), id)) {
            return i;
        }
        assert(rest.skip(1) =~= all.skip(i + 1));
        i += 1;
    }
    i
}

/// What lies where, as the elements tell.
pub fn inventory(devices: &Vec<ManagedDevice>, elems: &Vec<ElementStatus>) -> (r: Inventory)
    ensures
        r@ == inventory_of(device_views(devices@), element::status_views(elems@)),
{
    let mut inv = Inventory { drives: Vec::new(), slots: StrMap::new(), empty_slots: Vec::new() };
    let ghost ds = device_views(devices@);
    let ghost es = element::status_views(elems@);
    let mut i: usize = 0;
    proof {
        assert(drive_views(inv.drives@) =~= Seq::<DriveView>::empty());
        assert(inv@ =~= inventory_of(ds, es.take(0)));
    }
    while i < elems.len()
        invariant
            i <= elems@.len(),
            ds == device_views(devices@),
            es == element::status_views(elems@),
            inv@ == inventory_of(ds, es.take(i as int)),
        decreases elems@.len() - i,
    {
        let ghost before = inv@;
        let e = &elems[i];
        assert(es.take(i + 1).drop_last() =~= es.take(i as int));
        assert(es.take(i + 1).last() == e@);
        match e.element_type {
            ElementType::DataTransfer => {
                match &e.drive_id {
                    None => {},
                    Some(id) => {
                        let key = text::strip(id.as_str());
                        let at = find_drive(devices, key.as_str());
                        if at < devices.len() {
                            let loaded = if e.full {
                                match read_tag(e) {
                                    Some(barcode) => Some(
                                        Loaded { barcode, home: e.source_address },
                                    ),
                                    None => None,
                                }
                            } else {
                                None
                            };
                            let d = DriveSlot { dev: at, addr: e.address, loaded };
                            let ghost was = inv.drives@;
                            inv.drives.push(d);
                            assert(drive_views(inv.drives@) =~= drive_views(was).push(d@));
                        }
                    },
                }
            },
            ElementType::Storage => {
                if e.full {
                    match read_tag(e) {
                        Some(b) => {
                            inv.slots.insert(b, e.address);
                        },
                        None => {},
                    }
                } else {
                    inv.empty_slots.push(e.address);
                }
            },
            _ => {},
        }
        assert(inv@ =~= with_element(before, ds, e@));
        i += 1;
    }
    assert(es.take(i as int) =~= es);
    inv
}

/// Where a tape goes out of a drive: to the slot that it came from, or else to the first empty
/// one.
pub open spec fn way_out(home: Option<u16>, empty_slots: Seq<u16>) -> Option<u16> {
    if home is Some && empty_slots.contains(home->0) {
        home
    } else if empty_slots.len() > 0 {
        Some(empty_slots[0])
    } else {
        None
    }
}

fn is_empty_slot(v: &Vec<u16>, a: u16) -> (r: bool)
    ensures
        r == v@.contains(a),
{
    let mut i: usize = 0;
    while i < v.len()
        invariant
            i <= v@.len(),
            forall|j: int| 0 <= j < i ==> #[trigger] v@[j] != a,
        decreases v@.len() - i,
    {
        if v[i] == a {
            assert(v@[i as int] == a);
            return true;
        }
        i += 1;
    }
    false
}

/// The slots but for one.
pub open spec fn slots_but(v: Seq<u16>, a: u16) -> Seq<u16>
    decreases v.len(),
{
    if v.len() == 0 {
        Seq::empty()
    } else if v.last() == a {
        slots_but(v.drop_last(), a)
    } else {
        slots_but(v.drop_last(), a).push(v.last())
    }
}

fn drop_slot(v: &Vec<u16>, a: u16) -> (r: Vec<u16>)
    ensures
        r@ == slots_but(v@, a),
{
    let mut out: Vec<u16> = Vec::new();
    let mut i: usize = 0;
    while i < v.len()
        invariant
            i <= v@.len(),
            out@ == slots_but(v@.take(i as int), a),
        decreases v@.len() - i,
    {
        assert(v@.take(i + 1).drop_last() =~= v@.take(i as int));
        if v[i] != a {
            out.push(v[i]);
        }
        i += 1;
    }
    assert(v@.take(i as int) =~= v@);
    out
}

impl InventoryView {
    /// A drive holds this tape.
    pub open spec fn in_drive(self, barcode: Seq<char>) -> bool {
        exists|i: int| 0 <= i < self.drives.len() && (#[trigger] self.drives[i]).holds(barcode)
    }

    /// The first drive that holds this tape; the length where none does.
    pub open spec fn drive_with(self, barcode: Seq<char>) -> nat {
        first_drive(self.drives, |d: DriveView| d.holds(barcode))
    }

    /// The first drive without a tape; the length where there is none.
    pub open spec fn free_drive(self) -> nat {
        first_drive(self.drives, |d: DriveView| d.loaded is None)
    }

    /// The first drive without a tape that is not the given device.
    pub open spec fn free_drive_but(self, dev: Option<usize>) -> nat {
        first_drive(self.drives, |d: DriveView| d.loaded is None && Some(d.dev) != dev)
    }

    /// The drive that is the given device.
    pub open spec fn drive_of(self, dev: usize) -> nat {
        first_drive(self.drives, |d: DriveView| d.dev == dev)
    }

    /// After a tape was moved from its slot into drive `i`. Its slot is the first to be used.
    pub open spec fn after_load(self, barcode: Seq<char>, from: u16, i: int) -> InventoryView {
        InventoryView {
            drives: self.drives.update(
                i,
                DriveView {
                    loaded: Some(LoadedView { barcode, home: Some(from) }),
                    ..self.drives[i]
                },
            ),
            slots: self.slots.remove(barcode),
            empty_slots: seq![from] + slots_but(self.empty_slots, from),
        }
    }

    /// After the tape in drive `i` was moved out.
    pub open spec fn after_unload(self, i: int) -> InventoryView {
        match self.drives[i].loaded {
            None => self,
            Some(l) => {
                let emptied = InventoryView {
                    drives: self.drives.update(i, DriveView { loaded: None, ..self.drives[i] }),
                    ..self
                };
                match way_out(l.home, self.empty_slots) {
                    Some(dest) => InventoryView {
                        slots: self.slots.insert(l.barcode, dest),
                        empty_slots: slots_but(self.empty_slots, dest),
                        ..emptied
                    },
                    None => emptied,
                }
            },
        }
    }
}

/// The first drive that `f` holds of; the length where there is none.
pub open spec fn first_drive(v: Seq<DriveView>, f: spec_fn(DriveView) -> bool) -> nat
    decreases v.len(),
{
    if v.len() == 0 || f(v[0]) {
        0
    } else {
        1 + first_drive(v.skip(1), f)
    }
}

pub proof fn lemma_first_drive(v: Seq<DriveView>, f: spec_fn(DriveView) -> bool)
    ensures
        first_drive(v, f) <= v.len(),
        first_drive(v, f) < v.len() ==> f(v[first_drive(v, f) as int]),
        forall|i: int| 0 <= i < first_drive(v, f) ==> !f(#[trigger] v[i]),
    decreases v.len(),
{
    if v.len() > 0 && !f(v[0]) {
        let t = v.skip(1);
        lemma_first_drive(t, f);
        assert forall|i: int| 0 <= i < first_drive(v, f) implies !f(#[trigger] v[i]) by {
            if i > 0 {
                assert(!f(t[i - 1]));
            }
        }
        if first_drive(v, f) < v.len() {
            assert(v[first_drive(v, f) as int] == t[first_drive(t, f) as int]);
        }
    }
}

impl Inventory {
    /// Whether a drive holds this tape.
    pub fn is_in_drive(&self, barcode: &str) -> (r: bool)
        ensures
            r == self@.in_drive(barcode@),
    {
        let i = self.find_tape(barcode);
        proof {
            let f = |d: DriveView| d.holds(barcode@);
            lemma_first_drive(self@.drives, f);
            if i < self@.drives.len() {
                assert(self@.drives[i as int].holds(barcode@));
            } else if self@.in_drive(barcode@) {
                let j = choose|j: int|
                    0 <= j < self@.drives.len() && (#[trigger] self@.drives[j]).holds(barcode@);
                assert(!f(self@.drives[j]));
            }
        }
        i < self.drives.len()
    }

    /// The first drive that holds this tape; the length where none does.
    pub fn find_tape(&self, barcode: &str) -> (r: usize)
        ensures
            r == self@.drive_with(barcode@),
            r <= self.drives@.len(),
    {
        let n = self.drives.len();
        let ghost all = self@.drives;
        let ghost f = |d: DriveView| d.holds(barcode@);
        let mut i: usize = 0;
        assert(all.skip(0) =~= all);
        while i < n
            invariant
                i <= n == self.drives@.len(),
                all == self@.drives,
                f == (|d: DriveView| d.holds(barcode@)),
                first_drive(all, f) == i + first_drive(all.skip(i as int), f),
            decreases n - i,
        {
            let ghost rest = all.skip(i as int);
            assert(rest[0] == self.drives@[i as int]@);
            let hit = match &self.drives[i].loaded {
                Some(l) => text::same(l.barcode.as_str(), barcode),
                None => false,
            };
            if hit {
                return i;
            }
            assert(rest.skip(1) =~= all.skip(i + 1));
            i += 1;
        }
        i
    }

    /// The first drive without a tape; the length where there is none.
    pub fn find_free(&self) -> (r: usize)
        ensures
            r == self@.free_drive(),
            r <= self.drives@.len(),
    {
        let n = self.drives.len();
        let ghost all = self@.drives;
        let ghost f = |d: DriveView| d.loaded is None;
        let mut i: usize = 0;
        assert(all.skip(0) =~= all);
        while i < n
            invariant
                i <= n == self.drives@.len(),
                all == self@.drives,
                f == (|d: DriveView| d.loaded is None),
                first_drive(all, f) == i + first_drive(all.skip(i as int), f),
            decreases n - i,
        {
            let ghost rest = all.skip(i as int);
            assert(rest[0] == self.drives@[i as int]@);
            if self.drives[i].loaded.is_none() {
                return i;
            }
            assert(rest.skip(1) =~= all.skip(i + 1));
            i += 1;
        }
        i
    }

    /// The first drive without a tape that is not the given device.
    pub fn find_free_but(&self, dev: Option<usize>) -> (r: usize)
        ensures
            r == self@.free_drive_but(dev),
            r <= self.drives@.len(),
    {
        let n = self.drives.len();
        let ghost all = self@.drives;
        let ghost f = |d: DriveView| d.loaded is None && Some(d.dev) != dev;
        let mut i: usize = 0;
        assert(all.skip(0) =~= all);
        while i < n
            invariant
                i <= n == self.drives@.len(),
                all == self@.drives,
                f == (|d: DriveView| d.loaded is None && Some(d.dev) != dev),
                first_drive(all, f) == i + first_drive(all.skip(i as int), f),
            decreases n - i,
        {
            let ghost rest = all.skip(i as int);
            assert(rest[0] == self.drives@[i as int]@);
            let other = match dev {
                Some(x) => self.drives[i].dev != x,
                None => true,
            };
            if self.drives[i].loaded.is_none() && other {
                return i;
            }
            assert(rest.skip(1) =~= all.skip(i + 1));
            i += 1;
        }
        i
    }

    /// The drive that is the given device; the length where none is.
    pub fn find_device(&self, dev: usize) -> (r: usize)
        ensures
            r == self@.drive_of(dev),
            r <= self.drives@.len(),
    {
        let n = self.drives.len();
        let ghost all = self@.drives;
        let ghost f = |d: DriveView| d.dev == dev;
        let mut i: usize = 0;
        assert(all.skip(0) =~= all);
        while i < n
            invariant
                i <= n == self.drives@.len(),
                all == self@.drives,
                f == (|d: DriveView| d.dev == dev),
                first_drive(all, f) == i + first_drive(all.skip(i as int), f),
            decreases n - i,
        {
            let ghost rest = all.skip(i as int);
            assert(rest[0] == self.drives@[i as int]@);
            if self.drives[i].dev == dev {
                return i;
            }
            assert(rest.skip(1) =~= all.skip(i + 1));
            i += 1;
        }
        i
    }

    /// Where the tape in drive `i` goes: none where the drive is empty, an error where no slot is.
    pub fn unload_to(&self, i: usize) -> (r: Result<Option<u16>, TapeError>)
        requires
            i < self.drives@.len(),
        ensures
            match self@.drives[i as int].loaded {
                None => r is Ok && r->Ok_0 is None,
                Some(l) => match way_out(l.home, self@.empty_slots) {
                    Some(dest) => r is Ok && r->Ok_0 == Some(dest),
                    None => r is Err && r->Err_0@ == TapeErrorView::NotReady(
                        "没有空槽位可卸带"@,
                    ),
                },
            },
    {
        assert(self@.drives[i as int] == self.drives@[i as int]@);
        match &self.drives[i].loaded {
            None => Ok(None),
            Some(l) => {
                match l.home {
                    Some(h) => {
                        if is_empty_slot(&self.empty_slots, h) {
                            return Ok(Some(h));
                        }
                    },
                    None => {},
                }
                if self.empty_slots.len() > 0 {
                    Ok(Some(self.empty_slots[0]))
                } else {
                    Err(TapeError::NotReady("没有空槽位可卸带".to_owned()))
                }
            },
        }
    }

    /// A tape was moved from its slot into drive `i`.
    pub fn loaded(&mut self, barcode: &str, from: u16, i: usize)
        requires
            i < old(self).drives@.len(),
        ensures
            final(self)@ == old(self)@.after_load(barcode@, from, i as int),
    {
        let ghost was = self@;
        let d = DriveSlot {
            dev: self.drives[i].dev,
            addr: self.drives[i].addr,
            loaded: Some(Loaded { barcode: barcode.to_owned(), home: Some(from) }),
        };
        let ghost v = self.drives@;
        assert(was.drives[i as int] == v[i as int]@);
        self.drives.set(i, d);
        assert(drive_views(self.drives@) =~= drive_views(v).update(i as int, d@));
        self.slots.remove(barcode);
        let mut rest = drop_slot(&self.empty_slots, from);
        let ghost r0 = rest@;
        rest.insert(0, from);
        assert(rest@ =~= seq![from] + r0);
        self.empty_slots = rest;
        assert(self@ =~= was.after_load(barcode@, from, i as int));
    }

    /// The tape in drive `i` was moved out.
    pub fn unloaded(&mut self, i: usize)
        requires
            i < old(self).drives@.len(),
        ensures
            final(self)@ == old(self)@.after_unload(i as int),
    {
        let ghost was = self@;
        let ghost v = self.drives@;
        assert(was.drives[i as int] == v[i as int]@);
        let dest = match self.unload_to(i) {
            Ok(d) => d,
            Err(_) => None,
        };
        let l = match &self.drives[i].loaded {
            Some(l) => Loaded { barcode: l.barcode.clone(), home: l.home },
            None => {
                return;
            },
        };
        let d = DriveSlot { dev: self.drives[i].dev, addr: self.drives[i].addr, loaded: None };
        self.drives.set(i, d);
        assert(drive_views(self.drives@) =~= drive_views(v).update(i as int, d@));
        match dest {
            Some(a) => {
                self.slots.insert(l.barcode, a);
                self.empty_slots = drop_slot(&self.empty_slots, a);
            },
            None => {},
        }
        assert(self@ =~= was.after_unload(i as int));
    }
}

/// A tape that came from a slot goes back there, as long as nothing else was put in.
pub proof fn law_tape_goes_home(home: u16, empty_slots: Seq<u16>)
    requires
        empty_slots.contains(home),
    ensures
        way_out(Some(home), empty_slots) == Some(home),
{
}

/// Loading a tape and unloading it again leaves it in the slot that it came from.
pub proof fn law_load_and_unload(inv: InventoryView, barcode: Seq<char>, from: u16, i: int)
    requires
        0 <= i < inv.drives.len(),
        inv.drives[i].loaded is None,
        inv.slots.contains_key(barcode),
        inv.slots[barcode] == from,
    ensures
        inv.after_load(barcode, from, i).after_unload(i).slots == inv.slots,
        inv.after_load(barcode, from, i).after_unload(i).drives == inv.drives,
{
    let mid = inv.after_load(barcode, from, i);
    assert(mid.empty_slots[0] == from);
    assert(mid.empty_slots.contains(from));
    let end = mid.after_unload(i);
    assert(end.slots =~= inv.slots);
    assert(end.drives =~= inv.drives);
}

} // verus!
