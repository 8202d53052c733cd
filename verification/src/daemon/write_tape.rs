//! Choosing the tape that is written: which tapes come into question, in which order they are
//! tried, and what is done with one that cannot be used.
use vstd::prelude::*;

use crate::daemon::directory::{PoolRow, PoolRowView};
use crate::daemon::library;
use crate::daemon::library::{DeviceView, DriveView, Inventory, InventoryView, ManagedDevice};
use crate::daemon::status::{NodeStatus, TapeRow, TapeRowView};
use crate::daemon::tape_state;
use crate::error::TapeError;
use crate::strmap::StrMap;
use crate::text;

verus! {

/// A tape that may be written.
#[derive(Debug, Clone, PartialEq, Eq)]
pub struct Candidate {
    pub barcode: String,
    pub pool_uuid: String,
    pub pool_name: String,
    pub file_limit: u64,
    pub bytes_used: u64,
}

#[verifier::ext_equal]
pub struct CandidateView {
    pub barcode: Seq<char>,
    pub pool_uuid: Seq<char>,
    pub pool_name: Seq<char>,
    pub file_limit: u64,
    pub bytes_used: u64,
}

impl View for Candidate {
    type V = CandidateView;

    open spec fn view(&self) -> CandidateView {
        CandidateView {
            barcode: self.barcode@,
            pool_uuid: self.pool_uuid@,
            pool_name: self.pool_name@,
            file_limit: self.file_limit,
            bytes_used: self.bytes_used,
        }
    }
}

pub open spec fn candidate_views(v: Seq<Candidate>) -> Seq<CandidateView> {
    v.map_values(|c: Candidate| c@)
}

/// A tape takes data as far as the control state knows.
pub open spec fn takes_data(tapes: Map<Seq<char>, TapeRowView>, barcode: Seq<char>) -> bool {
    !tapes.contains_key(barcode) || tapes[barcode].state == tape_state::APPENDABLE@
}

/// The tape is in the library.
pub open spec fn at_hand(inv: InventoryView, barcode: Seq<char>) -> bool {
    inv.in_drive(barcode) || inv.slots.contains_key(barcode)
}

pub open spec fn candidate_of(
    p: PoolRowView,
    tapes: Map<Seq<char>, TapeRowView>,
    barcode: Seq<char>,
) -> CandidateView {
    CandidateView {
        barcode,
        pool_uuid: p.uuid,
        pool_name: p.name,
        file_limit: p.file_limit,
        bytes_used: if tapes.contains_key(barcode) {
            tapes[barcode].bytes_used
        } else {
            0
        },
    }
}

/// `x` is tried before `y`: what is in a drive comes first, then what is fuller, so that one tape
/// is filled before the next is begun, then by barcode.
pub open spec fn before(inv: InventoryView, x: CandidateView, y: CandidateView) -> bool {
    if inv.in_drive(x.barcode) != inv.in_drive(y.barcode) {
        inv.in_drive(x.barcode)
    } else if x.bytes_used != y.bytes_used {
        x.bytes_used > y.bytes_used
    } else {
        text::lt(x.barcode, y.barcode)
    }
}

/// How many at the front of `v` are not tried after `c`.
pub open spec fn place(inv: InventoryView, v: Seq<CandidateView>, c: CandidateView) -> nat
    decreases v.len(),
{
    if v.len() == 0 || before(inv, c, v[0]) {
        0
    } else {
        1 + place(inv, v.skip(1), c)
    }
}

/// The candidates with one more in its place.
pub open spec fn placed(inv: InventoryView, v: Seq<CandidateView>, c: CandidateView) -> Seq<
    CandidateView,
> {
    v.insert(place(inv, v, c) as int, c)
}

/// The candidates with the tapes of a pool that are at hand and take data.
pub open spec fn with_tapes(
    inv: InventoryView,
    tapes: Map<Seq<char>, TapeRowView>,
    p: PoolRowView,
    barcodes: Seq<Seq<char>>,
    v: Seq<CandidateView>,
) -> Seq<CandidateView>
    decreases barcodes.len(),
{
    if barcodes.len() == 0 {
        v
    } else {
        let head = with_tapes(inv, tapes, p, barcodes.drop_last(), v);
        let b = barcodes.last();
        if takes_data(tapes, b) && at_hand(inv, b) {
            placed(inv, head, candidate_of(p, tapes, b))
        } else {
            head
        }
    }
}

/// The candidates of these pools, in the order in which they are tried.
pub open spec fn candidates_of(
    inv: InventoryView,
    tapes: Map<Seq<char>, TapeRowView>,
    pools: Seq<PoolRowView>,
) -> Seq<CandidateView>
    decreases pools.len(),
{
    if pools.len() == 0 {
        Seq::empty()
    } else {
        with_tapes(
            inv,
            tapes,
            pools.last(),
            pools.last().tapes,
            candidates_of(inv, tapes, pools.drop_last()),
        )
    }
}

fn comes_before(inv: &Inventory, x: &Candidate, y: &Candidate) -> (r: bool)
    ensures
        r == before(inv@, x@, y@),
{
    let a = inv.is_in_drive(x.barcode.as_str());
    let b = inv.is_in_drive(y.barcode.as_str());
    if a != b {
        a
    } else if x.bytes_used != y.bytes_used {
        x.bytes_used > y.bytes_used
    } else {
        text::less(x.barcode.as_str(), y.barcode.as_str())
    }
}

fn put_in_place(inv: &Inventory, v: &mut Vec<Candidate>, c: Candidate)
    ensures
        candidate_views(final(v)@) == placed(inv@, candidate_views(old(v)@), c@),
{
    let ghost all = candidate_views(v@);
    let n = v.len();
    let mut i: usize = 0;
    assert(all.skip(0) =~= all);
    while i < n && !comes_before(inv, &c, &v[i])
        invariant
            i <= n == v@.len(),
            v@ == old(v)@,
            all == candidate_views(v@),
            place(inv@, all, c@) == i + place(inv@, all.skip(i as int), c@),
        decreases n - i,
    {
        let ghost rest = all.skip(i as int);
        assert(rest[0] == v@[i as int]@);
        assert(rest.skip(1) =~= all.skip(i + 1));
        i += 1;
    }
    proof {
        let rest = all.skip(i as int);
        if i < n {
            assert(rest[0] == v@[i as int]@);
        }
    }
    let ghost was = v@;
    let ghost cv = c@;
    v.insert(i, c);
    assert(candidate_views(v@) =~= all.insert(i as int, cv));
}

fn is_writable(tapes: &StrMap<TapeRow>, barcode: &str) -> (r: bool)
    ensures
        r == takes_data(tapes@, barcode@),
{
    match tapes.get(barcode) {
        Some(t) => text::same(t.state.as_str(), tape_state::APPENDABLE),
        None => true,
    }
}

fn add_pool(inv: &Inventory, tapes: &StrMap<TapeRow>, p: &PoolRow, v: &mut Vec<Candidate>)
    ensures
        candidate_views(final(v)@) == with_tapes(
            inv@,
            tapes@,
            p@,
            p@.tapes,
            candidate_views(old(v)@),
        ),
{
    let ghost v0 = candidate_views(v@);
    let ghost bs = p@.tapes;
    let mut i: usize = 0;
    while i < p.tapes.len()
        invariant
            i <= p.tapes@.len(),
            bs == p@.tapes,
            v0 == candidate_views(old(v)@),
            candidate_views(v@) == with_tapes(inv@, tapes@, p@, bs.take(i as int), v0),
        decreases p.tapes@.len() - i,
    {
        assert(bs.take(i + 1).drop_last() =~= bs.take(i as int));
        assert(bs.take(i + 1).last() == p.tapes@[i as int]@);
        let b = p.tapes[i].as_str();
        if is_writable(tapes, b) && (inv.is_in_drive(b) || inv.slots.contains_key(b)) {
            let bytes_used: u64 = match tapes.get(b) {
                Some(t) => t.bytes_used,
                None => 0,
            };
            let c = Candidate {
                barcode: b.to_owned(),
                pool_uuid: p.uuid.clone(),
                pool_name: p.name.clone(),
                file_limit: p.file_limit,
                bytes_used,
            };
            assert(c@ =~= candidate_of(p@, tapes@, b@));
            put_in_place(inv, v, c);
        }
        i += 1;
    }
    assert(bs.take(i as int) =~= bs);
}

/// The tapes that may be written, in the order in which they are tried. A tape that is assigned to
/// no pool is none of them.
pub fn candidates(inv: &Inventory, st: &NodeStatus) -> (r: Vec<Candidate>)
    ensures
        candidate_views(r@) == candidates_of(inv@, st@.tapes, st@.pools),
{
    let mut v: Vec<Candidate> = Vec::new();
    let ghost ps = st@.pools;
    let mut i: usize = 0;
    assert(candidate_views(v@) =~= Seq::<CandidateView>::empty());
    while i < st.pools.len()
        invariant
            i <= st.pools@.len(),
            ps == st@.pools,
            candidate_views(v@) == candidates_of(inv@, st@.tapes, ps.take(i as int)),
        decreases st.pools@.len() - i,
    {
        assert(ps.take(i + 1).drop_last() =~= ps.take(i as int));
        assert(ps.take(i + 1).last() == st.pools@[i as int]@);
        add_pool(inv, &st.tapes, &st.pools[i], &mut v);
        i += 1;
    }
    assert(ps.take(i as int) =~= ps);
    v
}

/// No candidate is tried before one that has to be tried first.
pub open spec fn in_order(inv: InventoryView, v: Seq<CandidateView>) -> bool {
    forall|i: int, j: int|
        0 <= i < j < v.len() ==> !before(inv, #[trigger] v[j], #[trigger] v[i])
}

proof fn lemma_before(inv: InventoryView, x: CandidateView, y: CandidateView, z: CandidateView)
    ensures
        before(inv, x, y) && !before(inv, z, y) ==> before(inv, x, z) || !before(inv, z, x),
        !before(inv, y, x) && !before(inv, z, y) ==> !before(inv, z, x),
        before(inv, x, y) ==> !before(inv, y, x),
{
    text::lemma_lt_total(x.barcode, y.barcode);
    text::lemma_lt_total(y.barcode, z.barcode);
    text::lemma_lt_total(x.barcode, z.barcode);
    text::lemma_lt_irreflexive(x.barcode);
    text::lemma_lt_irreflexive(y.barcode);
    text::lemma_lt_irreflexive(z.barcode);
    if text::lt(x.barcode, y.barcode) && text::lt(y.barcode, x.barcode) {
        text::lemma_lt_transitive(x.barcode, y.barcode, x.barcode);
    }
    if text::lt(x.barcode, y.barcode) && text::lt(y.barcode, z.barcode) {
        text::lemma_lt_transitive(x.barcode, y.barcode, z.barcode);
    }
    if text::lt(z.barcode, x.barcode) && text::lt(x.barcode, y.barcode) {
        text::lemma_lt_transitive(z.barcode, x.barcode, y.barcode);
    }
    if text::lt(z.barcode, x.barcode) && text::lt(x.barcode, z.barcode) {
        text::lemma_lt_transitive(z.barcode, x.barcode, z.barcode);
    }
}

proof fn lemma_place(inv: InventoryView, v: Seq<CandidateView>, c: CandidateView)
    ensures
        place(inv, v, c) <= v.len(),
        place(inv, v, c) < v.len() ==> before(inv, c, v[place(inv, v, c) as int]),
        forall|i: int| 0 <= i < place(inv, v, c) ==> !before(inv, c, #[trigger] v[i]),
    decreases v.len(),
{
    if v.len() > 0 && !before(inv, c, v[0]) {
        let t = v.skip(1);
        lemma_place(inv, t, c);
        assert forall|i: int| 0 <= i < place(inv, v, c) implies !before(inv, c, #[trigger] v[i]) by {
            if i > 0 {
                assert(!before(inv, c, t[i - 1]));
            }
        }
        if place(inv, v, c) < v.len() {
            assert(v[place(inv, v, c) as int] == t[place(inv, t, c) as int]);
        }
    }
}

proof fn lemma_placed(inv: InventoryView, v: Seq<CandidateView>, c: CandidateView)
    requires
        in_order(inv, v),
    ensures
        in_order(inv, placed(inv, v, c)),
{
    lemma_place(inv, v, c);
    let k = place(inv, v, c) as int;
    let w = v.insert(k, c);
    assert forall|i: int, j: int| 0 <= i < j < w.len() implies !before(
        inv,
        #[trigger] w[j],
        #[trigger] w[i],
    ) by {
        let a = if i < k {
            i
        } else {
            i - 1
        };
        let b = if j < k {
            j
        } else {
            j - 1
        };
        if i == k {
            // `w[i]` is the new one, and `w[j]` one that comes after it.
            assert(w[j] == v[b]);
            lemma_before(inv, c, v[k], v[b]);
            if b > k {
                assert(!before(inv, v[b], v[k]));
            }
        } else if j == k {
            assert(w[i] == v[a]);
            assert(!before(inv, c, v[a]));
        } else {
            assert(w[i] == v[a] && w[j] == v[b]);
        }
    }
}

proof fn lemma_with_tapes(
    inv: InventoryView,
    tapes: Map<Seq<char>, TapeRowView>,
    p: PoolRowView,
    barcodes: Seq<Seq<char>>,
    v: Seq<CandidateView>,
)
    requires
        in_order(inv, v),
        forall|i: int| 0 <= i < v.len() ==> at_hand(inv, (#[trigger] v[i]).barcode) && takes_data(
            tapes,
            v[i].barcode,
        ),
    ensures
        in_order(inv, with_tapes(inv, tapes, p, barcodes, v)),
        ({
            let w = with_tapes(inv, tapes, p, barcodes, v);
            forall|i: int|
                0 <= i < w.len() ==> at_hand(inv, (#[trigger] w[i]).barcode) && takes_data(
                    tapes,
                    w[i].barcode,
                )
        }),
    decreases barcodes.len(),
{
    if barcodes.len() > 0 {
        lemma_with_tapes(inv, tapes, p, barcodes.drop_last(), v);
        let head = with_tapes(inv, tapes, p, barcodes.drop_last(), v);
        let b = barcodes.last();
        if takes_data(tapes, b) && at_hand(inv, b) {
            let c = candidate_of(p, tapes, b);
            lemma_placed(inv, head, c);
            lemma_place(inv, head, c);
            let k = place(inv, head, c) as int;
            let w = placed(inv, head, c);
            assert forall|i: int| 0 <= i < w.len() implies at_hand(inv, (#[trigger] w[i]).barcode)
                && takes_data(tapes, w[i].barcode) by {
                if i < k {
                    assert(w[i] == head[i]);
                } else if i > k {
                    assert(w[i] == head[i - 1]);
                }
            }
        }
    }
}

/// The tapes that are tried are at hand and take data, and they are tried in order: what is in a
/// drive first, then the fuller one, then by barcode.
pub proof fn law_candidates_are_tried_in_order(
    inv: InventoryView,
    tapes: Map<Seq<char>, TapeRowView>,
    pools: Seq<PoolRowView>,
)
    ensures
        in_order(inv, candidates_of(inv, tapes, pools)),
        ({
            let w = candidates_of(inv, tapes, pools);
            forall|i: int|
                0 <= i < w.len() ==> at_hand(inv, (#[trigger] w[i]).barcode) && takes_data(
                    tapes,
                    w[i].barcode,
                )
        }),
    decreases pools.len(),
{
    if pools.len() > 0 {
        law_candidates_are_tried_in_order(inv, tapes, pools.drop_last());
        lemma_with_tapes(
            inv,
            tapes,
            pools.last(),
            pools.last().tapes,
            candidates_of(inv, tapes, pools.drop_last()),
        );
    }
}

/// A tape's state that the log is told.
#[derive(Debug, Clone, PartialEq, Eq)]
pub struct Mark {
    pub barcode: String,
    pub state: String,
}

#[verifier::ext_equal]
pub struct MarkView {
    pub barcode: Seq<char>,
    pub state: Seq<char>,
}

impl View for Mark {
    type V = MarkView;

    open spec fn view(&self) -> MarkView {
        MarkView { barcode: self.barcode@, state: self.state@ }
    }
}

/// The search for a tape that can be written.
#[derive(Debug)]
pub struct TapeSearch {
    pub inv: Inventory,
    pub cands: Vec<Candidate>,
    /// The candidate that is tried.
    pub next: usize,
    /// The drive that it is tried in.
    pub slot: usize,
    /// What was found on the way.
    pub notes: Vec<String>,
}

#[verifier::ext_equal]
pub struct TapeSearchView {
    pub inv: InventoryView,
    pub cands: Seq<CandidateView>,
    pub next: int,
    pub slot: int,
    pub notes: Seq<Seq<char>>,
}

impl View for TapeSearch {
    type V = TapeSearchView;

    open spec fn view(&self) -> TapeSearchView {
        TapeSearchView {
            inv: self.inv@,
            cands: candidate_views(self.cands@),
            next: self.next as int,
            slot: self.slot as int,
            notes: text::string_views(self.notes@),
        }
    }
}

/// What is done next in the search.
#[derive(Debug, Clone, Copy, PartialEq, Eq, Structural)]
pub enum SearchStep {
    /// The tape is moved from its slot into a drive.
    Load { from: u16, dev: usize, addr: u16 },
    /// The tape in this device is opened.
    Open { dev: usize },
    /// There is no tape to write.
    Nothing,
}

impl TapeSearchView {
    /// What is still to be tried is at hand.
    pub open spec fn wf(self) -> bool {
        &&& 0 <= self.next <= self.cands.len()
        &&& forall|i: int|
            self.next <= i < self.cands.len() ==> at_hand(
                self.inv,
                (#[trigger] self.cands[i]).barcode,
            )
    }

    pub open spec fn noted(self, note: Seq<char>) -> TapeSearchView {
        TapeSearchView { notes: self.notes.push(note), ..self }
    }

    /// What is done next: the candidate is opened in the drive that holds it, or loaded into a
    /// free one. Without a free drive the search ends.
    pub open spec fn step(self) -> (TapeSearchView, SearchStep) {
        if self.next >= self.cands.len() {
            (self, SearchStep::Nothing)
        } else {
            let c = self.cands[self.next];
            let held = self.inv.drive_with(c.barcode) as int;
            let free = self.inv.free_drive() as int;
            if held < self.inv.drives.len() {
                (
                    TapeSearchView { slot: held, ..self },
                    SearchStep::Open { dev: self.inv.drives[held].dev },
                )
            } else if free < self.inv.drives.len() {
                (
                    TapeSearchView { slot: free, ..self },
                    SearchStep::Load {
                        from: self.inv.slots[c.barcode],
                        dev: self.inv.drives[free].dev,
                        addr: self.inv.drives[free].addr,
                    },
                )
            } else {
                (
                    TapeSearchView { next: self.cands.len() as int, ..self }.noted(
                        "没有空闲的驱动器"@,
                    ),
                    SearchStep::Nothing,
                )
            }
        }
    }

    /// The candidate could not be loaded.
    pub open spec fn load_failed(self, e: Seq<char>) -> TapeSearchView {
        TapeSearchView {
            next: self.next + 1,
            ..self.noted(self.cands[self.next].barcode + " 装载失败: "@ + e)
        }
    }

    /// The candidate was loaded.
    pub open spec fn loaded(self) -> TapeSearchView {
        let b = self.cands[self.next].barcode;
        TapeSearchView { inv: self.inv.after_load(b, self.inv.slots[b], self.slot), ..self }
    }

    /// The candidate cannot be used, and was unloaded or not.
    pub open spec fn passed(self, unloaded: bool) -> TapeSearchView {
        TapeSearchView {
            next: self.next + 1,
            inv: if unloaded {
                self.inv.after_unload(self.slot)
            } else {
                self.inv
            },
            ..self
        }
    }

    /// What is said of the tape that was found: also why others were passed over.
    pub open spec fn found(self, summary: Seq<char>) -> Seq<char> {
        if self.notes.len() == 0 {
            summary
        } else {
            summary + "（跳过："@ + text::joined(self.notes, "；"@) + "）"@
        }
    }

    /// A tape of this barcode was a candidate.
    pub open spec fn is_candidate(self, barcode: Seq<char>) -> bool {
        exists|i: int| 0 <= i < self.cands.len() && (#[trigger] self.cands[i]).barcode == barcode
    }

    /// The notes with the tapes in drives that are not touched.
    pub open spec fn with_strangers(
        self,
        devices: Seq<DeviceView>,
        drives: Seq<DriveView>,
    ) -> Seq<Seq<char>>
        decreases drives.len(),
    {
        if drives.len() == 0 {
            self.notes
        } else {
            let head = self.with_strangers(devices, drives.drop_last());
            let d = drives.last();
            if d.loaded is Some && !self.is_candidate(d.loaded->0.barcode) {
                head.push(
                    devices[d.dev as int].name + " 里的 "@ + d.loaded->0.barcode
                        + " 未归属或不可写，不触碰"@,
                )
            } else {
                head
            }
        }
    }

    /// Why nothing is written.
    pub open spec fn why(self, devices: Seq<DeviceView>) -> Seq<char> {
        let notes = self.with_strangers(devices, self.inv.drives);
        if notes.len() == 0 {
            "池里没有已归属且可写的磁带"@
        } else {
            text::joined(notes, "；"@)
        }
    }
}

impl TapeSearch {
    /// Begins the search.
    pub fn begin(inv: Inventory, st: &NodeStatus) -> (r: Self)
        ensures
            r@ == (TapeSearchView {
                inv: inv@,
                cands: candidates_of(inv@, st@.tapes, st@.pools),
                next: 0,
                slot: 0,
                notes: Seq::empty(),
            }),
            r@.wf(),
    {
        let cands = candidates(&inv, st);
        proof {
            law_candidates_are_tried_in_order(inv@, st@.tapes, st@.pools);
        }
        let r = TapeSearch { inv, cands, next: 0, slot: 0, notes: Vec::new() };
        assert(r@.notes =~= Seq::<Seq<char>>::empty());
        r
    }

    fn note(&mut self, s: String)
        ensures
            final(self)@ == old(self)@.noted(s@),
    {
        let ghost was = self.notes@;
        let ghost v = s@;
        self.notes.push(s);
        assert(text::string_views(self.notes@) =~= text::string_views(was).push(v));
    }

    /// What is done next.
    pub fn step(&mut self) -> (r: SearchStep)
        requires
            old(self)@.wf(),
        ensures
            (final(self)@, r) == old(self)@.step(),
            final(self)@.wf(),
            r is Load || r is Open ==> final(self)@.next < final(self)@.cands.len()
                && final(self)@.slot < final(self)@.inv.drives.len(),
            r is Load ==> final(self)@.inv.slots.contains_key(
                final(self)@.cands[final(self)@.next].barcode,
            ),
    {
        if self.next >= self.cands.len() {
            return SearchStep::Nothing;
        }
        let ghost v = self@;
        let ghost c = v.cands[v.next];
        assert(c == self.cands@[self.next as int]@);
        proof {
            library::lemma_first_drive(v.inv.drives, |d: DriveView| d.holds(c.barcode));
            library::lemma_first_drive(v.inv.drives, |d: DriveView| d.loaded is None);
        }
        let held = self.inv.find_tape(self.cands[self.next].barcode.as_str());
        if held < self.inv.drives.len() {
            self.slot = held;
            assert(v.inv.drives[held as int] == self.inv.drives@[held as int]@);
            return SearchStep::Open { dev: self.inv.drives[held].dev };
        }
        proof {
            let f = |d: DriveView| d.holds(c.barcode);
            if v.inv.in_drive(c.barcode) {
                let j = choose|j: int|
                    0 <= j < v.inv.drives.len() && (#[trigger] v.inv.drives[j]).holds(c.barcode);
                assert(!f(v.inv.drives[j]));
            }
            assert(at_hand(v.inv, c.barcode));
        }
        let free = self.inv.find_free();
        if free < self.inv.drives.len() {
            self.slot = free;
            assert(v.inv.drives[free as int] == self.inv.drives@[free as int]@);
            let from: u16 = match self.inv.slots.get(self.cands[self.next].barcode.as_str()) {
                Some(a) => *a,
                None => 0,
            };
            return SearchStep::Load {
                from,
                dev: self.inv.drives[free].dev,
                addr: self.inv.drives[free].addr,
            };
        }
        self.next = self.cands.len();
        self.note("没有空闲的驱动器".to_owned());
        SearchStep::Nothing
    }

    /// The candidate could not be loaded: it is marked for a look and passed over.
    pub fn on_load_failed(&mut self, e: &TapeError) -> (r: Mark)
        requires
            old(self)@.wf(),
            old(self)@.next < old(self)@.cands.len(),
        ensures
            final(self)@ == old(self)@.load_failed(e@.message()),
            final(self)@.wf(),
            r@ == (MarkView {
                barcode: old(self)@.cands[old(self)@.next].barcode,
                state: tape_state::CHECK@,
            }),
    {
        let barcode = self.cands[self.next].barcode.clone();
        let note = text::cat3(barcode.as_str(), " 装载失败: ", e.message().as_str());
        self.note(note);
        let n = self.cands.len();
        assert(self.next < n);
        self.next = self.next + 1;
        Mark { barcode, state: tape_state::CHECK.to_owned() }
    }

    /// The candidate was loaded.
    pub fn on_loaded(&mut self)
        requires
            old(self)@.wf(),
            old(self)@.next < old(self)@.cands.len(),
            old(self)@.slot < old(self)@.inv.drives.len(),
            old(self)@.inv.drives[old(self)@.slot].loaded is None,
            old(self)@.inv.slots.contains_key(old(self)@.cands[old(self)@.next].barcode),
        ensures
            final(self)@ == old(self)@.loaded(),
            final(self)@.wf(),
    {
        let ghost v = self@;
        let barcode = self.cands[self.next].barcode.clone();
        let from: u16 = match self.inv.slots.get(barcode.as_str()) {
            Some(a) => *a,
            None => 0,
        };
        let slot = self.slot;
        self.inv.loaded(barcode.as_str(), from, slot);
        proof {
            assert(self@ =~= v.loaded());
            lemma_still_at_hand(v, self@.inv, slot as int);
        }
    }

    /// The tape can be written: what is said of it.
    pub fn on_opened(&self, summary: String) -> (r: String)
        ensures
            r@ == self@.found(summary@),
    {
        if self.notes.len() == 0 {
            return summary;
        }
        let mut t = text::cat3(
            summary.as_str(),
            "（跳过：",
            text::join(&self.notes, "；").as_str(),
        );
        t.push_str("）");
        t
    }

    /// The tape cannot be used, for this reason: the state that it is marked with.
    pub fn on_refused(&mut self, note: String, state: &str) -> (r: Mark)
        requires
            old(self)@.wf(),
            old(self)@.next < old(self)@.cands.len(),
        ensures
            final(self)@ == old(self)@.noted(note@),
            final(self)@.wf(),
            r@ == (MarkView {
                barcode: old(self)@.cands[old(self)@.next].barcode,
                state: state@,
            }),
    {
        let barcode = self.cands[self.next].barcode.clone();
        self.note(note);
        Mark { barcode, state: state.to_owned() }
    }

    /// The tape that cannot be used has left the drive, or could not be unloaded.
    pub fn on_passed(&mut self, unloaded: bool)
        requires
            old(self)@.wf(),
            old(self)@.next < old(self)@.cands.len(),
            0 <= old(self)@.slot < old(self)@.inv.drives.len(),
            unloaded ==> old(self)@.inv.drives[old(self)@.slot].loaded is Some && library::way_out(
                old(self)@.inv.drives[old(self)@.slot].loaded->0.home,
                old(self)@.inv.empty_slots,
            ) is Some,
        ensures
            final(self)@ == old(self)@.passed(unloaded),
            final(self)@.wf(),
    {
        let ghost v = self@;
        if unloaded {
            let slot = self.slot;
            self.inv.unloaded(slot);
            proof {
                let l = v.inv.drives[slot as int].loaded->0;
                let w = self@.inv;
                assert forall|i: int| v.next <= i < v.cands.len() implies at_hand(
                    w,
                    (#[trigger] v.cands[i]).barcode,
                ) by {
                    let b = v.cands[i].barcode;
                    if b == l.barcode {
                        assert(w.slots.contains_key(b));
                    } else if v.inv.slots.contains_key(b) {
                        assert(w.slots.contains_key(b));
                    } else {
                        let j = choose|j: int|
                            0 <= j < v.inv.drives.len() && (#[trigger] v.inv.drives[j]).holds(b);
                        assert(w.drives[j] == v.inv.drives[j]);
                        assert(w.drives[j].holds(b));
                    }
                }
            }
        }
        let n = self.cands.len();
        assert(self.next < n);
        self.next = self.next + 1;
    }

    /// Nothing can be written: why. The tapes in drives that are none of the candidates are named;
    /// they are not touched.
    pub fn on_nothing(&self, devices: &Vec<ManagedDevice>) -> (r: String)
        requires
            forall|i: int|
                0 <= i < self@.inv.drives.len() ==> (#[trigger] self@.inv.drives[i]).dev
                    < devices@.len(),
        ensures
            r@ == self@.why(library::device_views(devices@)),
    {
        let ghost ds = library::device_views(devices@);
        let ghost all = self@.inv.drives;
        let mut notes: Vec<String> = Vec::new();
        let mut k: usize = 0;
        while k < self.notes.len()
            invariant
                k <= self.notes@.len(),
                text::string_views(notes@) == self@.notes.take(k as int),
            decreases self.notes@.len() - k,
        {
            let ghost was = notes@;
            let s = self.notes[k].clone();
            notes.push(s);
            assert(text::string_views(notes@) =~= text::string_views(was).push(s@));
            assert(self@.notes.take(k + 1) =~= self@.notes.take(k as int).push(s@));
            k += 1;
        }
        assert(self@.notes.take(k as int) =~= self@.notes);
        let mut i: usize = 0;
        while i < self.inv.drives.len()
            invariant
                i <= self.inv.drives@.len(),
                all == self@.inv.drives,
                ds == library::device_views(devices@),
                forall|j: int|
                    0 <= j < all.len() ==> (#[trigger] all[j]).dev < devices@.len(),
                text::string_views(notes@) == self@.with_strangers(ds, all.take(i as int)),
            decreases self.inv.drives@.len() - i,
        {
            assert(all.take(i + 1).drop_last() =~= all.take(i as int));
            assert(all.take(i + 1).last() == self.inv.drives@[i as int]@);
            assert(all[i as int].dev < devices@.len());
            let d = &self.inv.drives[i];
            match &d.loaded {
                Some(l) => {
                    if !self.tried(l.barcode.as_str()) {
                        let ghost was = notes@;
                        let s = text::cat4(
                            devices[d.dev].name.as_str(),
                            " 里的 ",
                            l.barcode.as_str(),
                            " 未归属或不可写，不触碰",
                        );
                        notes.push(s);
                        assert(text::string_views(notes@) =~= text::string_views(was).push(s@));
                        assert(ds[d.dev as int] == devices@[d.dev as int]@);
                    }
                },
                None => {},
            }
            i += 1;
        }
        assert(all.take(i as int) =~= all);
        if notes.len() == 0 {
            "池里没有已归属且可写的磁带".to_owned()
        } else {
            text::join(&notes, "；")
        }
    }

    fn tried(&self, barcode: &str) -> (r: bool)
        ensures
            r == self@.is_candidate(barcode@),
    {
        let mut i: usize = 0;
        while i < self.cands.len()
            invariant
                i <= self.cands@.len(),
                forall|j: int| 0 <= j < i ==> (#[trigger] self@.cands[j]).barcode != barcode@,
            decreases self.cands@.len() - i,
        {
            assert(self@.cands[i as int] == self.cands@[i as int]@);
            if text::same(self.cands[i].barcode.as_str(), barcode) {
                return true;
            }
            i += 1;
        }
        false
    }
}

proof fn lemma_still_at_hand(v: TapeSearchView, w: InventoryView, slot: int)
    requires
        v.wf(),
        v.next < v.cands.len(),
        0 <= slot < v.inv.drives.len(),
        v.inv.drives[slot].loaded is None,
        w == v.inv.after_load(
            v.cands[v.next].barcode,
            v.inv.slots[v.cands[v.next].barcode],
            slot,
        ),
    ensures
        forall|i: int|
            v.next <= i < v.cands.len() ==> at_hand(w, (#[trigger] v.cands[i]).barcode),
{
    let b0 = v.cands[v.next].barcode;
    assert forall|i: int| v.next <= i < v.cands.len() implies at_hand(
        w,
        (#[trigger] v.cands[i]).barcode,
    ) by {
        let b = v.cands[i].barcode;
        if b == b0 {
            assert(w.drives[slot].holds(b));
        } else if v.inv.slots.contains_key(b) {
            assert(w.slots.contains_key(b));
        } else {
            let j = choose|j: int|
                0 <= j < v.inv.drives.len() && (#[trigger] v.inv.drives[j]).holds(b);
            assert(j != slot);
            assert(w.drives[j] == v.inv.drives[j]);
            assert(w.drives[j].holds(b));
        }
    }
}

proof fn lemma_only_members(
    inv: InventoryView,
    tapes: Map<Seq<char>, TapeRowView>,
    p: PoolRowView,
    barcodes: Seq<Seq<char>>,
    v: Seq<CandidateView>,
    i: int,
)
    requires
        0 <= i < with_tapes(inv, tapes, p, barcodes, v).len(),
    ensures
        ({
            let b = with_tapes(inv, tapes, p, barcodes, v)[i].barcode;
            barcodes.contains(b) || exists|k: int| 0 <= k < v.len() && (#[trigger] v[k]).barcode
                == b
        }),
    decreases barcodes.len(),
{
    let w = with_tapes(inv, tapes, p, barcodes, v);
    if barcodes.len() == 0 {
        assert(v[i].barcode == w[i].barcode);
    } else {
        let init = barcodes.drop_last();
        let head = with_tapes(inv, tapes, p, init, v);
        let b = barcodes.last();
        assert(barcodes[barcodes.len() - 1] == b);
        if takes_data(tapes, b) && at_hand(inv, b) {
            let c = candidate_of(p, tapes, b);
            lemma_place(inv, head, c);
            let k = place(inv, head, c) as int;
            if i != k {
                let a = if i < k {
                    i
                } else {
                    i - 1
                };
                assert(w[i] == head[a]);
                lemma_only_members(inv, tapes, p, init, v, a);
                if init.contains(w[i].barcode) {
                    let x = choose|x: int| 0 <= x < init.len() && init[x] == w[i].barcode;
                    assert(barcodes[x] == w[i].barcode);
                }
            }
        } else {
            lemma_only_members(inv, tapes, p, init, v, i);
            if init.contains(w[i].barcode) {
                let x = choose|x: int| 0 <= x < init.len() && init[x] == w[i].barcode;
                assert(barcodes[x] == w[i].barcode);
            }
        }
    }
}

/// A tape that is assigned to no pool is never tried: every candidate is a tape of a pool.
pub proof fn law_unassigned_tapes_are_not_touched(
    inv: InventoryView,
    tapes: Map<Seq<char>, TapeRowView>,
    pools: Seq<PoolRowView>,
    i: int,
)
    requires
        0 <= i < candidates_of(inv, tapes, pools).len(),
    ensures
        exists|k: int|
            0 <= k < pools.len() && (#[trigger] pools[k]).tapes.contains(
                candidates_of(inv, tapes, pools)[i].barcode,
            ),
    decreases pools.len(),
{
    let w = candidates_of(inv, tapes, pools);
    if pools.len() > 0 {
        let init = pools.drop_last();
        let p = pools.last();
        let v = candidates_of(inv, tapes, init);
        lemma_only_members(inv, tapes, p, p.tapes, v, i);
        if p.tapes.contains(w[i].barcode) {
            assert(pools[pools.len() - 1].tapes.contains(w[i].barcode));
        } else {
            let k = choose|k: int| 0 <= k < v.len() && (#[trigger] v[k]).barcode == w[i].barcode;
            law_unassigned_tapes_are_not_touched(inv, tapes, init, k);
            let x = choose|x: int|
                0 <= x < init.len() && (#[trigger] init[x]).tapes.contains(v[k].barcode);
            assert(pools[x].tapes.contains(w[i].barcode));
        }
    }
}

} // verus!
