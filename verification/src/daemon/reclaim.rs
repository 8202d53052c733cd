//! Reclaiming a tape: its live files move to other tapes of the pool, and once nothing on it is
//! live any more it is formatted.
use vstd::prelude::*;

use crate::daemon::directory::PoolRowView;
use crate::daemon::files::BatchPolicy;
use crate::daemon::library::{DeviceKind, Inventory, InventoryView, ManagedDevice};
use crate::daemon::nodes;
use crate::daemon::nodes::{IndexDirectory, IndexDirectoryView, IndexFile, IndexFileView};
use crate::daemon::opening;
use crate::daemon::paths::{ServiceError, ServiceErrorView};
use crate::daemon::status::{NodeStatus, TapeRow, TapeRowView};
use crate::daemon::tape_state;
use crate::error::{TapeError, TapeErrorView};
use crate::strmap;
use crate::strmap::StrMap;
use crate::text;

verus! {

/// How often a reclamation makes way for a path that clients keep writing.
pub const RECLAIM_MAX_PASSES: u32 = 20;

/// After so many attempts to begin that fail, a reclamation is given up.
pub const RECLAIM_START_ATTEMPTS: u32 = 5;

/// For so many cycles a tape whose reclamation was given up is left alone.
pub const RECLAIM_GIVE_UP_GRACE: u32 = 10;

/// For so many cycles a reclamation waits for the directory.
pub const RECLAIM_MAX_WAITS: u32 = 100;

/// A reclamation under way.
#[derive(Debug)]
pub struct Reclaim {
    pub barcode: String,
    /// The device that the tape is in.
    pub drive: usize,
    /// The paths that are still to be looked at, the next one last.
    pub todo: Vec<String>,
    /// Those that were passed over in this pass.
    pub retry: Vec<String>,
    pub passes: u32,
    /// The cycles that it has waited for the directory.
    pub waits: u32,
    pub copied: u64,
    pub bytes: u64,
    /// Paths whose current version is elsewhere.
    pub superseded: u64,
}

#[verifier::ext_equal]
pub struct ReclaimView {
    pub barcode: Seq<char>,
    pub drive: usize,
    pub todo: Seq<Seq<char>>,
    pub retry: Seq<Seq<char>>,
    pub passes: u32,
    pub waits: u32,
    pub copied: u64,
    pub bytes: u64,
    pub superseded: u64,
}

impl View for Reclaim {
    type V = ReclaimView;

    open spec fn view(&self) -> ReclaimView {
        ReclaimView {
            barcode: self.barcode@,
            drive: self.drive,
            todo: text::string_views(self.todo@),
            retry: text::string_views(self.retry@),
            passes: self.passes,
            waits: self.waits,
            copied: self.copied,
            bytes: self.bytes,
            superseded: self.superseded,
        }
    }
}

/// A tape whose reclamation was given up, and the cycles since.
#[derive(Debug, Clone, PartialEq, Eq)]
pub struct GivenUp {
    pub barcode: String,
    pub cycles: u32,
}

#[verifier::ext_equal]
pub struct GivenUpView {
    pub barcode: Seq<char>,
    pub cycles: u32,
}

impl View for GivenUp {
    type V = GivenUpView;

    open spec fn view(&self) -> GivenUpView {
        GivenUpView { barcode: self.barcode@, cycles: self.cycles }
    }
}

/// A reclamation that was given up: why, and the state that the tape gets.
#[derive(Debug, Clone, PartialEq, Eq)]
pub struct Abandoned {
    pub barcode: String,
    pub reason: String,
    pub state: String,
}

#[verifier::ext_equal]
pub struct AbandonedView {
    pub barcode: Seq<char>,
    pub reason: Seq<char>,
    pub state: Seq<char>,
}

impl View for Abandoned {
    type V = AbandonedView;

    open spec fn view(&self) -> AbandonedView {
        AbandonedView { barcode: self.barcode@, reason: self.reason@, state: self.state@ }
    }
}

/// What a device thread knows of reclamation.
#[derive(Debug)]
pub struct Desk {
    pub current: Option<Reclaim>,
    /// The attempts to begin that failed in a row.
    pub failures: u32,
    pub given_up: Option<GivenUp>,
}

#[verifier::ext_equal]
pub struct DeskView {
    pub current: Option<ReclaimView>,
    pub failures: u32,
    pub given_up: Option<GivenUpView>,
}

impl View for Desk {
    type V = DeskView;

    open spec fn view(&self) -> DeskView {
        DeskView {
            current: match self.current {
                Some(r) => Some(r@),
                None => None,
            },
            failures: self.failures,
            given_up: match self.given_up {
                Some(g) => Some(g@),
                None => None,
            },
        }
    }
}

/// Where in the order of barcodes a tape that waits for reclamation first stands; the length where
/// none waits.
pub open spec fn first_waiting(ks: Seq<Seq<char>>, tapes: Map<Seq<char>, TapeRowView>) -> nat
    decreases ks.len(),
{
    if ks.len() == 0 || tapes[ks[0]].state == tape_state::RECLAIMING@ {
        0
    } else {
        1 + first_waiting(ks.skip(1), tapes)
    }
}

/// The tape that waits for reclamation.
pub open spec fn waiting(tapes: Map<Seq<char>, TapeRowView>) -> Option<Seq<char>> {
    let ks = strmap::sorted_keys(tapes);
    let i = first_waiting(ks, tapes) as int;
    if i < ks.len() {
        Some(ks[i])
    } else {
        None
    }
}

/// The tape that waits for reclamation.
pub fn pending_reclaim(tapes: &StrMap<TapeRow>) -> (r: Option<String>)
    ensures
        match waiting(tapes@) {
            Some(b) => r is Some && r->0@ == b,
            None => r is None,
        },
{
    let n = tapes.len();
    let ghost ks = strmap::sorted_keys(tapes@);
    let mut i: usize = 0;
    assert(ks.skip(0) =~= ks);
    while i < n
        invariant
            i <= n == ks.len(),
            ks == strmap::sorted_keys(tapes@),
            first_waiting(ks, tapes@) == i + first_waiting(ks.skip(i as int), tapes@),
        decreases n - i,
    {
        let ghost rest = ks.skip(i as int);
        if text::same(tapes.value_at(i).state.as_str(), tape_state::RECLAIMING) {
            return Some(tapes.key_at(i).clone());
        }
        assert(rest.skip(1) =~= ks.skip(i + 1));
        i += 1;
    }
    None
}

/// The first of the pools that a tape belongs to; the length where it belongs to none.
pub open spec fn pool_at(pools: Seq<PoolRowView>, barcode: Seq<char>) -> nat
    decreases pools.len(),
{
    if pools.len() == 0 || pools[0].tapes.contains(barcode) {
        0
    } else {
        1 + pool_at(pools.skip(1), barcode)
    }
}

fn lists(v: &Vec<String>, b: &str) -> (r: bool)
    ensures
        r == text::string_views(v@).contains(b@),
{
    let ghost all = text::string_views(v@);
    let mut i: usize = 0;
    while i < v.len()
        invariant
            i <= v@.len(),
            all == text::string_views(v@),
            forall|j: int| 0 <= j < i ==> #[trigger] all[j] != b@,
        decreases v@.len() - i,
    {
        if text::same(v[i].as_str(), b) {
            assert(all[i as int] == b@);
            return true;
        }
        i += 1;
    }
    false
}

/// The identifier and the name of the pool that a tape belongs to.
pub fn pool_of(st: &NodeStatus, barcode: &str) -> (r: Option<(String, String)>)
    ensures
        ({
            let i = pool_at(st@.pools, barcode@) as int;
            if i < st@.pools.len() {
                &&& r is Some
                &&& (r->0).0@ == st@.pools[i].uuid
                &&& (r->0).1@ == st@.pools[i].name
            } else {
                r is None
            }
        }),
{
    let n = st.pools.len();
    let ghost all = st@.pools;
    let mut i: usize = 0;
    assert(all.skip(0) =~= all);
    while i < n
        invariant
            i <= n == st.pools@.len(),
            all == st@.pools,
            pool_at(all, barcode@) == i + pool_at(all.skip(i as int), barcode@),
        decreases n - i,
    {
        let ghost rest = all.skip(i as int);
        assert(rest[0] == st.pools@[i as int]@);
        assert(all[i as int] == st.pools@[i as int]@);
        if lists(&st.pools[i].tapes, barcode) {
            return Some((st.pools[i].uuid.clone(), st.pools[i].name.clone()));
        }
        assert(rest.skip(1) =~= all.skip(i + 1));
        i += 1;
    }
    None
}

/// What is done in a cycle about reclamation.
#[derive(Debug, Clone, PartialEq, Eq)]
pub enum DeskStep {
    /// Nothing.
    Rest,
    /// A reclamation begins with this tape.
    Start { barcode: String },
    /// The one under way goes on.
    Continue,
}

#[verifier::ext_equal]
pub enum DeskStepView {
    Rest,
    Start { barcode: Seq<char> },
    Continue,
}

impl View for DeskStep {
    type V = DeskStepView;

    open spec fn view(&self) -> DeskStepView {
        match *self {
            DeskStep::Rest => DeskStepView::Rest,
            DeskStep::Start { barcode } => DeskStepView::Start { barcode: barcode@ },
            DeskStep::Continue => DeskStepView::Continue,
        }
    }
}

impl DeskView {
    /// What is done in a cycle. A tape whose reclamation was given up rests until the log has its
    /// new state, or for so many cycles.
    pub open spec fn cycle(self, tapes: Map<Seq<char>, TapeRowView>) -> (DeskView, DeskStepView) {
        if self.current is Some {
            (self, DeskStepView::Continue)
        } else {
            match waiting(tapes) {
                None => (DeskView { given_up: None, ..self }, DeskStepView::Rest),
                Some(b) => if self.given_up is Some && self.given_up->0.barcode == b
                    && self.given_up->0.cycles < RECLAIM_GIVE_UP_GRACE {
                    (
                        DeskView {
                            given_up: Some(
                                GivenUpView {
                                    cycles: (self.given_up->0.cycles + 1) as u32,
                                    ..self.given_up->0
                                },
                            ),
                            ..self
                        },
                        DeskStepView::Rest,
                    )
                } else {
                    (DeskView { given_up: None, ..self }, DeskStepView::Start { barcode: b })
                },
            }
        }
    }

    /// The reclamation of a tape is given up.
    pub open spec fn abandoned(self, barcode: Seq<char>) -> DeskView {
        DeskView { given_up: Some(GivenUpView { barcode, cycles: 0 }), ..self }
    }

    /// It could not begin. It is given up where there are not two drives, or after so many
    /// attempts.
    pub open spec fn start_failed(self, barcode: Seq<char>, e: Seq<char>, drives: nat) -> (
        DeskView,
        Option<AbandonedView>,
    ) {
        if drives < 2 || self.failures + 1 >= RECLAIM_START_ATTEMPTS {
            (
                DeskView { failures: 0, ..self }.abandoned(barcode),
                Some(
                    AbandonedView { barcode, reason: e, state: tape_state::APPENDABLE@ },
                ),
            )
        } else {
            (DeskView { failures: (self.failures + 1) as u32, ..self }, None)
        }
    }

    /// The one under way is given up. Where the tape needs a look it is marked for one; otherwise
    /// it takes data again.
    pub open spec fn aborted(self, reason: Seq<char>, attention: bool) -> (
        DeskView,
        Option<(AbandonedView, usize)>,
    ) {
        match self.current {
            None => (self, None),
            Some(r) => (
                DeskView { current: None, ..self }.abandoned(r.barcode),
                Some(
                    (
                        AbandonedView {
                            barcode: r.barcode,
                            reason,
                            state: if attention {
                                tape_state::CHECK@
                            } else {
                                tape_state::APPENDABLE@
                            },
                        },
                        r.drive,
                    ),
                ),
            ),
        }
    }
}

impl Desk {
    pub fn new() -> (r: Self)
        ensures
            r@ == (DeskView { current: None, failures: 0, given_up: None }),
    {
        Desk { current: None, failures: 0, given_up: None }
    }

    /// What is done in a cycle.
    pub fn cycle(&mut self, tapes: &StrMap<TapeRow>) -> (r: DeskStep)
        ensures
            (final(self)@, r@) == old(self)@.cycle(tapes@),
    {
        if self.current.is_some() {
            return DeskStep::Continue;
        }
        let barcode = match pending_reclaim(tapes) {
            Some(b) => b,
            None => {
                self.given_up = None;
                return DeskStep::Rest;
            },
        };
        let resting: Option<u32> = match &self.given_up {
            Some(g) => {
                if text::same(g.barcode.as_str(), barcode.as_str()) && g.cycles
                    < RECLAIM_GIVE_UP_GRACE {
                    Some(g.cycles)
                } else {
                    None
                }
            },
            None => None,
        };
        match resting {
            Some(n) => {
                self.given_up = Some(GivenUp { barcode, cycles: n + 1 });
                DeskStep::Rest
            },
            None => {
                self.given_up = None;
                DeskStep::Start { barcode }
            },
        }
    }

    /// A reclamation has begun.
    pub fn started(&mut self, r: Reclaim)
        ensures
            final(self)@ == (DeskView { current: Some(r@), failures: 0, ..old(self)@ }),
    {
        self.failures = 0;
        self.current = Some(r);
    }

    /// A reclamation could not begin. `drives` is the number of drives of the library.
    pub fn on_start_failed(&mut self, barcode: &str, e: &TapeError, drives: usize) -> (r: Option<
        Abandoned,
    >)
        requires
            old(self)@.failures < u32::MAX,
        ensures
            ({
                let (after, out) = old(self)@.start_failed(
                    barcode@,
                    e@.message(),
                    drives as nat,
                );
                &&& final(self)@ == after
                &&& match out {
                    Some(a) => r is Some && r->0@ == a,
                    None => r is None,
                }
            }),
    {
        let failures: u32 = self.failures + 1;
        if drives < 2 || failures >= RECLAIM_START_ATTEMPTS {
            self.failures = 0;
            self.given_up = Some(GivenUp { barcode: barcode.to_owned(), cycles: 0 });
            Some(
                Abandoned {
                    barcode: barcode.to_owned(),
                    reason: e.message(),
                    state: tape_state::APPENDABLE.to_owned(),
                },
            )
        } else {
            self.failures = failures;
            None
        }
    }

    /// The reclamation under way is given up. The second part of the result is the device that the
    /// tape is in.
    pub fn abort(&mut self, reason: &str, attention: bool) -> (r: Option<(Abandoned, usize)>)
        ensures
            ({
                let (after, out) = old(self)@.aborted(reason@, attention);
                &&& final(self)@ == after
                &&& match out {
                    Some((a, d)) => r is Some && (r->0).0@ == a && (r->0).1 == d,
                    None => r is None,
                }
            }),
    {
        let (barcode, drive) = match &self.current {
            None => {
                return None;
            },
            Some(r) => (r.barcode.clone(), r.drive),
        };
        self.current = None;
        self.given_up = Some(GivenUp { barcode: barcode.clone(), cycles: 0 });
        let state: &str = if attention {
            tape_state::CHECK
        } else {
            tape_state::APPENDABLE
        };
        Some((Abandoned { barcode, reason: reason.to_owned(), state: state.to_owned() }, drive))
    }
}

/// What ends a reclamation that failed: the loss of a device ends the round; what could only not
/// be done now leaves the tape as it is; anything else asks for a look.
#[derive(Debug, Clone, Copy, PartialEq, Eq, Structural)]
pub enum Failure {
    RoundOver,
    GiveUp { attention: bool },
}

/// What follows from an error in a reclamation.
pub fn judge_failure(e: &TapeError) -> (r: Failure)
    ensures
        r == (if e@.ownership_lost() {
            Failure::RoundOver
        } else {
            Failure::GiveUp { attention: !(e@ is NotReady) }
        }),
{
    if e.ownership_lost() {
        return Failure::RoundOver;
    }
    match e {
        TapeError::NotReady(_) => Failure::GiveUp { attention: false },
        _ => Failure::GiveUp { attention: true },
    }
}

/// How many of the devices are drives.
pub open spec fn drives_in(v: Seq<ManagedDevice>) -> nat
    decreases v.len(),
{
    if v.len() == 0 {
        0
    } else {
        drives_in(v.drop_last()) + (if v.last().kind == DeviceKind::Drive {
            1nat
        } else {
            0nat
        })
    }
}

/// How many of the devices are drives.
pub fn count_drives(v: &Vec<ManagedDevice>) -> (r: usize)
    ensures
        r == drives_in(v@),
{
    let n = v.len();
    let mut out: usize = 0;
    let mut i: usize = 0;
    while i < n
        invariant
            i <= n == v@.len(),
            out == drives_in(v@.take(i as int)),
            out <= i,
        decreases n - i,
    {
        assert(v@.take(i + 1).drop_last() =~= v@.take(i as int));
        if v[i].kind == DeviceKind::Drive {
            out = out + 1;
        }
        i += 1;
    }
    assert(v@.take(i as int) =~= v@);
    out
}

/// What a reclamation has to look at: the files of the index, and the directories but for the
/// reserved ones.
pub open spec fn work_of(files: Seq<IndexFileView>, dirs: Seq<IndexDirectoryView>) -> Set<
    Seq<char>,
> {
    Set::new(
        |p: Seq<char>|
            (exists|i: int| 0 <= i < files.len() && "/"@ + (#[trigger] files[i]).path == p) || (
            exists|i: int|
                0 <= i < dirs.len() && !nodes::reserved((#[trigger] dirs[i]).path) && "/"@
                    + dirs[i].path == p),
    )
}

fn in_reserved(p: &str) -> (r: bool)
    ensures
        r == nodes::reserved(p@),
{
    text::same(p, ".tapers") || text::starts_with(p, ".tapers/")
}

fn work_map(files: &Vec<IndexFile>, dirs: &Vec<IndexDirectory>) -> (r: StrMap<bool>)
    ensures
        r@.dom() == work_of(nodes::file_views(files@), nodes::directory_views(dirs@)),
{
    let ghost fs = nodes::file_views(files@);
    let ghost ds = nodes::directory_views(dirs@);
    let mut out: StrMap<bool> = StrMap::new();
    let mut i: usize = 0;
    while i < files.len()
        invariant
            i <= files@.len(),
            fs == nodes::file_views(files@),
            forall|p: Seq<char>| #[trigger]
                out@.contains_key(p) <==> exists|k: int|
                    0 <= k < i && "/"@ + (#[trigger] fs[k]).path == p,
        decreases files@.len() - i,
    {
        let ghost was = out@;
        let p = text::cat2("/", files[i].path.as_str());
        let ghost pv = p@;
        assert(fs[i as int] == files@[i as int]@);
        out.insert(p, true);
        proof {
            assert forall|q: Seq<char>| #[trigger]
                out@.contains_key(q) <==> exists|k: int|
                    0 <= k < i + 1 && "/"@ + (#[trigger] fs[k]).path == q by {
                if q == pv {
                    assert("/"@ + fs[i as int].path == q);
                } else if was.contains_key(q) {
                    let k = choose|k: int| 0 <= k < i && "/"@ + (#[trigger] fs[k]).path == q;
                    assert("/"@ + fs[k].path == q);
                }
            }
        }
        i += 1;
    }
    let mut i: usize = 0;
    while i < dirs.len()
        invariant
            i <= dirs@.len(),
            ds == nodes::directory_views(dirs@),
            fs == nodes::file_views(files@),
            forall|p: Seq<char>| #[trigger]
                out@.contains_key(p) <==> (exists|k: int|
                    0 <= k < fs.len() && "/"@ + (#[trigger] fs[k]).path == p) || (exists|k: int|
                    0 <= k < i && !nodes::reserved((#[trigger] ds[k]).path) && "/"@ + ds[k].path
                        == p),
        decreases dirs@.len() - i,
    {
        let ghost was = out@;
        assert(ds[i as int] == dirs@[i as int]@);
        if !in_reserved(dirs[i].path.as_str()) {
            let p = text::cat2("/", dirs[i].path.as_str());
            let ghost pv = p@;
            out.insert(p, true);
            proof {
                assert forall|q: Seq<char>| #[trigger]
                    out@.contains_key(q) <==> (exists|k: int|
                        0 <= k < fs.len() && "/"@ + (#[trigger] fs[k]).path == q) || (exists|k: int|
                        0 <= k < i + 1 && !nodes::reserved((#[trigger] ds[k]).path) && "/"@
                            + ds[k].path == q) by {
                    if q == pv {
                        assert(!nodes::reserved(ds[i as int].path) && "/"@ + ds[i as int].path == q);
                    } else {
                        assert(out@.contains_key(q) == was.contains_key(q));
                    }
                }
            }
        }
        i += 1;
    }
    assert(out@.dom() =~= work_of(fs, ds));
    out
}

/// What a reclamation has to look at, in the order of the paths, the first one last.
pub fn work_list(files: &Vec<IndexFile>, dirs: &Vec<IndexDirectory>) -> (r: Vec<String>)
    ensures
        strmap::listing(
            text::string_views(r@).reverse(),
            work_of(nodes::file_views(files@), nodes::directory_views(dirs@)),
        ),
{
    let m = work_map(files, dirs);
    let n = m.len();
    let ghost ks = strmap::sorted_keys(m@);
    let mut out: Vec<String> = Vec::new();
    let mut i: usize = n;
    while i > 0
        invariant
            i <= n == ks.len(),
            ks == strmap::sorted_keys(m@),
            out@.len() == n - i,
            forall|j: int| 0 <= j < out@.len() ==> (#[trigger] out@[j])@ == ks[n - 1 - j],
        decreases i,
    {
        i = i - 1;
        out.push(m.key_at(i).clone());
    }
    assert(text::string_views(out@).reverse() =~= ks);
    out
}

impl Reclaim {
    /// A reclamation of the tape in this device.
    pub fn begin(barcode: &str, drive: usize, todo: Vec<String>) -> (r: Self)
        ensures
            r@ == (ReclaimView {
                barcode: barcode@,
                drive,
                todo: text::string_views(todo@),
                retry: Seq::empty(),
                passes: 0,
                waits: 0,
                copied: 0,
                bytes: 0,
                superseded: 0,
            }),
    {
        let r = Reclaim {
            barcode: barcode.to_owned(),
            drive,
            todo,
            retry: Vec::new(),
            passes: 0,
            waits: 0,
            copied: 0,
            bytes: 0,
            superseded: 0,
        };
        assert(r@.retry =~= Seq::<Seq<char>>::empty());
        r
    }
}

/// What is done next in a reclamation.
#[derive(Debug)]
pub enum ChunkStep {
    /// This path is looked at.
    Look { path: String },
    /// A batch is full: it goes to tape, and then on.
    More,
    /// Only paths that clients are writing are left; later.
    Later,
    /// Everything has been looked at.
    Done,
    GiveUp(TapeError),
}

#[verifier::ext_equal]
pub enum ChunkView {
    Look { path: Seq<char> },
    More,
    Later,
    Done,
    GiveUp(TapeErrorView),
}

impl View for ChunkStep {
    type V = ChunkView;

    open spec fn view(&self) -> ChunkView {
        match *self {
            ChunkStep::Look { path } => ChunkView::Look { path: path@ },
            ChunkStep::More => ChunkView::More,
            ChunkStep::Later => ChunkView::Later,
            ChunkStep::Done => ChunkView::Done,
            ChunkStep::GiveUp(e) => ChunkView::GiveUp(e@),
        }
    }
}

/// The queue holds a whole batch.
pub open spec fn batch_full(queued: Option<(usize, u64)>, p: BatchPolicy) -> bool {
    queued is Some && ((queued->0).1 >= p.max_bytes || (queued->0).0 >= p.max_files)
}

impl ReclaimView {
    /// What is done next.
    pub open spec fn next(self, queued: Option<(usize, u64)>, p: BatchPolicy) -> (
        ReclaimView,
        ChunkView,
    ) {
        if batch_full(queued, p) {
            (self, ChunkView::More)
        } else if self.todo.len() > 0 {
            (
                ReclaimView { todo: self.todo.drop_last(), ..self },
                ChunkView::Look { path: self.todo.last() },
            )
        } else if self.retry.len() == 0 {
            (self, ChunkView::Done)
        } else if self.passes + 1 > RECLAIM_MAX_PASSES {
            (
                ReclaimView { passes: (self.passes + 1) as u32, ..self },
                ChunkView::GiveUp(
                    TapeErrorView::NotReady(
                        self.barcode + " 上有 "@ + text::decimal(self.retry.len())
                            + " 个路径一直被客户端占用（例如 "@ + self.retry[0]
                            + "），放弃这次回收"@,
                    ),
                ),
            )
        } else {
            (
                ReclaimView {
                    passes: (self.passes + 1) as u32,
                    todo: self.retry,
                    retry: Seq::empty(),
                    ..self
                },
                ChunkView::Later,
            )
        }
    }

    /// After a path was looked at. The result tells whether the work goes on.
    pub open spec fn took(self, path: Seq<char>, c: CopiedView) -> (ReclaimView, bool) {
        match c {
            CopiedView::Moved(n) => (
                ReclaimView {
                    copied: (self.copied + 1) as u64,
                    bytes: (self.bytes + n) as u64,
                    ..self
                },
                true,
            ),
            CopiedView::Superseded => (
                ReclaimView { superseded: (self.superseded + 1) as u64, ..self },
                true,
            ),
            CopiedView::Retry => (ReclaimView { retry: self.retry.push(path), ..self }, true),
            CopiedView::Halt(_) => (ReclaimView { todo: self.todo.push(path), ..self }, false),
        }
    }
}

/// What came of looking at a path.
#[derive(Debug, Clone, PartialEq, Eq)]
pub enum Copied {
    /// It is on its way to another tape, with so many bytes.
    Moved(u64),
    /// Its current version is not on the tape.
    Superseded,
    /// A client is writing it; later.
    Retry,
    /// The pool has no tape to write; all waits.
    Halt(String),
}

#[verifier::ext_equal]
pub enum CopiedView {
    Moved(u64),
    Superseded,
    Retry,
    Halt(Seq<char>),
}

impl View for Copied {
    type V = CopiedView;

    open spec fn view(&self) -> CopiedView {
        match *self {
            Copied::Moved(n) => CopiedView::Moved(n),
            Copied::Superseded => CopiedView::Superseded,
            Copied::Retry => CopiedView::Retry,
            Copied::Halt(s) => CopiedView::Halt(s@),
        }
    }
}

impl Reclaim {
    /// What is done next.
    pub fn next(&mut self, queued: Option<(usize, u64)>, policy: &BatchPolicy) -> (r: ChunkStep)
        requires
            old(self)@.passes < u32::MAX,
        ensures
            (final(self)@, r@) == old(self)@.next(queued, *policy),
    {
        let ghost v = self@;
        let full = match queued {
            Some((n, b)) => b >= policy.max_bytes || n >= policy.max_files,
            None => false,
        };
        if full {
            return ChunkStep::More;
        }
        let ghost was = self.todo@;
        match self.todo.pop() {
            Some(path) => {
                assert(text::string_views(self.todo@) =~= text::string_views(was).drop_last());
                return ChunkStep::Look { path };
            },
            None => {
                assert(self.todo@ =~= was);
            },
        }
        if self.retry.len() == 0 {
            return ChunkStep::Done;
        }
        self.passes = self.passes + 1;
        if self.passes > RECLAIM_MAX_PASSES {
            let mut t = text::cat4(
                self.barcode.as_str(),
                " 上有 ",
                text::decimal_text(self.retry.len() as u64).as_str(),
                " 个路径一直被客户端占用（例如 ",
            );
            t.push_str(self.retry[0].as_str());
            t.push_str("），放弃这次回收");
            return ChunkStep::GiveUp(TapeError::NotReady(t));
        }
        let mut rest: Vec<String> = Vec::new();
        std::mem::swap(&mut rest, &mut self.retry);
        self.todo = rest;
        assert(self@.retry =~= Seq::<Seq<char>>::empty());
        ChunkStep::Later
    }

    /// A path was looked at. The result tells whether the work goes on.
    pub fn took(&mut self, path: String, c: &Copied) -> (r: bool)
        requires
            old(self)@.copied < u64::MAX,
            old(self)@.superseded < u64::MAX,
            c@ matches CopiedView::Moved(n) ==> old(self)@.bytes + n <= u64::MAX,
        ensures
            (final(self)@, r) == old(self)@.took(path@, c@),
    {
        let ghost pv = path@;
        match c {
            Copied::Moved(n) => {
                self.copied = self.copied + 1;
                self.bytes = self.bytes + *n;
                true
            },
            Copied::Superseded => {
                self.superseded = self.superseded + 1;
                true
            },
            Copied::Retry => {
                let ghost was = self.retry@;
                self.retry.push(path);
                assert(text::string_views(self.retry@) =~= text::string_views(was).push(pv));
                true
            },
            Copied::Halt(_) => {
                let ghost was = self.todo@;
                self.todo.push(path);
                assert(text::string_views(self.todo@) =~= text::string_views(was).push(pv));
                false
            },
        }
    }
}

/// What the tape has at a path.
#[derive(Debug, Clone, PartialEq, Eq)]
pub enum OnTape {
    Nothing,
    Directory,
    /// A tombstone, with the path that was deleted.
    Tombstone { target: Option<String>, directory: bool },
    Symlink,
    File,
}

#[verifier::ext_equal]
pub enum OnTapeView {
    Nothing,
    Directory,
    Tombstone { target: Option<Seq<char>>, directory: bool },
    Symlink,
    File,
}

impl View for OnTape {
    type V = OnTapeView;

    open spec fn view(&self) -> OnTapeView {
        match *self {
            OnTape::Nothing => OnTapeView::Nothing,
            OnTape::Directory => OnTapeView::Directory,
            OnTape::Tombstone { target, directory } => {
                OnTapeView::Tombstone { target: nodes::text_view(target), directory }
            },
            OnTape::Symlink => OnTapeView::Symlink,
            OnTape::File => OnTapeView::File,
        }
    }
}

/// What is done with a path.
#[derive(Debug)]
pub enum CopyPlan {
    /// Its current version is not on the tape.
    Superseded,
    MoveDirectory,
    MoveTombstone { target: String, directory: bool },
    MoveSymlink,
    CopyFile,
    Fail(TapeError),
}

#[verifier::ext_equal]
pub enum CopyPlanView {
    Superseded,
    MoveDirectory,
    MoveTombstone { target: Seq<char>, directory: bool },
    MoveSymlink,
    CopyFile,
    Fail(TapeErrorView),
}

impl View for CopyPlan {
    type V = CopyPlanView;

    open spec fn view(&self) -> CopyPlanView {
        match *self {
            CopyPlan::Superseded => CopyPlanView::Superseded,
            CopyPlan::MoveDirectory => CopyPlanView::MoveDirectory,
            CopyPlan::MoveTombstone { target, directory } => {
                CopyPlanView::MoveTombstone { target: target@, directory }
            },
            CopyPlan::MoveSymlink => CopyPlanView::MoveSymlink,
            CopyPlan::CopyFile => CopyPlanView::CopyFile,
            CopyPlan::Fail(e) => CopyPlanView::Fail(e@),
        }
    }
}

/// What the service has at a path, as far as a reclamation asks: the tape, and whether it was
/// deleted.
#[derive(Debug)]
pub struct Located {
    pub barcode: String,
    pub deleted: bool,
}

/// What is done with a path. What the service has elsewhere, or has deleted, is not moved; what it
/// does not know is. For a tombstone `current` tells of the path that was deleted.
pub open spec fn copy_plan(
    source: Seq<char>,
    on_tape: OnTapeView,
    current: Result<Option<Located>, ServiceError>,
) -> CopyPlanView {
    let unknown = on_tape is Nothing || (on_tape matches OnTapeView::Tombstone { target, .. }
        && target is None);
    if unknown {
        CopyPlanView::Superseded
    } else {
        match current {
            Err(e) => CopyPlanView::Fail(TapeErrorView::Ltfs(e@.message())),
            Ok(c) => {
                let elsewhere = c is Some && c->0.barcode@ != source;
                let gone = c is Some && c->0.deleted;
                match on_tape {
                    OnTapeView::Tombstone { target, directory } => if elsewhere {
                        CopyPlanView::Superseded
                    } else {
                        CopyPlanView::MoveTombstone { target: target->0, directory }
                    },
                    _ => if elsewhere || gone {
                        CopyPlanView::Superseded
                    } else {
                        match on_tape {
                            OnTapeView::Directory => CopyPlanView::MoveDirectory,
                            OnTapeView::Symlink => CopyPlanView::MoveSymlink,
                            _ => CopyPlanView::CopyFile,
                        }
                    },
                }
            },
        }
    }
}

/// What is done with a path.
pub fn plan_copy(
    source: &str,
    on_tape: &OnTape,
    current: &Result<Option<Located>, ServiceError>,
) -> (r: CopyPlan)
    ensures
        r@ == copy_plan(source@, on_tape@, *current),
{
    match on_tape {
        OnTape::Nothing => {
            return CopyPlan::Superseded;
        },
        OnTape::Tombstone { target: None, .. } => {
            return CopyPlan::Superseded;
        },
        _ => {},
    }
    let (elsewhere, gone) = match current {
        Err(e) => {
            return CopyPlan::Fail(TapeError::Ltfs(e.message()));
        },
        Ok(None) => (false, false),
        Ok(Some(c)) => (!text::same(c.barcode.as_str(), source), c.deleted),
    };
    match on_tape {
        OnTape::Tombstone { target: Some(t), directory } => {
            if elsewhere {
                CopyPlan::Superseded
            } else {
                CopyPlan::MoveTombstone { target: t.clone(), directory: *directory }
            }
        },
        _ => {
            if elsewhere || gone {
                CopyPlan::Superseded
            } else {
                match on_tape {
                    OnTape::Directory => CopyPlan::MoveDirectory,
                    OnTape::Symlink => CopyPlan::MoveSymlink,
                    _ => CopyPlan::CopyFile,
                }
            }
        },
    }
}

/// How a move is named in a failure.
#[derive(Debug, Clone, Copy, PartialEq, Eq, Structural)]
pub enum Moving {
    Directory,
    Symlink,
    Tombstone,
    /// A file, which the service has yet to take in.
    File,
}

/// What is said of a move that failed.
pub open spec fn move_failure(m: Moving, path: Seq<char>, e: Seq<char>) -> Seq<char> {
    match m {
        Moving::Directory => "回收目录 "@ + path + " 失败: "@ + e,
        Moving::Symlink => "回收符号链接 "@ + path + " 失败: "@ + e,
        Moving::Tombstone => "回收 "@ + path + " 的墓碑失败: "@ + e,
        Moving::File => "回收 "@ + path + " 准入失败: "@ + e,
    }
}

/// What follows from a refusal of the service: a path that a client writes is left for later, and
/// without a tape to write all waits. That a version exists settles a node without content.
pub open spec fn after_refusal(m: Moving, path: Seq<char>, e: ServiceErrorView) -> Result<
    CopiedView,
    TapeErrorView,
> {
    match e {
        ServiceErrorView::PathBusy(_) => Ok(CopiedView::Retry),
        ServiceErrorView::SwitchingTape(_) => Ok(CopiedView::Retry),
        ServiceErrorView::NoTape(_) => Ok(CopiedView::Halt(e.message())),
        ServiceErrorView::NotServing(_) => Ok(CopiedView::Halt(e.message())),
        _ => if e is Exists && m != Moving::File {
            Ok(CopiedView::Superseded)
        } else {
            Err(TapeErrorView::Ltfs(move_failure(m, path, e.message())))
        },
    }
}

/// What follows from a refusal of the service.
pub fn on_refusal(m: Moving, path: &str, e: &ServiceError) -> (r: Result<Copied, TapeError>)
    ensures
        match after_refusal(m, path@, e@) {
            Ok(c) => r is Ok && r->Ok_0@ == c,
            Err(x) => r is Err && r->Err_0@ == x,
        },
{
    match e {
        ServiceError::PathBusy(_) => {
            return Ok(Copied::Retry);
        },
        ServiceError::SwitchingTape(_) => {
            return Ok(Copied::Retry);
        },
        ServiceError::NoTape(_) => {
            return Ok(Copied::Halt(e.message()));
        },
        ServiceError::NotServing(_) => {
            return Ok(Copied::Halt(e.message()));
        },
        ServiceError::Exists(_) => {
            if m != Moving::File {
                return Ok(Copied::Superseded);
            }
        },
        _ => {},
    }
    let why = e.message();
    let text = match m {
        Moving::Directory => text::cat4("回收目录 ", path, " 失败: ", why.as_str()),
        Moving::Symlink => text::cat4("回收符号链接 ", path, " 失败: ", why.as_str()),
        Moving::Tombstone => text::cat4("回收 ", path, " 的墓碑失败: ", why.as_str()),
        Moving::File => text::cat4("回收 ", path, " 准入失败: ", why.as_str()),
    };
    Err(TapeError::Ltfs(text))
}

/// The content that was read has the hash that the index has, or the index has none.
pub open spec fn hash_holds(want: Seq<char>, got: Seq<char>) -> bool {
    want.len() == 0 || got == want
}

/// Checks what was read of a file against the index before the copy is let go: a copy that does
/// not agree never becomes the current version.
pub fn check_hash(source: &str, path: &str, want: &str, got: &str) -> (r: Result<(), TapeError>)
    ensures
        match r {
            Ok(_) => hash_holds(want@, got@),
            Err(e) => !hash_holds(want@, got@) && e@ == TapeErrorView::Ltfs(
                source@ + " 上的 "@ + path@ + " 读出来是 "@ + got@ + "，索引里记的是 "@
                    + want@,
            ),
        },
{
    if text::chars(want).len() == 0 || text::same(got, want) {
        return Ok(());
    }
    let mut t = text::cat4(source, " 上的 ", path, " 读出来是 ");
    t.push_str(got);
    t.push_str("，索引里记的是 ");
    t.push_str(want);
    Err(TapeError::Ltfs(t))
}

/// The paths that must have a place elsewhere before the tape is formatted: those of the index,
/// and for a tombstone the path that it tells of.
pub open spec fn must_be_placed(files: Seq<IndexFileView>) -> Seq<Seq<char>>
    decreases files.len(),
{
    if files.len() == 0 {
        Seq::empty()
    } else {
        let head = must_be_placed(files.drop_last());
        let f = files.last();
        if !f.tombstone {
            head.push("/"@ + f.path)
        } else {
            match nodes::xattr_value(f.xattrs, nodes::XATTR_DELETED_PATH@) {
                Some(t) => head.push(t),
                None => head,
            }
        }
    }
}

/// The directories that must have a place elsewhere.
pub open spec fn directories_to_place(dirs: Seq<IndexDirectoryView>) -> Seq<Seq<char>>
    decreases dirs.len(),
{
    if dirs.len() == 0 {
        Seq::empty()
    } else if nodes::reserved(dirs.last().path) {
        directories_to_place(dirs.drop_last())
    } else {
        directories_to_place(dirs.drop_last()).push("/"@ + dirs.last().path)
    }
}

/// The paths that must have a place elsewhere before the tape is formatted.
pub fn paths_to_place(files: &Vec<IndexFile>, dirs: &Vec<IndexDirectory>) -> (r: Vec<String>)
    ensures
        text::string_views(r@) == must_be_placed(nodes::file_views(files@))
            + directories_to_place(nodes::directory_views(dirs@)),
{
    let ghost fs = nodes::file_views(files@);
    let ghost ds = nodes::directory_views(dirs@);
    let mut out: Vec<String> = Vec::new();
    let mut i: usize = 0;
    assert(text::string_views(out@) =~= Seq::<Seq<char>>::empty());
    while i < files.len()
        invariant
            i <= files@.len(),
            fs == nodes::file_views(files@),
            text::string_views(out@) == must_be_placed(fs.take(i as int)),
        decreases files@.len() - i,
    {
        let ghost was = out@;
        let f = &files[i];
        assert(fs.take(i + 1).drop_last() =~= fs.take(i as int));
        assert(fs.take(i + 1).last() == f@);
        if !f.tombstone {
            let p = text::cat2("/", f.path.as_str());
            out.push(p);
            assert(text::string_views(out@) =~= text::string_views(was).push(p@));
        } else {
            match nodes::find_xattr(&f.xattrs, nodes::XATTR_DELETED_PATH) {
                Some(t) => {
                    out.push(t);
                    assert(text::string_views(out@) =~= text::string_views(was).push(t@));
                },
                None => {},
            }
        }
        i += 1;
    }
    assert(fs.take(i as int) =~= fs);
    let ghost base = text::string_views(out@);
    let mut i: usize = 0;
    assert(base + Seq::<Seq<char>>::empty() =~= base);
    while i < dirs.len()
        invariant
            i <= dirs@.len(),
            ds == nodes::directory_views(dirs@),
            text::string_views(out@) == base + directories_to_place(ds.take(i as int)),
        decreases dirs@.len() - i,
    {
        let ghost was = out@;
        assert(ds.take(i + 1).drop_last() =~= ds.take(i as int));
        assert(ds.take(i + 1).last() == dirs@[i as int]@);
        if !in_reserved(dirs[i].path.as_str()) {
            let p = text::cat2("/", dirs[i].path.as_str());
            out.push(p);
            assert(text::string_views(out@) =~= text::string_views(was).push(p@));
            assert(base + directories_to_place(ds.take(i as int)).push(p@) =~= (base
                + directories_to_place(ds.take(i as int))).push(p@));
        }
        i += 1;
    }
    assert(ds.take(i as int) =~= ds);
    out
}

/// A path that has no place elsewhere: the service does not know it, or has it on the tape.
pub open spec fn orphaned(placed: Map<Seq<char>, Seq<char>>, source: Seq<char>, p: Seq<char>) -> bool {
    !placed.contains_key(p) || placed[p] == source
}

/// The paths that have no place elsewhere.
pub open spec fn orphans(
    paths: Seq<Seq<char>>,
    placed: Map<Seq<char>, Seq<char>>,
    source: Seq<char>,
) -> Seq<Seq<char>>
    decreases paths.len(),
{
    if paths.len() == 0 {
        Seq::empty()
    } else if orphaned(placed, source, paths.last()) {
        orphans(paths.drop_last(), placed, source).push(paths.last())
    } else {
        orphans(paths.drop_last(), placed, source)
    }
}

/// Whether a tape may be formatted.
#[derive(Debug)]
pub enum Gate {
    /// Not yet: the directory still has records on it.
    Wait,
    /// It is formatted under this name, and marked for this pool.
    Format { volume_id: String, pool_uuid: String, pool_name: String },
    Fail(TapeError),
}

#[verifier::ext_equal]
pub enum GateView {
    Wait,
    Format { volume_id: Seq<char>, pool_uuid: Seq<char>, pool_name: Seq<char> },
    Fail(TapeErrorView),
}

impl View for Gate {
    type V = GateView;

    open spec fn view(&self) -> GateView {
        match *self {
            Gate::Wait => GateView::Wait,
            Gate::Format { volume_id, pool_uuid, pool_name } => GateView::Format {
                volume_id: volume_id@,
                pool_uuid: pool_uuid@,
                pool_name: pool_name@,
            },
            Gate::Fail(e) => GateView::Fail(e@),
        }
    }
}

impl ReclaimView {
    /// Whether the tape may be formatted: the directory has no record on it, and every path of its
    /// index has its current version elsewhere.
    pub open spec fn gate(
        self,
        live: Option<u64>,
        paths: Seq<Seq<char>>,
        placed: Map<Seq<char>, Seq<char>>,
        pools: Seq<PoolRowView>,
    ) -> (ReclaimView, GateView) {
        let left = orphans(paths, placed, self.barcode);
        let k = pool_at(pools, self.barcode) as int;
        if live is Some && live->0 > 0 {
            let waited = ReclaimView { waits: (self.waits + 1) as u32, ..self };
            if self.waits + 1 > RECLAIM_MAX_WAITS {
                (
                    waited,
                    GateView::Fail(
                        TapeErrorView::Ltfs(
                            "等了很久，目录里仍有 "@ + text::decimal(live->0 as nat)
                                + " 条记录指向 "@ + self.barcode,
                        ),
                    ),
                )
            } else {
                (waited, GateView::Wait)
            }
        } else if left.len() > 0 {
            (
                self,
                GateView::Fail(
                    TapeErrorView::Ltfs(
                        self.barcode + " 上还有 "@ + text::decimal(left.len())
                            + " 个路径没有着落（例如 "@ + left[0] + "）"@,
                    ),
                ),
            )
        } else if k >= pools.len() {
            (
                self,
                GateView::Fail(
                    TapeErrorView::NotReady(self.barcode + " 已不在任何池里"@),
                ),
            )
        } else {
            (
                self,
                GateView::Format {
                    volume_id: opening::volume_name(self.barcode),
                    pool_uuid: pools[k].uuid,
                    pool_name: pools[k].name,
                },
            )
        }
    }
}

fn find_orphans(paths: &Vec<String>, placed: &StrMap<String>, source: &str) -> (r: Vec<String>)
    ensures
        text::string_views(r@) == orphans(text::string_views(paths@), placed@, source@),
{
    let ghost all = text::string_views(paths@);
    let mut out: Vec<String> = Vec::new();
    let mut i: usize = 0;
    assert(text::string_views(out@) =~= Seq::<Seq<char>>::empty());
    while i < paths.len()
        invariant
            i <= paths@.len(),
            all == text::string_views(paths@),
            text::string_views(out@) == orphans(all.take(i as int), placed@, source@),
        decreases paths@.len() - i,
    {
        assert(all.take(i + 1).drop_last() =~= all.take(i as int));
        assert(all.take(i + 1).last() == paths@[i as int]@);
        let lost = match placed.get(paths[i].as_str()) {
            Some(b) => text::same(b.as_str(), source),
            None => true,
        };
        if lost {
            let ghost was = out@;
            let p = paths[i].clone();
            out.push(p);
            assert(text::string_views(out@) =~= text::string_views(was).push(p@));
        }
        i += 1;
    }
    assert(all.take(i as int) =~= all);
    out
}

impl Reclaim {
    /// Whether the tape may be formatted. `live` is how many records the directory has on it,
    /// `paths` what must have a place elsewhere, and `placed` the tape that the service has each
    /// of them on.
    pub fn gate(
        &mut self,
        live: Option<u64>,
        paths: &Vec<String>,
        placed: &StrMap<String>,
        st: &NodeStatus,
    ) -> (r: Gate)
        requires
            old(self)@.waits < u32::MAX,
        ensures
            (final(self)@, r@) == old(self)@.gate(
                live,
                text::string_views(paths@),
                placed@,
                st@.pools,
            ),
    {
        match live {
            Some(n) => {
                if n > 0 {
                    self.waits = self.waits + 1;
                    if self.waits > RECLAIM_MAX_WAITS {
                        return Gate::Fail(
                            TapeError::Ltfs(
                                text::cat4(
                                    "等了很久，目录里仍有 ",
                                    text::decimal_text(n).as_str(),
                                    " 条记录指向 ",
                                    self.barcode.as_str(),
                                ),
                            ),
                        );
                    }
                    return Gate::Wait;
                }
            },
            None => {},
        }
        let left = find_orphans(paths, placed, self.barcode.as_str());
        assert(text::string_views(left@).len() == left@.len());
        if left.len() > 0 {
            assert(text::string_views(left@)[0] == left@[0]@);
            let mut t = text::cat4(
                self.barcode.as_str(),
                " 上还有 ",
                text::decimal_text(left.len() as u64).as_str(),
                " 个路径没有着落（例如 ",
            );
            t.push_str(left[0].as_str());
            t.push_str("）");
            return Gate::Fail(TapeError::Ltfs(t));
        }
        match pool_of(st, self.barcode.as_str()) {
            None => Gate::Fail(
                TapeError::NotReady(
                    text::cat2(self.barcode.as_str(), " 已不在任何池里"),
                ),
            ),
            Some((pool_uuid, pool_name)) => Gate::Format {
                volume_id: opening::volume_id(self.barcode.as_str()),
                pool_uuid,
                pool_name,
            },
        }
    }
}

proof fn lemma_no_orphans(
    paths: Seq<Seq<char>>,
    placed: Map<Seq<char>, Seq<char>>,
    source: Seq<char>,
)
    requires
        orphans(paths, placed, source).len() == 0,
    ensures
        forall|i: int| 0 <= i < paths.len() ==> !orphaned(placed, source, #[trigger] paths[i]),
    decreases paths.len(),
{
    if paths.len() > 0 {
        lemma_no_orphans(paths.drop_last(), placed, source);
        assert forall|i: int| 0 <= i < paths.len() implies !orphaned(
            placed,
            source,
            #[trigger] paths[i],
        ) by {
            if i < paths.len() - 1 {
                assert(paths.drop_last()[i] == paths[i]);
            }
        }
    }
}

/// A tape is formatted only when nothing on it is live any more: the directory has no record on
/// it, and every path that its index holds has its current version on another tape.
pub proof fn law_nothing_live_is_formatted(
    r: ReclaimView,
    live: Option<u64>,
    paths: Seq<Seq<char>>,
    placed: Map<Seq<char>, Seq<char>>,
    pools: Seq<PoolRowView>,
)
    requires
        r.gate(live, paths, placed, pools).1 is Format,
    ensures
        live is Some ==> live->0 == 0,
        forall|i: int|
            0 <= i < paths.len() ==> placed.contains_key(#[trigger] paths[i]) && placed[paths[i]]
                != r.barcode,
{
    lemma_no_orphans(paths, placed, r.barcode);
    assert forall|i: int| 0 <= i < paths.len() implies placed.contains_key(#[trigger] paths[i])
        && placed[paths[i]] != r.barcode by {
        assert(!orphaned(placed, r.barcode, paths[i]));
    }
}

/// Every file of the index is among the paths that must have a place elsewhere.
pub proof fn law_every_file_must_be_placed(files: Seq<IndexFileView>, i: int)
    requires
        0 <= i < files.len(),
        !files[i].tombstone,
    ensures
        must_be_placed(files).contains("/"@ + files[i].path),
    decreases files.len(),
{
    let init = files.drop_last();
    let head = must_be_placed(init);
    let all = must_be_placed(files);
    if i == files.len() - 1 {
        assert(all[head.len() as int] == "/"@ + files[i].path);
    } else {
        assert(init[i] == files[i]);
        law_every_file_must_be_placed(init, i);
        let k = choose|k: int| 0 <= k < head.len() && head[k] == "/"@ + files[i].path;
        assert(all[k] == "/"@ + files[i].path);
    }
}

/// The deleted path of a tombstone is among the paths that must have a place elsewhere: a
/// deletion is not forgotten with the tape.
pub proof fn law_every_tombstone_must_be_placed(files: Seq<IndexFileView>, i: int)
    requires
        0 <= i < files.len(),
        files[i].tombstone,
        nodes::xattr_value(files[i].xattrs, nodes::XATTR_DELETED_PATH@) is Some,
    ensures
        must_be_placed(files).contains(
            nodes::xattr_value(files[i].xattrs, nodes::XATTR_DELETED_PATH@)->0,
        ),
    decreases files.len(),
{
    let t = nodes::xattr_value(files[i].xattrs, nodes::XATTR_DELETED_PATH@)->0;
    let init = files.drop_last();
    let head = must_be_placed(init);
    let all = must_be_placed(files);
    if i == files.len() - 1 {
        assert(all[head.len() as int] == t);
    } else {
        assert(init[i] == files[i]);
        law_every_tombstone_must_be_placed(init, i);
        let k = choose|k: int| 0 <= k < head.len() && head[k] == t;
        assert(all[k] == t);
    }
}

/// No path is lost on the way: what was taken off the list and could not be moved now is on one of
/// the lists again.
pub proof fn law_no_path_is_dropped(r: ReclaimView, path: Seq<char>, c: CopiedView)
    ensures
        c is Retry ==> r.took(path, c).0.retry.contains(path),
        c is Halt ==> r.took(path, c).0.todo.contains(path),
{
    let after = r.took(path, c).0;
    if c is Retry {
        assert(after.retry[r.retry.len() as int] == path);
    }
    if c is Halt {
        assert(after.todo[r.todo.len() as int] == path);
    }
}

/// A reclamation does not stay: a tape whose reclamation is given up gets another state.
pub proof fn law_given_up_tape_leaves_reclamation(d: DeskView, reason: Seq<char>, attention: bool)
    ensures
        d.aborted(reason, attention).1 matches Some((a, _)) ==> a.state
            != tape_state::RECLAIMING@,
        d.aborted(reason, attention).0.current is None,
{
    reveal_strlit("check");
    reveal_strlit("appendable");
    reveal_strlit("reclaiming");
    assert("check"@.len() == 5);
    assert("appendable"@[0] == 'a' && "reclaiming"@[0] == 'r');
}

/// Where a tape is loaded beside the one that is written.
#[derive(Debug)]
pub enum Aside {
    /// It is in this device already.
    There { dev: usize },
    /// First the tape for reading leaves its drive.
    Clear { drive: usize },
    /// It is loaded.
    Load,
    Fail(TapeError),
}

#[verifier::ext_equal]
pub enum AsideView {
    There { dev: usize },
    Clear { drive: usize },
    Load,
    Fail(TapeErrorView),
}

impl View for Aside {
    type V = AsideView;

    open spec fn view(&self) -> AsideView {
        match *self {
            Aside::There { dev } => AsideView::There { dev },
            Aside::Clear { drive } => AsideView::Clear { drive },
            Aside::Load => AsideView::Load,
            Aside::Fail(e) => AsideView::Fail(e@),
        }
    }
}

/// What is done first to have a tape beside the one that is written, which is in `writing`.
pub open spec fn aside_of(
    inv: InventoryView,
    barcode: Seq<char>,
    writing: Option<usize>,
    read: Option<usize>,
) -> AsideView {
    let held = inv.drive_with(barcode) as int;
    let cleared = match read {
        Some(dev) => inv.drive_of(dev) as int,
        None => inv.drives.len() as int,
    };
    if held < inv.drives.len() {
        if Some(inv.drives[held].dev) == writing {
            AsideView::Fail(
                TapeErrorView::NotReady(barcode + " 还在写入驱动器里"@),
            )
        } else {
            AsideView::There { dev: inv.drives[held].dev }
        }
    } else if inv.free_drive_but(writing) >= inv.drives.len() && cleared < inv.drives.len() {
        AsideView::Clear { drive: cleared as usize }
    } else {
        AsideView::Load
    }
}

/// What is done first to have a tape beside the one that is written. `read` is the device of the
/// tape for reading.
pub fn plan_aside(
    inv: &Inventory,
    barcode: &str,
    writing: Option<usize>,
    read: Option<usize>,
) -> (r: Aside)
    ensures
        r@ == aside_of(inv@, barcode@, writing, read),
{
    let n = inv.drives.len();
    let held = inv.find_tape(barcode);
    if held < n {
        assert(inv@.drives[held as int] == inv.drives@[held as int]@);
        let dev = inv.drives[held].dev;
        let written = match writing {
            Some(w) => w == dev,
            None => false,
        };
        if written {
            return Aside::Fail(
                TapeError::NotReady(text::cat2(barcode, " 还在写入驱动器里")),
            );
        }
        return Aside::There { dev };
    }
    if inv.find_free_but(writing) >= n {
        match read {
            Some(dev) => {
                let i = inv.find_device(dev);
                if i < n {
                    return Aside::Clear { drive: i };
                }
            },
            None => {},
        }
    }
    Aside::Load
}

/// From where, into which device and at which address a tape is loaded beside the one that is
/// written.
pub fn plan_load(inv: &Inventory, barcode: &str, writing: Option<usize>) -> (r: Result<
    (u16, usize, u16),
    TapeError,
>)
    ensures
        ({
            let free = inv@.free_drive_but(writing) as int;
            match r {
                Ok((from, dev, addr)) => {
                    &&& inv@.slots.contains_key(barcode@)
                    &&& from == inv@.slots[barcode@]
                    &&& free < inv@.drives.len()
                    &&& dev == inv@.drives[free].dev
                    &&& addr == inv@.drives[free].addr
                },
                Err(e) => if !inv@.slots.contains_key(barcode@) {
                    e@ == TapeErrorView::NotReady(
                        barcode@ + " 不在库里的存储槽位中"@,
                    )
                } else {
                    free >= inv@.drives.len() && e@ == TapeErrorView::NotReady(
                        "没有空闲的驱动器"@,
                    )
                },
            }
        }),
{
    let from: u16 = match inv.slots.get(barcode) {
        Some(a) => *a,
        None => {
            return Err(
                TapeError::NotReady(
                    text::cat2(barcode, " 不在库里的存储槽位中"),
                ),
            );
        },
    };
    let i = inv.find_free_but(writing);
    if i < inv.drives.len() {
        assert(inv@.drives[i as int] == inv.drives@[i as int]@);
        Ok((from, inv.drives[i].dev, inv.drives[i].addr))
    } else {
        Err(TapeError::NotReady("没有空闲的驱动器".to_owned()))
    }
}

} // verus!
