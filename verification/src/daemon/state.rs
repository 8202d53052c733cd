//! The replicated control state: who executes, in which round, whether the devices are fenced,
//! and which tape belongs to which pool in which state.
//!
//! Every node applies the same commands in the same order and comes to the same conclusions;
//! applying a command touches no device.
use std::sync::Arc;
use vstd::prelude::*;

use crate::daemon::tape_state;
use crate::json::{Json, JsonView};
use crate::strmap;
use crate::strmap::{Dup, StrMap};
use crate::text;

verus! {

/// A command in the log.
#[derive(Debug, Clone, PartialEq, Eq)]
pub enum Command {
    /// A new leader claims execution. The log index of this command is its round.
    Takeover { node: u64, term: u64 },
    /// The executor has fenced all devices in this round and read that back.
    Fenced { node: u64, round: u64 },
    /// The executor gives the round up.
    Abandoned { node: u64, round: u64, reason: String },
    /// Makes a tape pool. The identifier is its identity, the name a label.
    PoolCreate { uuid: String, name: String, file_limit: u64 },
    /// Puts a tape into a pool.
    TapeAssign { barcode: String, pool: String },
    /// Takes a tape out of its pool.
    TapeUnassign { barcode: String },
    /// The tape's state has changed.
    TapeState { barcode: String, state: String },
    /// Starts to reclaim a tape. Only the state changes; the executor does the work.
    TapeReclaim { barcode: String },
    /// The tape has been reclaimed and formatted: the one place where its generation goes back.
    TapeReclaimed { barcode: String, volume_uuid: String },
    /// A part of the directory records of one volume commit, staged until the commit arrives.
    CatalogPart { barcode: String, generation: u64, part: u32, files: Vec<FileRec> },
    /// The summary of one volume commit. With all parts there, its records become visible
    /// together. `full` says that they are the tape's complete list.
    TapeCommitted {
        barcode: String,
        volume_uuid: String,
        generation: u64,
        files: u64,
        bytes_used: u64,
        /// Bytes really written on the tape, 0 where the capacity could not be read.
        bytes_written: u64,
        parts: u32,
        full: bool,
    },
}

/// What a tape holds on one path, or that it was deleted there.
#[derive(Debug, PartialEq, Eq)]
pub struct FileRec {
    pub path: String,
    pub length: u64,
    /// Lower-case hexadecimal, empty where the file has no hash.
    pub sha256: String,
    /// Round and number of this content; of several copies of a path the largest counts.
    pub version: (u64, u64),
    pub deleted: bool,
    /// Kind, times and attributes.
    pub metadata: Arc<Json>,
}

#[verifier::ext_equal]
pub struct FileRecView {
    pub path: Seq<char>,
    pub length: u64,
    pub sha256: Seq<char>,
    pub version: (u64, u64),
    pub deleted: bool,
    pub metadata: JsonView,
}

impl View for FileRec {
    type V = FileRecView;

    open spec fn view(&self) -> FileRecView {
        FileRecView {
            path: self.path@,
            length: self.length,
            sha256: self.sha256@,
            version: self.version,
            deleted: self.deleted,
            metadata: self.metadata@,
        }
    }
}

impl Dup for FileRec {
    fn dup(&self) -> (r: Self) {
        FileRec {
            path: self.path.clone(),
            length: self.length,
            sha256: self.sha256.clone(),
            version: self.version,
            deleted: self.deleted,
            metadata: self.metadata.clone(),
        }
    }
}

impl Clone for FileRec {
    fn clone(&self) -> (r: Self)
        ensures
            r@ == self@,
    {
        self.dup()
    }
}

/// What a list of records says.
pub open spec fn recs(v: Seq<FileRec>) -> Seq<FileRecView> {
    v.map_values(|f: FileRec| f@)
}

#[verifier::ext_equal]
pub enum CommandView {
    Takeover { node: u64, term: u64 },
    Fenced { node: u64, round: u64 },
    Abandoned { node: u64, round: u64, reason: Seq<char> },
    PoolCreate { uuid: Seq<char>, name: Seq<char>, file_limit: u64 },
    TapeAssign { barcode: Seq<char>, pool: Seq<char> },
    TapeUnassign { barcode: Seq<char> },
    TapeState { barcode: Seq<char>, state: Seq<char> },
    TapeReclaim { barcode: Seq<char> },
    TapeReclaimed { barcode: Seq<char>, volume_uuid: Seq<char> },
    CatalogPart { barcode: Seq<char>, generation: u64, part: u32, files: Seq<FileRecView> },
    TapeCommitted {
        barcode: Seq<char>,
        volume_uuid: Seq<char>,
        generation: u64,
        files: u64,
        bytes_used: u64,
        bytes_written: u64,
        parts: u32,
        full: bool,
    },
}

impl View for Command {
    type V = CommandView;

    open spec fn view(&self) -> CommandView {
        match *self {
            Command::Takeover { node, term } => CommandView::Takeover { node, term },
            Command::Fenced { node, round } => CommandView::Fenced { node, round },
            Command::Abandoned { node, round, reason } => {
                CommandView::Abandoned { node, round, reason: reason@ }
            },
            Command::PoolCreate { uuid, name, file_limit } => {
                CommandView::PoolCreate { uuid: uuid@, name: name@, file_limit }
            },
            Command::TapeAssign { barcode, pool } => {
                CommandView::TapeAssign { barcode: barcode@, pool: pool@ }
            },
            Command::TapeUnassign { barcode } => CommandView::TapeUnassign { barcode: barcode@ },
            Command::TapeState { barcode, state } => {
                CommandView::TapeState { barcode: barcode@, state: state@ }
            },
            Command::TapeReclaim { barcode } => CommandView::TapeReclaim { barcode: barcode@ },
            Command::TapeReclaimed { barcode, volume_uuid } => {
                CommandView::TapeReclaimed { barcode: barcode@, volume_uuid: volume_uuid@ }
            },
            Command::CatalogPart { barcode, generation, part, files } => {
                CommandView::CatalogPart {
                    barcode: barcode@,
                    generation,
                    part,
                    files: recs(files@),
                }
            },
            Command::TapeCommitted {
                barcode,
                volume_uuid,
                generation,
                files,
                bytes_used,
                bytes_written,
                parts,
                full,
            } => {
                CommandView::TapeCommitted {
                    barcode: barcode@,
                    volume_uuid: volume_uuid@,
                    generation,
                    files,
                    bytes_used,
                    bytes_written,
                    parts,
                    full,
                }
            },
        }
    }
}

/// The node that executes.
#[derive(Debug, Clone, Copy, PartialEq, Eq, Structural)]
pub struct Executor {
    pub node: u64,
    pub term: u64,
    /// The log index of its takeover: unique, ascending, and part of the reservation key.
    pub round: u64,
    /// Fencing was confirmed while it was still the newest executor.
    pub fenced: bool,
}

/// What applying a command means for this node.
#[derive(Debug, PartialEq, Eq)]
pub enum Applied {
    /// There is a new executor.
    NewExecutor(Executor),
    /// Fencing of a round is confirmed; recovery may start.
    FenceConfirmed(Executor),
    /// Fencing arrived after a newer takeover and is void.
    FenceSuperseded { node: u64, round: u64 },
    /// The executor has given up.
    ExecutorGone { node: u64, round: u64 },
    /// A volume commit counts: the directory takes its staged records in.
    CatalogCommitted,
    /// A tape has been reclaimed: the directory forgets its records.
    Reclaimed,
    /// The conclusion on an administrative command. `Err`: refused, nothing changed.
    Admin(Result<String, String>),
    Nothing,
}

#[verifier::ext_equal]
pub enum AppliedView {
    NewExecutor(Executor),
    FenceConfirmed(Executor),
    FenceSuperseded { node: u64, round: u64 },
    ExecutorGone { node: u64, round: u64 },
    CatalogCommitted,
    Reclaimed,
    Admin(Result<Seq<char>, Seq<char>>),
    Nothing,
}

/// What an answer says.
pub open spec fn answer(r: Result<String, String>) -> Result<Seq<char>, Seq<char>> {
    match r {
        Ok(s) => Ok(s@),
        Err(s) => Err(s@),
    }
}

impl View for Applied {
    type V = AppliedView;

    open spec fn view(&self) -> AppliedView {
        match *self {
            Applied::NewExecutor(e) => AppliedView::NewExecutor(e),
            Applied::FenceConfirmed(e) => AppliedView::FenceConfirmed(e),
            Applied::FenceSuperseded { node, round } => AppliedView::FenceSuperseded { node, round },
            Applied::ExecutorGone { node, round } => AppliedView::ExecutorGone { node, round },
            Applied::CatalogCommitted => AppliedView::CatalogCommitted,
            Applied::Reclaimed => AppliedView::Reclaimed,
            Applied::Admin(r) => AppliedView::Admin(answer(r)),
            Applied::Nothing => AppliedView::Nothing,
        }
    }
}

/// File limit of a tape where the pool gives none.
pub const DEFAULT_FILE_LIMIT: u64 = 200_000;

#[derive(Debug, Clone, PartialEq, Eq)]
pub struct Pool {
    pub name: String,
    pub file_limit: u64,
}

#[verifier::ext_equal]
pub struct PoolView {
    pub name: Seq<char>,
    pub file_limit: u64,
}

impl View for Pool {
    type V = PoolView;

    open spec fn view(&self) -> PoolView {
        PoolView { name: self.name@, file_limit: self.file_limit }
    }
}

impl Dup for Pool {
    fn dup(&self) -> (r: Self) {
        Pool { name: self.name.clone(), file_limit: self.file_limit }
    }
}

/// The last commit of a tape.
#[derive(Debug, Clone, PartialEq, Eq)]
pub struct TapeSummary {
    pub volume_uuid: String,
    pub generation: u64,
    pub files: u64,
    /// Bytes of the files in the index.
    pub bytes_used: u64,
    /// Bytes really written on the tape.
    pub bytes_written: u64,
}

#[verifier::ext_equal]
pub struct SummaryView {
    pub volume_uuid: Seq<char>,
    pub generation: u64,
    pub files: u64,
    pub bytes_used: u64,
    pub bytes_written: u64,
}

impl View for TapeSummary {
    type V = SummaryView;

    open spec fn view(&self) -> SummaryView {
        SummaryView {
            volume_uuid: self.volume_uuid@,
            generation: self.generation,
            files: self.files,
            bytes_used: self.bytes_used,
            bytes_written: self.bytes_written,
        }
    }
}

impl Dup for TapeSummary {
    fn dup(&self) -> (r: Self) {
        TapeSummary {
            volume_uuid: self.volume_uuid.clone(),
            generation: self.generation,
            files: self.files,
            bytes_used: self.bytes_used,
            bytes_written: self.bytes_written,
        }
    }
}

/// How many takeovers the history keeps.
pub const HISTORY_KEPT: usize = 64;

#[derive(Debug, Clone, PartialEq, Eq)]
pub struct ControlState {
    pub executor: Option<Executor>,
    pub applied_index: u64,
    /// Round and node of the last takeovers.
    pub history: Vec<(u64, u64)>,
    /// Pools by identifier.
    pub pools: StrMap<Pool>,
    /// The pool of each tape, by barcode. A tape that is not here is never touched.
    pub tapes: StrMap<String>,
    /// The state of each tape; appendable where there is none.
    pub tape_state: StrMap<String>,
    /// The last commit of each tape.
    pub tape_summary: StrMap<TapeSummary>,
}

#[verifier::ext_equal]
pub struct ControlView {
    pub executor: Option<Executor>,
    pub applied_index: u64,
    pub history: Seq<(u64, u64)>,
    pub pools: Map<Seq<char>, PoolView>,
    pub tapes: Map<Seq<char>, Seq<char>>,
    pub tape_state: Map<Seq<char>, Seq<char>>,
    pub tape_summary: Map<Seq<char>, SummaryView>,
}

impl View for ControlState {
    type V = ControlView;

    open spec fn view(&self) -> ControlView {
        ControlView {
            executor: self.executor,
            applied_index: self.applied_index,
            history: self.history@,
            pools: self.pools@,
            tapes: self.tapes@,
            tape_state: self.tape_state@,
            tape_summary: self.tape_summary@,
        }
    }
}

impl Default for ControlState {
    fn default() -> (r: Self)
        ensures
            r@ == (ControlView {
                executor: None,
                applied_index: 0,
                history: Seq::empty(),
                pools: Map::empty(),
                tapes: Map::empty(),
                tape_state: Map::empty(),
                tape_summary: Map::empty(),
            }),
    {
        ControlState {
            executor: None,
            applied_index: 0,
            history: Vec::new(),
            pools: StrMap::new(),
            tapes: StrMap::new(),
            tape_state: StrMap::new(),
            tape_summary: StrMap::new(),
        }
    }
}

/// How `str`'s debug format writes a text: in quotes, with escapes.
pub uninterp spec fn debug_text(s: Seq<char>) -> Seq<char>;

/// The debug format of `str`. The result depends on the text alone.
#[verifier::external_body]
pub(crate) fn quoted(s: &str) -> (r: String)
    ensures
        r@ == debug_text(s@),
{
    format!("{:?}", s)
}

/// The last `n` elements.
pub open spec fn last_n<A>(s: Seq<A>, n: nat) -> Seq<A> {
    if s.len() <= n {
        s
    } else {
        s.skip(s.len() - n)
    }
}

impl ControlView {
    /// The state of a tape.
    pub open spec fn state_of(self, barcode: Seq<char>) -> Seq<char> {
        if self.tape_state.contains_key(barcode) {
            self.tape_state[barcode]
        } else {
            tape_state::APPENDABLE@
        }
    }

    /// The first pool, by identifier, with this name.
    pub open spec fn named_from(self, keys: Seq<Seq<char>>, name: Seq<char>) -> Option<Seq<char>>
        decreases keys.len(),
    {
        if keys.len() == 0 {
            None
        } else if self.pools[keys[0]].name == name {
            Some(keys[0])
        } else {
            self.named_from(keys.drop_first(), name)
        }
    }

    /// The pool that `pool` names: an identifier, or else a name.
    pub open spec fn resolved(self, pool: Seq<char>) -> Option<Seq<char>> {
        if self.pools.contains_key(pool) {
            Some(pool)
        } else {
            self.named_from(strmap::sorted_keys(self.pools), pool)
        }
    }

    /// Some pool has this name.
    pub open spec fn name_taken(self, name: Seq<char>) -> bool {
        exists|u: Seq<char>| self.pools.contains_key(u) && (#[trigger] self.pools[u]).name == name
    }

    /// Why a pool cannot be made, if it cannot.
    pub open spec fn pool_create_refusal(
        self,
        uuid: Seq<char>,
        name: Seq<char>,
        file_limit: u64,
    ) -> Option<Seq<char>> {
        if name.len() == 0 || name.contains('/') {
            Some("池名非法: "@ + debug_text(name))
        } else if self.pools.contains_key(uuid) {
            Some("池 UUID 已存在: "@ + uuid)
        } else if self.name_taken(name) {
            Some("池名已存在: "@ + name)
        } else if file_limit == 0 {
            Some("文件数上限必须大于 0"@)
        } else {
            None
        }
    }

    /// Why a tape cannot be put into a pool, if it cannot.
    pub open spec fn assign_refusal(self, barcode: Seq<char>, pool: Seq<char>) -> Option<Seq<char>> {
        if barcode.len() == 0 {
            Some("条码为空"@)
        } else if self.resolved(pool) is None {
            Some("没有这个池: "@ + pool)
        } else if self.tapes.contains_key(barcode) {
            let cur = self.tapes[barcode];
            Some(
                barcode + " 已归属池 "@ + if self.pools.contains_key(cur) {
                    self.pools[cur].name
                } else {
                    "?"@
                },
            )
        } else {
            None
        }
    }

    /// Why a tape cannot be taken out of its pool, if it cannot.
    pub open spec fn unassign_refusal(self, barcode: Seq<char>) -> Option<Seq<char>> {
        if !self.tapes.contains_key(barcode) {
            Some(barcode + " 未归属任何池"@)
        } else if self.tape_summary.contains_key(barcode) && self.tape_summary[barcode].files > 0 {
            Some(
                barcode + " 上还有 "@ + text::decimal(self.tape_summary[barcode].files as nat)
                    + " 个文件，不能解除归属"@,
            )
        } else {
            None
        }
    }

    /// Another tape of the same pool takes data.
    pub open spec fn has_target(self, barcode: Seq<char>) -> bool {
        exists|b: Seq<char>| #[trigger]
            self.tapes.contains_key(b) && b != barcode && self.tapes[b] == self.tapes[barcode]
                && self.state_of(b) == tape_state::APPENDABLE@
    }

    /// Why a tape cannot be reclaimed, if it cannot.
    pub open spec fn reclaim_refusal(self, barcode: Seq<char>) -> Option<Seq<char>> {
        let state = self.state_of(barcode);
        if !self.tapes.contains_key(barcode) {
            Some(barcode + " 未归属任何池"@)
        } else if state == tape_state::RECLAIMING@ {
            Some(barcode + " 已在回收中"@)
        } else if state == tape_state::LABEL_MISMATCH@ || state == tape_state::CHECK@ {
            Some(barcode + " 当前状态是 "@ + state + "，先人工处理再回收"@)
        } else if !self.has_target(barcode) {
            Some(barcode + " 所在的池里没有别的可写带作为回收目标"@)
        } else {
            None
        }
    }

    /// The executor is this node in this round.
    pub open spec fn executes(self, node: u64, round: u64) -> bool {
        self.executor is Some && self.executor->0.round == round && self.executor->0.node == node
    }

    /// What the command `cmd` at `index` makes of the state, and what follows from it.
    pub open spec fn applied(self, index: u64, cmd: CommandView) -> (ControlView, AppliedView) {
        let s = ControlView { applied_index: index, ..self };
        match cmd {
            CommandView::Takeover { node, term } => {
                let e = Executor { node, term, round: index, fenced: false };
                (
                    ControlView {
                        executor: Some(e),
                        history: last_n(s.history.push((index, node)), HISTORY_KEPT as nat),
                        ..s
                    },
                    AppliedView::NewExecutor(e),
                )
            },
            CommandView::Fenced { node, round } => if s.executes(node, round) {
                let e = Executor { fenced: true, ..s.executor->0 };
                (ControlView { executor: Some(e), ..s }, AppliedView::FenceConfirmed(e))
            } else {
                (s, AppliedView::FenceSuperseded { node, round })
            },
            CommandView::Abandoned { node, round, reason } => if s.executes(node, round) {
                (ControlView { executor: None, ..s }, AppliedView::ExecutorGone { node, round })
            } else {
                (s, AppliedView::Nothing)
            },
            CommandView::PoolCreate { uuid, name, file_limit } => match s.pool_create_refusal(
                uuid,
                name,
                file_limit,
            ) {
                Some(e) => (s, AppliedView::Admin(Err(e))),
                None => (
                    ControlView {
                        pools: s.pools.insert(uuid, PoolView { name, file_limit }),
                        ..s
                    },
                    AppliedView::Admin(Ok(uuid)),
                ),
            },
            CommandView::TapeAssign { barcode, pool } => match s.assign_refusal(barcode, pool) {
                Some(e) => (s, AppliedView::Admin(Err(e))),
                None => {
                    let uuid = s.resolved(pool)->0;
                    (
                        ControlView { tapes: s.tapes.insert(barcode, uuid), ..s },
                        AppliedView::Admin(Ok(barcode + " 已归入池 "@ + s.pools[uuid].name)),
                    )
                },
            },
            CommandView::TapeUnassign { barcode } => match s.unassign_refusal(barcode) {
                Some(e) => (s, AppliedView::Admin(Err(e))),
                None => (
                    ControlView {
                        tapes: s.tapes.remove(barcode),
                        tape_summary: s.tape_summary.remove(barcode),
                        tape_state: s.tape_state.remove(barcode),
                        ..s
                    },
                    AppliedView::Admin(Ok(barcode + " 已解除归属"@)),
                ),
            },
            CommandView::TapeState { barcode, state } => (
                if s.tapes.contains_key(barcode) && tape_state::known(state) {
                    ControlView { tape_state: s.tape_state.insert(barcode, state), ..s }
                } else {
                    s
                },
                AppliedView::Nothing,
            ),
            CommandView::TapeReclaim { barcode } => match s.reclaim_refusal(barcode) {
                Some(e) => (s, AppliedView::Admin(Err(e))),
                None => (
                    ControlView {
                        tape_state: s.tape_state.insert(barcode, tape_state::RECLAIMING@),
                        ..s
                    },
                    AppliedView::Admin(Ok(barcode + " 开始回收"@)),
                ),
            },
            CommandView::TapeReclaimed { barcode, volume_uuid } => if s.tape_state.contains_key(
                barcode,
            ) && s.tape_state[barcode] == tape_state::RECLAIMING@ {
                (
                    ControlView {
                        tape_summary: s.tape_summary.insert(
                            barcode,
                            SummaryView {
                                volume_uuid,
                                generation: 1,
                                files: 0,
                                bytes_used: 0,
                                bytes_written: 0,
                            },
                        ),
                        tape_state: s.tape_state.insert(barcode, tape_state::APPENDABLE@),
                        ..s
                    },
                    AppliedView::Reclaimed,
                )
            } else {
                (s, AppliedView::Nothing)
            },
            CommandView::CatalogPart { .. } => (s, AppliedView::Nothing),
            CommandView::TapeCommitted {
                barcode,
                volume_uuid,
                generation,
                files,
                bytes_used,
                bytes_written,
                parts,
                full,
            } => if s.tapes.contains_key(barcode) && (!s.tape_summary.contains_key(barcode)
                || generation >= s.tape_summary[barcode].generation) {
                (
                    ControlView {
                        tape_summary: s.tape_summary.insert(
                            barcode,
                            SummaryView {
                                volume_uuid,
                                generation,
                                files,
                                bytes_used,
                                bytes_written,
                            },
                        ),
                        ..s
                    },
                    AppliedView::CatalogCommitted,
                )
            } else {
                (s, AppliedView::Nothing)
            },
        }
    }
}

impl ControlState {
    /// The state of a tape.
    pub fn state_of(&self, barcode: &str) -> (r: &str)
        ensures
            r@ == self@.state_of(barcode@),
    {
        match self.tape_state.get(barcode) {
            Some(s) => s.as_str(),
            None => tape_state::APPENDABLE,
        }
    }

    /// The identifier of the pool that `pool` names: an identifier, or else a name.
    pub fn resolve_pool(&self, pool: &str) -> (r: Option<String>)
        ensures
            r is Some <==> self@.resolved(pool@) is Some,
            r is Some ==> r->0@ == self@.resolved(pool@)->0,
            r is Some ==> self@.pools.contains_key(r->0@),
    {
        if self.pools.contains_key(pool) {
            return Some(pool.to_owned());
        }
        let n = self.pools.len();
        let ghost ks = strmap::sorted_keys(self@.pools);
        let mut i: usize = 0;
        assert(ks.skip(0) =~= ks);
        while i < n
            invariant
                i <= n == ks.len(),
                ks == strmap::sorted_keys(self@.pools),
                forall|j: int| 0 <= j < n ==> self@.pools.contains_key(#[trigger] ks[j]),
                self@.named_from(ks, pool@) == self@.named_from(ks.skip(i as int), pool@),
                self@.resolved(pool@) == self@.named_from(ks, pool@),
            decreases n - i,
        {
            assert(ks.skip(i as int).drop_first() =~= ks.skip(i + 1));
            if text::same(self.pools.value_at(i).name.as_str(), pool) {
                return Some(self.pools.key_at(i).clone());
            }
            i += 1;
        }
        None
    }

    fn name_taken(&self, name: &str) -> (r: bool)
        ensures
            r == self@.name_taken(name@),
    {
        let n = self.pools.len();
        let ghost ks = strmap::sorted_keys(self@.pools);
        let mut i: usize = 0;
        while i < n
            invariant
                i <= n == ks.len(),
                ks == strmap::sorted_keys(self@.pools),
                strmap::listing(ks, self@.pools.dom()),
                forall|j: int| 0 <= j < i ==> self@.pools[#[trigger] ks[j]].name != name@,
            decreases n - i,
        {
            if text::same(self.pools.value_at(i).name.as_str(), name) {
                assert(self@.pools[ks[i as int]].name == name@);
                return true;
            }
            i += 1;
        }
        proof {
            if self@.name_taken(name@) {
                let u = choose|u: Seq<char>|
                    self@.pools.contains_key(u) && (#[trigger] self@.pools[u]).name == name@;
                assert(ks.contains(u));
            }
        }
        false
    }

    fn has_target(&self, barcode: &str, pool: &str) -> (r: bool)
        requires
            self@.tapes.contains_key(barcode@),
            self@.tapes[barcode@] == pool@,
        ensures
            r == self@.has_target(barcode@),
    {
        let n = self.tapes.len();
        let ghost ks = strmap::sorted_keys(self@.tapes);
        let mut i: usize = 0;
        while i < n
            invariant
                i <= n == ks.len(),
                ks == strmap::sorted_keys(self@.tapes),
                strmap::listing(ks, self@.tapes.dom()),
                self@.tapes[barcode@] == pool@,
                forall|j: int| 0 <= j < n ==> self@.tapes.contains_key(#[trigger] ks[j]),
                forall|j: int|
                    0 <= j < i ==> !(#[trigger] ks[j] != barcode@ && self@.tapes[ks[j]] == pool@
                        && self@.state_of(ks[j]) == tape_state::APPENDABLE@),
            decreases n - i,
        {
            let b = self.tapes.key_at(i);
            if text::same(self.tapes.value_at(i).as_str(), pool) && !text::same(b.as_str(), barcode)
                && text::same(self.state_of(b.as_str()), tape_state::APPENDABLE) {
                assert(self@.tapes.contains_key(b@));
                return true;
            }
            i += 1;
        }
        proof {
            if self@.has_target(barcode@) {
                let b = choose|b: Seq<char>| #[trigger]
                    self@.tapes.contains_key(b) && b != barcode@ && self@.tapes[b]
                        == self@.tapes[barcode@] && self@.state_of(b) == tape_state::APPENDABLE@;
                assert(ks.contains(b));
            }
        }
        false
    }

    fn pool_create(&mut self, uuid: &str, name: &str, file_limit: u64) -> (r: Result<
        String,
        String,
    >)
        ensures
            match old(self)@.pool_create_refusal(uuid@, name@, file_limit) {
                Some(e) => answer(r) == Err::<Seq<char>, Seq<char>>(e) && final(self)@ == old(
                    self,
                )@,
                None => answer(r) == Ok::<Seq<char>, Seq<char>>(uuid@) && final(self)@ == (
                ControlView {
                    pools: old(self)@.pools.insert(uuid@, PoolView { name: name@, file_limit }),
                    ..old(self)@
                }),
            },
    {
        if name.is_empty() || text::has_char(name, '/') {
            return Err(text::cat2("池名非法: ", quoted(name).as_str()));
        }
        if self.pools.contains_key(uuid) {
            return Err(text::cat2("池 UUID 已存在: ", uuid));
        }
        if self.name_taken(name) {
            return Err(text::cat2("池名已存在: ", name));
        }
        if file_limit == 0 {
            return Err("文件数上限必须大于 0".to_owned());
        }
        self.pools.insert(uuid.to_owned(), Pool { name: name.to_owned(), file_limit });
        Ok(uuid.to_owned())
    }

    fn tape_unassign(&mut self, barcode: &str) -> (r: Result<String, String>)
        ensures
            match old(self)@.unassign_refusal(barcode@) {
                Some(e) => answer(r) == Err::<Seq<char>, Seq<char>>(e) && final(self)@ == old(
                    self,
                )@,
                None => answer(r) == Ok::<Seq<char>, Seq<char>>(barcode@ + " 已解除归属"@)
                    && final(self)@ == (ControlView {
                    tapes: old(self)@.tapes.remove(barcode@),
                    tape_summary: old(self)@.tape_summary.remove(barcode@),
                    tape_state: old(self)@.tape_state.remove(barcode@),
                    ..old(self)@
                }),
            },
    {
        if !self.tapes.contains_key(barcode) {
            return Err(text::cat2(barcode, " 未归属任何池"));
        }
        let files: u64 = match self.tape_summary.get(barcode) {
            Some(s) => s.files,
            None => 0,
        };
        if files > 0 {
            return Err(
                text::cat4(
                    barcode,
                    " 上还有 ",
                    text::decimal_text(files).as_str(),
                    " 个文件，不能解除归属",
                ),
            );
        }
        self.tapes.remove(barcode);
        self.tape_summary.remove(barcode);
        self.tape_state.remove(barcode);
        Ok(text::cat2(barcode, " 已解除归属"))
    }

    fn tape_reclaim(&mut self, barcode: &str) -> (r: Result<String, String>)
        ensures
            match old(self)@.reclaim_refusal(barcode@) {
                Some(e) => answer(r) == Err::<Seq<char>, Seq<char>>(e) && final(self)@ == old(
                    self,
                )@,
                None => answer(r) == Ok::<Seq<char>, Seq<char>>(barcode@ + " 开始回收"@)
                    && final(self)@ == (ControlView {
                    tape_state: old(self)@.tape_state.insert(barcode@, tape_state::RECLAIMING@),
                    ..old(self)@
                }),
            },
    {
        let pool = match self.tapes.get(barcode) {
            Some(p) => p.clone(),
            None => {
                return Err(text::cat2(barcode, " 未归属任何池"));
            },
        };
        let state = self.state_of(barcode).to_owned();
        if text::same(state.as_str(), tape_state::RECLAIMING) {
            return Err(text::cat2(barcode, " 已在回收中"));
        }
        if text::same(state.as_str(), tape_state::LABEL_MISMATCH) || text::same(
            state.as_str(),
            tape_state::CHECK,
        ) {
            return Err(
                text::cat4(barcode, " 当前状态是 ", state.as_str(), "，先人工处理再回收"),
            );
        }
        if !self.has_target(barcode, pool.as_str()) {
            return Err(text::cat2(barcode, " 所在的池里没有别的可写带作为回收目标"));
        }
        self.tape_state.insert(barcode.to_owned(), tape_state::RECLAIMING.to_owned());
        Ok(text::cat2(barcode, " 开始回收"))
    }

    fn tape_assign(&mut self, barcode: &str, pool: &str) -> (r: Result<String, String>)
        ensures
            match old(self)@.assign_refusal(barcode@, pool@) {
                Some(e) => answer(r) == Err::<Seq<char>, Seq<char>>(e) && final(self)@ == old(
                    self,
                )@,
                None => {
                    let uuid = old(self)@.resolved(pool@)->0;
                    answer(r) == Ok::<Seq<char>, Seq<char>>(
                        barcode@ + " 已归入池 "@ + old(self)@.pools[uuid].name,
                    ) && final(self)@ == (ControlView {
                        tapes: old(self)@.tapes.insert(barcode@, uuid),
                        ..old(self)@
                    })
                },
            },
    {
        if barcode.is_empty() {
            return Err("条码为空".to_owned());
        }
        let uuid = match self.resolve_pool(pool) {
            Some(u) => u,
            None => {
                return Err(text::cat2("没有这个池: ", pool));
            },
        };
        match self.tapes.get(barcode) {
            Some(cur) => {
                let name: &str = match self.pools.get(cur.as_str()) {
                    Some(p) => p.name.as_str(),
                    None => "?",
                };
                return Err(text::cat3(barcode, " 已归属池 ", name));
            },
            None => {},
        }
        let name = match self.pools.get(uuid.as_str()) {
            Some(p) => p.name.clone(),
            None => String::new(),
        };
        self.tapes.insert(barcode.to_owned(), uuid);
        Ok(text::cat3(barcode, " 已归入池 ", name.as_str()))
    }

    /// Applies the command at log index `index`.
    pub fn apply(&mut self, index: u64, cmd: &Command) -> (r: Applied)
        ensures
            (final(self)@, r@) == old(self)@.applied(index, cmd@),
    {
        self.applied_index = index;
        match cmd {
            Command::Takeover { node, term } => {
                let e = Executor { node: *node, term: *term, round: index, fenced: false };
                self.history.push((index, *node));
                if self.history.len() > HISTORY_KEPT {
                    let extra: usize = self.history.len() - HISTORY_KEPT;
                    let kept = self.history.split_off(extra);
                    self.history = kept;
                }
                assert(self.history@ =~= last_n(
                    old(self)@.history.push((index, *node)),
                    HISTORY_KEPT as nat,
                ));
                self.executor = Some(e);
                Applied::NewExecutor(e)
            },
            Command::Fenced { node, round } => {
                match self.executor {
                    Some(mut e) => {
                        if e.round == *round && e.node == *node {
                            e.fenced = true;
                            self.executor = Some(e);
                            return Applied::FenceConfirmed(e);
                        }
                    },
                    None => {},
                }
                Applied::FenceSuperseded { node: *node, round: *round }
            },
            Command::Abandoned { node, round, reason: _ } => {
                match self.executor {
                    Some(e) => {
                        if e.round == *round && e.node == *node {
                            self.executor = None;
                            return Applied::ExecutorGone { node: *node, round: *round };
                        }
                    },
                    None => {},
                }
                Applied::Nothing
            },
            Command::PoolCreate { uuid, name, file_limit } => {
                Applied::Admin(self.pool_create(uuid.as_str(), name.as_str(), *file_limit))
            },
            Command::TapeAssign { barcode, pool } => {
                Applied::Admin(self.tape_assign(barcode.as_str(), pool.as_str()))
            },
            Command::TapeUnassign { barcode } => {
                Applied::Admin(self.tape_unassign(barcode.as_str()))
            },
            Command::TapeState { barcode, state } => {
                if self.tapes.contains_key(barcode.as_str()) && tape_state::is_known(
                    state.as_str(),
                ) {
                    self.tape_state.insert(barcode.clone(), state.clone());
                }
                Applied::Nothing
            },
            Command::TapeReclaim { barcode } => {
                Applied::Admin(self.tape_reclaim(barcode.as_str()))
            },
            Command::TapeReclaimed { barcode, volume_uuid } => {
                let reclaiming = match self.tape_state.get(barcode.as_str()) {
                    Some(s) => text::same(s.as_str(), tape_state::RECLAIMING),
                    None => false,
                };
                if reclaiming {
                    self.tape_summary.insert(
                        barcode.clone(),
                        TapeSummary {
                            volume_uuid: volume_uuid.clone(),
                            generation: 1,
                            files: 0,
                            bytes_used: 0,
                            bytes_written: 0,
                        },
                    );
                    self.tape_state.insert(barcode.clone(), tape_state::APPENDABLE.to_owned());
                    Applied::Reclaimed
                } else {
                    Applied::Nothing
                }
            },
            Command::CatalogPart { .. } => Applied::Nothing,
            Command::TapeCommitted {
                barcode,
                volume_uuid,
                generation,
                files,
                bytes_used,
                bytes_written,
                parts: _,
                full: _,
            } => {
                let newer = match self.tape_summary.get(barcode.as_str()) {
                    Some(s) => *generation >= s.generation,
                    None => true,
                };
                if newer && self.tapes.contains_key(barcode.as_str()) {
                    self.tape_summary.insert(
                        barcode.clone(),
                        TapeSummary {
                            volume_uuid: volume_uuid.clone(),
                            generation: *generation,
                            files: *files,
                            bytes_used: *bytes_used,
                            bytes_written: *bytes_written,
                        },
                    );
                    Applied::CatalogCommitted
                } else {
                    Applied::Nothing
                }
            },
        }
    }
}

/// Aim for the size of one part of directory records, in bytes.
pub const CATALOG_PART_BYTES: usize = 1_048_576;

impl FileRecView {
    /// How many bytes the record is reckoned at.
    pub open spec fn cost(self) -> nat {
        vstd::utf8::encode_utf8(self.path).len() + vstd::utf8::encode_utf8(self.sha256).len() + 72
    }
}

/// What the records of one part are reckoned at.
pub open spec fn part_cost(part: Seq<FileRecView>) -> nat
    decreases part.len(),
{
    if part.len() == 0 {
        0
    } else {
        part_cost(part.drop_last()) + part.last().cost()
    }
}

/// Records cut into parts: a record starts a new part when the last part holds some and would
/// grow beyond the aim.
pub open spec fn catalog_parts(files: Seq<FileRecView>) -> Seq<Seq<FileRecView>>
    decreases files.len(),
{
    if files.len() == 0 {
        seq![Seq::<FileRecView>::empty()]
    } else {
        let parts = catalog_parts(files.drop_last());
        let f = files.last();
        let tail = parts.last();
        if tail.len() > 0 && part_cost(tail) + f.cost() > CATALOG_PART_BYTES {
            parts.push(seq![f])
        } else {
            parts.drop_last().push(tail.push(f))
        }
    }
}

/// What the parts hold.
pub open spec fn parts_view(parts: Seq<Vec<FileRec>>) -> Seq<Seq<FileRecView>> {
    parts.map_values(|p: Vec<FileRec>| recs(p@))
}

/// The parts in a row.
pub open spec fn joined(parts: Seq<Seq<FileRecView>>) -> Seq<FileRecView>
    decreases parts.len(),
{
    if parts.len() == 0 {
        Seq::empty()
    } else {
        joined(parts.drop_last()) + parts.last()
    }
}

/// Cutting loses nothing, adds nothing and keeps the order; no part but the only one of an empty
/// list is empty; and a part of several records stays within the aim.
pub proof fn law_parts_are_the_records(files: Seq<FileRecView>)
    ensures
        catalog_parts(files).len() >= 1,
        joined(catalog_parts(files)) == files,
        forall|i: int|
            0 <= i < catalog_parts(files).len() ==> {
                &&& files.len() > 0 ==> (#[trigger] catalog_parts(files)[i]).len() > 0
                &&& catalog_parts(files)[i].len() > 1 ==> part_cost(catalog_parts(files)[i])
                    <= CATALOG_PART_BYTES
            },
    decreases files.len(),
{
    let parts = catalog_parts(files);
    if files.len() == 0 {
        assert(parts.drop_last() =~= Seq::<Seq<FileRecView>>::empty());
        assert(joined(parts.drop_last()) =~= Seq::<FileRecView>::empty());
        assert(joined(parts) =~= files);
    } else {
        law_parts_are_the_records(files.drop_last());
        let was = catalog_parts(files.drop_last());
        let f = files.last();
        let tail = was.last();
        assert(tail.push(f).drop_last() =~= tail);
        if tail.len() > 0 && part_cost(tail) + f.cost() > CATALOG_PART_BYTES {
            assert(parts.drop_last() =~= was);
            assert(joined(parts) =~= joined(was).push(f));
            assert(files.drop_last().push(f) =~= files);
        } else {
            assert(parts.drop_last() =~= was.drop_last());
            assert(joined(parts) =~= joined(was.drop_last()) + tail.push(f));
            assert(joined(was) =~= joined(was.drop_last()) + tail);
            assert(joined(parts) =~= joined(was).push(f));
            assert(files.drop_last().push(f) =~= files);
            assert forall|i: int| 0 <= i < parts.len() implies {
                &&& files.len() > 0 ==> (#[trigger] parts[i]).len() > 0
                &&& parts[i].len() > 1 ==> part_cost(parts[i]) <= CATALOG_PART_BYTES
            } by {
                if i < parts.len() - 1 {
                    assert(parts[i] == was[i]);
                    if files.drop_last().len() == 0 {
                        assert(was.len() == 1);
                    }
                }
            }
        }
    }
}

/// Cuts records into parts of about `CATALOG_PART_BYTES`.
pub fn split_catalog(files: &[FileRec]) -> (r: Vec<Vec<FileRec>>)
    requires
        forall|i: int|
            0 <= i < files@.len() ==> (#[trigger] files@[i])@.cost() + CATALOG_PART_BYTES
                <= usize::MAX,
    ensures
        parts_view(r@) == catalog_parts(recs(files@)),
{
    let ghost all = recs(files@);
    let mut out: Vec<Vec<FileRec>> = Vec::new();
    let mut tail: Vec<FileRec> = Vec::new();
    let mut size: usize = 0;
    let mut i: usize = 0;
    proof {
        assert(all.take(0) =~= Seq::<FileRecView>::empty());
        assert(recs(tail@) =~= Seq::<FileRecView>::empty());
        assert(parts_view(out@).push(recs(tail@)) =~= catalog_parts(all.take(0)));
    }
    while i < files.len()
        invariant
            i <= files@.len(),
            all == recs(files@),
            forall|i: int|
                0 <= i < files@.len() ==> (#[trigger] files@[i])@.cost() + CATALOG_PART_BYTES
                    <= usize::MAX,
            parts_view(out@).push(recs(tail@)) == catalog_parts(all.take(i as int)),
            size == part_cost(recs(tail@)),
            tail@.len() > 1 ==> size <= CATALOG_PART_BYTES,
            tail@.len() == 0 ==> size == 0,
        decreases files@.len() - i,
    {
        let f = &files[i];
        let ghost fv = f@;
        let ghost was = catalog_parts(all.take(i as int));
        proof {
            assert(all.take(i + 1).drop_last() =~= all.take(i as int));
            assert(all.take(i + 1).last() == fv);
            assert(was.last() == recs(tail@));
            assert(was.drop_last() =~= parts_view(out@));
        }
        let cost: usize = f.path.as_str().len() + f.sha256.as_str().len() + 72;
        assert(cost == fv.cost());
        if tail.len() > 0 && (size > CATALOG_PART_BYTES || cost > CATALOG_PART_BYTES - size) {
            let mut full: Vec<FileRec> = Vec::new();
            std::mem::swap(&mut full, &mut tail);
            out.push(full);
            size = 0;
            assert(parts_view(out@) =~= was);
            assert(recs(tail@) =~= Seq::<FileRecView>::empty());
            assert(part_cost(recs(tail@)) == 0);
        }
        let ghost t0 = tail@;
        assert(size == part_cost(recs(t0)));
        tail.push(f.dup());
        size = size + cost;
        proof {
            assert(recs(tail@) =~= recs(t0).push(fv));
            assert(recs(tail@).drop_last() =~= recs(t0));
            assert(recs(tail@).last() == fv);
            assert(part_cost(recs(tail@)) == part_cost(recs(t0)) + fv.cost());
            assert(seq![fv] =~= Seq::<FileRecView>::empty().push(fv));
        }
        i += 1;
    }
    let ghost was = parts_view(out@);
    let ghost last = recs(tail@);
    out.push(tail);
    proof {
        assert(parts_view(out@) =~= was.push(last));
        assert(all.take(i as int) =~= all);
    }
    out
}

impl Dup for ControlState {
    fn dup(&self) -> (r: Self) {
        let mut history: Vec<(u64, u64)> = Vec::new();
        let mut i: usize = 0;
        while i < self.history.len()
            invariant
                i <= self.history@.len(),
                history@ == self.history@.take(i as int),
            decreases self.history@.len() - i,
        {
            history.push(self.history[i]);
            assert(self.history@.take(i + 1) =~= self.history@.take(i as int).push(
                self.history@[i as int],
            ));
            i += 1;
        }
        assert(self.history@.take(i as int) =~= self.history@);
        ControlState {
            executor: self.executor,
            applied_index: self.applied_index,
            history,
            pools: self.pools.dup(),
            tapes: self.tapes.dup(),
            tape_state: self.tape_state.dup(),
            tape_summary: self.tape_summary.dup(),
        }
    }
}

} // verus!
