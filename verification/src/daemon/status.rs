//! What a node says of itself and of the cluster.
use vstd::prelude::*;

use crate::daemon::directory;
use crate::daemon::directory::{PoolRow, PoolRowView};
use crate::daemon::state::{ControlState, ControlView, Executor};
use crate::daemon::tape_state;
use crate::json;
use crate::json::{Fields, Items, Json, JsonView};
use crate::strmap;
use crate::strmap::StrMap;
use crate::text;

verus! {

/// A tape in the control state.
#[derive(Debug, Clone, PartialEq, Eq)]
pub struct TapeRow {
    pub state: String,
    pub generation: u64,
    /// Files in its index.
    pub files: u64,
    /// Bytes of these files, the live ones.
    pub bytes_used: u64,
    /// Bytes really written on the tape. Less `bytes_used` they are what was overwritten on this
    /// tape.
    pub bytes_written: u64,
}

#[verifier::ext_equal]
pub struct TapeRowView {
    pub state: Seq<char>,
    pub generation: u64,
    pub files: u64,
    pub bytes_used: u64,
    pub bytes_written: u64,
}

impl View for TapeRow {
    type V = TapeRowView;

    open spec fn view(&self) -> TapeRowView {
        TapeRowView {
            state: self.state@,
            generation: self.generation,
            files: self.files,
            bytes_used: self.bytes_used,
            bytes_written: self.bytes_written,
        }
    }
}

/// A node as others see it.
#[derive(Debug)]
pub struct NodeStatus {
    pub id: u64,
    pub role: String,
    pub term: u64,
    pub leader: u64,
    pub executor: Option<Executor>,
    /// What its device thread does.
    pub local: String,
    pub applied_index: u64,
    /// The pools by identifier, with their tapes.
    pub pools: Vec<PoolRow>,
    pub tapes: StrMap<TapeRow>,
}

#[verifier::ext_equal]
pub struct StatusView {
    pub id: u64,
    pub role: Seq<char>,
    pub term: u64,
    pub leader: u64,
    pub executor: Option<Executor>,
    pub local: Seq<char>,
    pub applied_index: u64,
    pub pools: Seq<PoolRowView>,
    pub tapes: Map<Seq<char>, TapeRowView>,
}

pub open spec fn pool_views(v: Seq<PoolRow>) -> Seq<PoolRowView> {
    v.map_values(|p: PoolRow| p@)
}

impl View for NodeStatus {
    type V = StatusView;

    open spec fn view(&self) -> StatusView {
        StatusView {
            id: self.id,
            role: self.role@,
            term: self.term,
            leader: self.leader,
            executor: self.executor,
            local: self.local@,
            applied_index: self.applied_index,
            pools: pool_views(self.pools@),
            tapes: self.tapes@,
        }
    }
}

/// Those of `barcodes` that belong to the pool.
pub open spec fn members(
    barcodes: Seq<Seq<char>>,
    tapes: Map<Seq<char>, Seq<char>>,
    uuid: Seq<char>,
) -> Seq<Seq<char>>
    decreases barcodes.len(),
{
    if barcodes.len() == 0 {
        Seq::empty()
    } else {
        let head = members(barcodes.drop_last(), tapes, uuid);
        if tapes[barcodes.last()] == uuid {
            head.push(barcodes.last())
        } else {
            head
        }
    }
}

/// The row of a pool.
pub open spec fn pool_row(c: ControlView, uuid: Seq<char>) -> PoolRowView {
    PoolRowView {
        uuid,
        name: c.pools[uuid].name,
        file_limit: c.pools[uuid].file_limit,
        tapes: members(strmap::sorted_keys(c.tapes), c.tapes, uuid),
    }
}

pub open spec fn pool_rows(c: ControlView) -> Seq<PoolRowView> {
    strmap::sorted_keys(c.pools).map_values(|u: Seq<char>| pool_row(c, u))
}

/// The row of a tape: appendable and empty where nothing else is known.
pub open spec fn tape_row(c: ControlView, barcode: Seq<char>) -> TapeRowView {
    let s = if c.tape_summary.contains_key(barcode) {
        c.tape_summary[barcode]
    } else {
        directory::no_commit()
    };
    TapeRowView {
        state: if c.tape_state.contains_key(barcode) {
            c.tape_state[barcode]
        } else {
            tape_state::APPENDABLE@
        },
        generation: s.generation,
        files: s.files,
        bytes_used: s.bytes_used,
        bytes_written: s.bytes_written,
    }
}

pub open spec fn tape_rows(c: ControlView) -> Map<Seq<char>, TapeRowView> {
    Map::new(|b: Seq<char>| c.tapes.contains_key(b), |b: Seq<char>| tape_row(c, b))
}

fn tapes_of(c: &ControlState, uuid: &str) -> (r: Vec<String>)
    ensures
        text::string_views(r@) == members(
            strmap::sorted_keys(c@.tapes),
            c@.tapes,
            uuid@,
        ),
{
    let mut out: Vec<String> = Vec::new();
    let n = c.tapes.len();
    let ghost ks = strmap::sorted_keys(c.tapes@);
    let mut i: usize = 0;
    assert(text::string_views(out@) =~= Seq::<Seq<char>>::empty());
    while i < n
        invariant
            i <= n == ks.len(),
            ks == strmap::sorted_keys(c.tapes@),
            text::string_views(out@) == members(ks.take(i as int), c.tapes@, uuid@),
        decreases n - i,
    {
        assert(ks.take(i + 1).drop_last() =~= ks.take(i as int));
        if text::same(c.tapes.value_at(i).as_str(), uuid) {
            let ghost was = out@;
            let b = c.tapes.key_at(i).clone();
            out.push(b);
            assert(text::string_views(out@) =~= text::string_views(was).push(b@));
        }
        i += 1;
    }
    assert(ks.take(i as int) =~= ks);
    out
}

fn row_of_tape(c: &ControlState, barcode: &str) -> (r: TapeRow)
    ensures
        r@ == tape_row(c@, barcode@),
{
    let state = match c.tape_state.get(barcode) {
        Some(s) => s.clone(),
        None => tape_state::APPENDABLE.to_owned(),
    };
    match c.tape_summary.get(barcode) {
        Some(s) => TapeRow {
            state,
            generation: s.generation,
            files: s.files,
            bytes_used: s.bytes_used,
            bytes_written: s.bytes_written,
        },
        None => TapeRow { state, generation: 0, files: 0, bytes_used: 0, bytes_written: 0 },
    }
}

impl NodeStatus {
    /// What a node says of itself.
    pub fn of(
        id: u64,
        role: &str,
        term: u64,
        leader: u64,
        c: &ControlState,
        local: &str,
    ) -> (r: Self)
        ensures
            r@ == (StatusView {
                id,
                role: role@,
                term,
                leader,
                executor: c@.executor,
                local: local@,
                applied_index: c@.applied_index,
                pools: pool_rows(c@),
                tapes: tape_rows(c@),
            }),
    {
        let mut pools: Vec<PoolRow> = Vec::new();
        let n = c.pools.len();
        let ghost us = strmap::sorted_keys(c.pools@);
        let mut i: usize = 0;
        while i < n
            invariant
                i <= n == us.len(),
                us == strmap::sorted_keys(c.pools@),
                pool_views(pools@) == us.take(i as int).map_values(
                    |u: Seq<char>| pool_row(c@, u),
                ),
            decreases n - i,
        {
            let ghost was = pools@;
            let uuid = c.pools.key_at(i).clone();
            let p = c.pools.value_at(i);
            let row = PoolRow {
                name: p.name.clone(),
                file_limit: p.file_limit,
                tapes: tapes_of(c, uuid.as_str()),
                uuid,
            };
            assert(row@ =~= pool_row(c@, us[i as int]));
            pools.push(row);
            assert(pool_views(pools@) =~= pool_views(was).push(row@));
            assert(us.take(i + 1) =~= us.take(i as int).push(us[i as int]));
            assert(us.take(i + 1).map_values(|u: Seq<char>| pool_row(c@, u)) =~= us.take(
                i as int,
            ).map_values(|u: Seq<char>| pool_row(c@, u)).push(pool_row(c@, us[i as int])));
            i += 1;
        }
        assert(us.take(i as int) =~= us);
        let mut tapes: StrMap<TapeRow> = StrMap::new();
        let n = c.tapes.len();
        let ghost bs = strmap::sorted_keys(c.tapes@);
        let mut i: usize = 0;
        while i < n
            invariant
                i <= n == bs.len(),
                bs == strmap::sorted_keys(c.tapes@),
                forall|b: Seq<char>| #[trigger]
                    tapes@.contains_key(b) <==> bs.take(i as int).contains(b),
                forall|b: Seq<char>| #[trigger]
                    tapes@.contains_key(b) ==> tapes@[b] == tape_row(c@, b),
            decreases n - i,
        {
            let b = c.tapes.key_at(i).clone();
            let row = row_of_tape(c, b.as_str());
            let ghost was = tapes@;
            tapes.insert(b, row);
            proof {
                let now = bs.take(i + 1);
                let before = bs.take(i as int);
                assert(now =~= before.push(bs[i as int]));
                assert(now[i as int] == b@);
                assert forall|x: Seq<char>| #[trigger]
                    tapes@.contains_key(x) <==> now.contains(x) by {
                    assert(was.contains_key(x) <==> before.contains(x));
                    if before.contains(x) {
                        let j = choose|j: int| 0 <= j < before.len() && before[j] == x;
                        assert(now[j] == x);
                    }
                }
            }
            i += 1;
        }
        proof {
            assert(bs.take(i as int) =~= bs);
            assert forall|b: Seq<char>| #[trigger]
                tapes@.contains_key(b) <==> c@.tapes.contains_key(b) by {
                assert(bs.contains(b) <==> c.tapes@.dom().contains(b));
            }
            assert(tapes@ =~= tape_rows(c@));
        }
        NodeStatus {
            id,
            role: role.to_owned(),
            term,
            leader,
            executor: c.executor,
            local: local.to_owned(),
            applied_index: c.applied_index,
            pools,
            tapes,
        }
    }
}

/// A list of names.
pub open spec fn names_doc(v: Seq<Seq<char>>) -> JsonView {
    JsonView::Arr(v.map_values(|s: Seq<char>| JsonView::Str(s)))
}

/// Writes a list of names down.
pub fn names_json(v: &Vec<String>) -> (r: Json)
    ensures
        r@ == names_doc(text::string_views(v@)),
{
    let mut out = Items::new();
    let mut i: usize = 0;
    while i < v.len()
        invariant
            i <= v@.len(),
            out@ == text::string_views(v@.take(i as int)).map_values(
                |s: Seq<char>| JsonView::Str(s),
            ),
        decreases v@.len() - i,
    {
        let ghost was = out@;
        out.push(Json::str_of(v[i].as_str()));
        assert(text::string_views(v@.take(i + 1)) =~= text::string_views(
            v@.take(i as int),
        ).push(v@[i as int]@));
        assert(out@ =~= text::string_views(v@.take(i + 1)).map_values(
            |s: Seq<char>| JsonView::Str(s),
        ));
        i += 1;
    }
    assert(v@.take(i as int) =~= v@);
    out.done()
}

pub open spec fn pool_doc(p: PoolRowView) -> JsonView {
    JsonView::Obj(
        map![
            "uuid"@ => JsonView::Str(p.uuid),
            "name"@ => JsonView::Str(p.name),
            "file_limit"@ => JsonView::Num(p.file_limit),
            "tapes"@ => names_doc(p.tapes),
        ],
    )
}

pub open spec fn tape_doc(barcode: Seq<char>, t: TapeRowView) -> JsonView {
    JsonView::Obj(
        map![
            "barcode"@ => JsonView::Str(barcode),
            "state"@ => JsonView::Str(t.state),
            "generation"@ => JsonView::Num(t.generation),
            "files"@ => JsonView::Num(t.files),
            "bytes_used"@ => JsonView::Num(t.bytes_used),
            "bytes_written"@ => JsonView::Num(t.bytes_written),
        ],
    )
}

pub open spec fn executor_doc(e: Option<Executor>) -> JsonView {
    match e {
        Some(e) => JsonView::Obj(
            map![
                "node"@ => JsonView::Num(e.node),
                "round"@ => JsonView::Num(e.round),
                "term"@ => JsonView::Num(e.term),
                "fenced"@ => JsonView::Bool(e.fenced),
            ],
        ),
        None => JsonView::Null,
    }
}

/// The status file of a node.
pub open spec fn status_doc(s: StatusView) -> JsonView {
    JsonView::Obj(
        map![
            "id"@ => JsonView::Num(s.id),
            "role"@ => JsonView::Str(s.role),
            "term"@ => JsonView::Num(s.term),
            "leader"@ => JsonView::Num(s.leader),
            "executor"@ => executor_doc(s.executor),
            "local"@ => JsonView::Str(s.local),
            "applied_index"@ => JsonView::Num(s.applied_index),
            "tapes"@ => JsonView::Arr(
                strmap::sorted_keys(s.tapes).map_values(|b: Seq<char>| tape_doc(b, s.tapes[b])),
            ),
            "pools"@ => JsonView::Arr(s.pools.map_values(|p: PoolRowView| pool_doc(p))),
        ],
    )
}

fn pool_json(p: &PoolRow) -> (r: Json)
    ensures
        r@ == pool_doc(p@),
{
    let r = Fields::new().with("uuid", Json::str_of(p.uuid.as_str())).with(
        "name",
        Json::str_of(p.name.as_str()),
    ).with("file_limit", Json::Num(p.file_limit)).with("tapes", names_json(&p.tapes)).done();
    assert(r@ =~= pool_doc(p@));
    r
}

fn tape_json(barcode: &str, t: &TapeRow) -> (r: Json)
    ensures
        r@ == tape_doc(barcode@, t@),
{
    let r = Fields::new().with("barcode", Json::str_of(barcode)).with(
        "state",
        Json::str_of(t.state.as_str()),
    ).with("generation", Json::Num(t.generation)).with("files", Json::Num(t.files)).with(
        "bytes_used",
        Json::Num(t.bytes_used),
    ).with("bytes_written", Json::Num(t.bytes_written)).done();
    assert(r@ =~= tape_doc(barcode@, t@));
    r
}

fn executor_json(e: Option<Executor>) -> (r: Json)
    ensures
        r@ == executor_doc(e),
{
    match e {
        Some(x) => Fields::new().with("node", Json::Num(x.node)).with(
            "round",
            Json::Num(x.round),
        ).with("term", Json::Num(x.term)).with("fenced", Json::Bool(x.fenced)).done(),
        None => Json::Null,
    }
}

impl NodeStatus {
    fn tapes_json(&self) -> (r: Json)
        ensures
            r@ == JsonView::Arr(
                strmap::sorted_keys(self@.tapes).map_values(
                    |b: Seq<char>| tape_doc(b, self@.tapes[b]),
                ),
            ),
    {
        let mut out = Items::new();
        let n = self.tapes.len();
        let ghost bs = strmap::sorted_keys(self.tapes@);
        let ghost f = |b: Seq<char>| tape_doc(b, self@.tapes[b]);
        let mut i: usize = 0;
        while i < n
            invariant
                i <= n == bs.len(),
                bs == strmap::sorted_keys(self.tapes@),
                f == (|b: Seq<char>| tape_doc(b, self@.tapes[b])),
                out@ == bs.take(i as int).map_values(f),
            decreases n - i,
        {
            out.push(tape_json(self.tapes.key_at(i).as_str(), self.tapes.value_at(i)));
            assert(out@ =~= bs.take(i + 1).map_values(f));
            i += 1;
        }
        assert(bs.take(i as int) =~= bs);
        out.done()
    }

    fn pools_json(&self) -> (r: Json)
        ensures
            r@ == JsonView::Arr(self@.pools.map_values(|p: PoolRowView| pool_doc(p))),
    {
        let mut out = Items::new();
        let ghost f = |p: PoolRowView| pool_doc(p);
        let mut i: usize = 0;
        while i < self.pools.len()
            invariant
                i <= self.pools@.len(),
                f == (|p: PoolRowView| pool_doc(p)),
                out@ == self@.pools.take(i as int).map_values(f),
            decreases self.pools@.len() - i,
        {
            out.push(pool_json(&self.pools[i]));
            assert(out@ =~= self@.pools.take(i + 1).map_values(f));
            i += 1;
        }
        assert(self@.pools.take(i as int) =~= self@.pools);
        out.done()
    }

    /// The status file of the node.
    pub fn json(&self) -> (r: Json)
        ensures
            r@ == status_doc(self@),
    {
        let r = Fields::new().with("id", Json::Num(self.id)).with(
            "role",
            Json::str_of(self.role.as_str()),
        ).with("term", Json::Num(self.term)).with("leader", Json::Num(self.leader)).with(
            "executor",
            executor_json(self.executor),
        ).with("local", Json::str_of(self.local.as_str())).with(
            "applied_index",
            Json::Num(self.applied_index),
        ).with("tapes", self.tapes_json()).with("pools", self.pools_json()).done();
        assert(r@ =~= status_doc(self@));
        r
    }
}

/// What a status shows of a pool is what the control state holds: a tape is listed with a pool if
/// and only if it is assigned to it.
pub proof fn law_status_lists_every_tape(c: ControlView, uuid: Seq<char>, barcode: Seq<char>)
    requires
        strmap::listing(strmap::sorted_keys(c.tapes), c.tapes.dom()),
    ensures
        pool_row(c, uuid).tapes.contains(barcode) <==> c.tapes.contains_key(barcode)
            && c.tapes[barcode] == uuid,
{
    let ks = strmap::sorted_keys(c.tapes);
    lemma_members(ks, c.tapes, uuid, barcode);
    assert(ks.contains(barcode) <==> c.tapes.dom().contains(barcode));
}

proof fn lemma_members(
    ks: Seq<Seq<char>>,
    tapes: Map<Seq<char>, Seq<char>>,
    uuid: Seq<char>,
    b: Seq<char>,
)
    ensures
        members(ks, tapes, uuid).contains(b) <==> ks.contains(b) && tapes[b] == uuid,
    decreases ks.len(),
{
    if ks.len() > 0 {
        let init = ks.drop_last();
        let head = members(init, tapes, uuid);
        lemma_members(init, tapes, uuid, b);
        assert(ks.contains(b) <==> init.contains(b) || b == ks.last()) by {
            if ks.contains(b) {
                let j = choose|j: int| 0 <= j < ks.len() && ks[j] == b;
                if j < init.len() {
                    assert(init[j] == b);
                }
            }
            if init.contains(b) {
                let j = choose|j: int| 0 <= j < init.len() && init[j] == b;
                assert(ks[j] == b);
            }
            assert(ks[ks.len() - 1] == ks.last());
        }
        if tapes[ks.last()] == uuid {
            let all = head.push(ks.last());
            assert(all.contains(b) <==> head.contains(b) || b == ks.last()) by {
                if head.contains(b) {
                    let j = choose|j: int| 0 <= j < head.len() && head[j] == b;
                    assert(all[j] == b);
                }
                if all.contains(b) {
                    let j = choose|j: int| 0 <= j < all.len() && all[j] == b;
                    if j < head.len() {
                        assert(head[j] == b);
                    }
                }
                assert(all[head.len() as int] == ks.last());
            }
        }
    }
}

} // verus!
