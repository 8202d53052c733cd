//! The directory of a node: pools, tapes and the file records of every tape, as the committed
//! commands make them.
//!
//! It is determined by the log alone, so it is the same on every node. It keeps the index of the
//! last command that it holds, and a command that is applied again changes nothing.
use std::sync::Arc;
use vstd::prelude::*;

use crate::daemon::nodes;
use crate::daemon::state;
use crate::daemon::state::{
    Applied, AppliedView, Command, CommandView, ControlState, ControlView, FileRec, FileRecView,
    Pool, PoolView, SummaryView, TapeSummary,
};
use crate::json::{Json, JsonView};
use crate::strmap;
use crate::strmap::{Dup, StrMap};
use crate::text;

verus! {

/// What the directory knows of a path: on which tape its newest record is, in which generation of
/// the index, and whether that record says that the path was deleted.
#[derive(Debug, PartialEq, Eq)]
pub struct FileRow {
    pub barcode: String,
    pub generation: u64,
    pub length: u64,
    pub sha256: String,
    pub version: (u64, u64),
    pub deleted: bool,
    pub metadata: Arc<Json>,
}

#[verifier::ext_equal]
pub struct RowView {
    pub barcode: Seq<char>,
    pub generation: u64,
    pub length: u64,
    pub sha256: Seq<char>,
    pub version: (u64, u64),
    pub deleted: bool,
    pub metadata: JsonView,
}

impl View for FileRow {
    type V = RowView;

    open spec fn view(&self) -> RowView {
        RowView {
            barcode: self.barcode@,
            generation: self.generation,
            length: self.length,
            sha256: self.sha256@,
            version: self.version,
            deleted: self.deleted,
            metadata: self.metadata@,
        }
    }
}

impl Dup for FileRow {
    fn dup(&self) -> (r: Self) {
        FileRow {
            barcode: self.barcode.clone(),
            generation: self.generation,
            length: self.length,
            sha256: self.sha256.clone(),
            version: self.version,
            deleted: self.deleted,
            metadata: self.metadata.clone(),
        }
    }
}

/// A tape: its pool and its last commit.
#[derive(Debug, PartialEq, Eq)]
pub struct TapeEntry {
    pub pool_uuid: String,
    pub summary: TapeSummary,
}

#[verifier::ext_equal]
pub struct TapeEntryView {
    pub pool_uuid: Seq<char>,
    pub summary: SummaryView,
}

impl View for TapeEntry {
    type V = TapeEntryView;

    open spec fn view(&self) -> TapeEntryView {
        TapeEntryView { pool_uuid: self.pool_uuid@, summary: self.summary@ }
    }
}

/// A record of a commit that has not arrived in full. An empty part leaves one without a file, so
/// that the parts can be counted.
#[derive(Debug, PartialEq, Eq)]
pub struct Staged {
    pub barcode: String,
    pub generation: u64,
    pub part: u32,
    pub file: Option<FileRec>,
}

#[verifier::ext_equal]
pub struct StagedView {
    pub barcode: Seq<char>,
    pub generation: u64,
    pub part: u32,
    pub file: Option<FileRecView>,
}

impl View for Staged {
    type V = StagedView;

    open spec fn view(&self) -> StagedView {
        StagedView {
            barcode: self.barcode@,
            generation: self.generation,
            part: self.part,
            file: match self.file {
                Some(f) => Some(f@),
                None => None,
            },
        }
    }
}

pub open spec fn staged_views(v: Seq<Staged>) -> Seq<StagedView> {
    v.map_values(|s: Staged| s@)
}

/// A pool and a path in it.
pub type Key = (Seq<char>, Seq<char>);

pub type Rows = Map<Key, RowView>;

/// The rows of all pools by pool and path.
pub open spec fn flat(m: Map<Seq<char>, Map<Seq<char>, RowView>>) -> Rows {
    Map::new(
        |k: Key| m.contains_key(k.0) && m[k.0].contains_key(k.1),
        |k: Key| m[k.0][k.1],
    )
}

#[derive(Debug)]
pub struct Directory {
    applied: u64,
    pools: StrMap<Pool>,
    tapes: StrMap<TapeEntry>,
    files: StrMap<StrMap<FileRow>>,
    staging: Vec<Staged>,
}

#[verifier::ext_equal]
pub struct DirectoryView {
    /// The index of the last command that is in.
    pub applied: u64,
    pub pools: Map<Seq<char>, PoolView>,
    pub tapes: Map<Seq<char>, TapeEntryView>,
    pub files: Rows,
    pub staging: Seq<StagedView>,
}

impl View for Directory {
    type V = DirectoryView;

    closed spec fn view(&self) -> DirectoryView {
        DirectoryView {
            applied: self.applied,
            pools: self.pools@,
            tapes: self.tapes@,
            files: flat(self.files@),
            staging: staged_views(self.staging@),
        }
    }
}

/// `rows` without those on `barcode`.
pub open spec fn rows_off(rows: Rows, barcode: Seq<char>) -> Rows {
    Map::new(|k: Key| rows.contains_key(k) && rows[k].barcode != barcode, |k: Key| rows[k])
}

/// The row for a record of `barcode`.
pub open spec fn row_of(barcode: Seq<char>, generation: u64, f: FileRecView) -> RowView {
    RowView {
        barcode,
        generation,
        length: f.length,
        sha256: f.sha256,
        version: f.version,
        deleted: f.deleted,
        metadata: f.metadata,
    }
}

/// A tape's record takes the place of the row that is there: it is the tape's own, or it is newer.
pub open spec fn takes_over(new_row: RowView, old_row: RowView) -> bool {
    new_row.barcode == old_row.barcode || !nodes::version_ge(old_row.version, new_row.version)
}

/// `rows` with a row put in where it takes over.
pub open spec fn upserted(rows: Rows, k: Key, row: RowView) -> Rows {
    if rows.contains_key(k) && !takes_over(row, rows[k]) {
        rows
    } else {
        rows.insert(k, row)
    }
}

/// `rows` with the staged records of one commit put in.
pub open spec fn merged(
    rows: Rows,
    staging: Seq<StagedView>,
    barcode: Seq<char>,
    generation: u64,
    pool: Seq<char>,
) -> Rows
    decreases staging.len(),
{
    if staging.len() == 0 {
        rows
    } else {
        let m = merged(rows, staging.drop_last(), barcode, generation, pool);
        let s = staging.last();
        if s.barcode == barcode && s.generation == generation && s.file is Some {
            upserted(m, (pool, s.file->0.path), row_of(barcode, generation, s.file->0))
        } else {
            m
        }
    }
}

/// The parts of a commit that have arrived.
pub open spec fn parts_of(staging: Seq<StagedView>, barcode: Seq<char>, generation: u64) -> Set<
    u32,
>
    decreases staging.len(),
{
    if staging.len() == 0 {
        Set::empty()
    } else {
        let rest = parts_of(staging.drop_last(), barcode, generation);
        let s = staging.last();
        if s.barcode == barcode && s.generation == generation {
            rest.insert(s.part)
        } else {
            rest
        }
    }
}

/// `staging` without what `barcode` has staged up to `generation`.
pub open spec fn unstaged(staging: Seq<StagedView>, barcode: Seq<char>, generation: u64) -> Seq<
    StagedView,
>
    decreases staging.len(),
{
    if staging.len() == 0 {
        Seq::empty()
    } else {
        let rest = unstaged(staging.drop_last(), barcode, generation);
        let s = staging.last();
        if s.barcode == barcode && s.generation <= generation {
            rest
        } else {
            rest.push(s)
        }
    }
}

/// The records of one part, staged.
pub open spec fn staged_part(
    barcode: Seq<char>,
    generation: u64,
    part: u32,
    files: Seq<FileRecView>,
) -> Seq<StagedView> {
    if files.len() == 0 {
        seq![StagedView { barcode, generation, part, file: None }]
    } else {
        files.map_values(
            |f: FileRecView| StagedView { barcode, generation, part, file: Some(f) },
        )
    }
}

/// A tape without any commit.
pub open spec fn no_commit() -> SummaryView {
    SummaryView {
        volume_uuid: Seq::empty(),
        generation: 0,
        files: 0,
        bytes_used: 0,
        bytes_written: 0,
    }
}

impl DirectoryView {
    /// The generation of a tape's last commit that came in whole, 0 where there is none.
    pub open spec fn listed(self, barcode: Seq<char>) -> u64 {
        if self.tapes.contains_key(barcode) {
            self.tapes[barcode].summary.generation
        } else {
            0
        }
    }

    /// The pool that `pool` names: an identifier, or else a name.
    pub open spec fn resolved(self, pool: Seq<char>) -> Option<Seq<char>> {
        if self.pools.contains_key(pool) {
            Some(pool)
        } else {
            named(strmap::sorted_keys(self.pools), self.pools, pool)
        }
    }

    /// With the commit of a tape. Its records come in together, if all parts are there; with
    /// `full` they are all that the tape holds. Otherwise they are dropped.
    pub open spec fn committed(
        self,
        barcode: Seq<char>,
        summary: SummaryView,
        parts: u32,
        full: bool,
    ) -> DirectoryView {
        let g = summary.generation;
        let whole = parts_of(self.staging, barcode, g).len() == parts;
        let base = if full {
            rows_off(self.files, barcode)
        } else {
            self.files
        };
        DirectoryView {
            files: if !whole {
                self.files
            } else if self.tapes.contains_key(barcode) {
                merged(base, self.staging, barcode, g, self.tapes[barcode].pool_uuid)
            } else {
                base
            },
            tapes: if whole && self.tapes.contains_key(barcode) {
                self.tapes.insert(barcode, TapeEntryView { summary, ..self.tapes[barcode] })
            } else {
                self.tapes
            },
            staging: unstaged(self.staging, barcode, g),
            ..self
        }
    }

    /// With a tape formatted anew.
    pub open spec fn reclaimed(self, barcode: Seq<char>, volume_uuid: Seq<char>) -> DirectoryView {
        DirectoryView {
            files: rows_off(self.files, barcode),
            staging: unstaged(self.staging, barcode, u64::MAX),
            tapes: if self.tapes.contains_key(barcode) {
                self.tapes.insert(
                    barcode,
                    TapeEntryView {
                        summary: SummaryView {
                            volume_uuid,
                            generation: 1,
                            files: 0,
                            bytes_used: 0,
                            bytes_written: 0,
                        },
                        ..self.tapes[barcode]
                    },
                )
            } else {
                self.tapes
            },
            ..self
        }
    }

    /// What a command does that the control state has concluded upon with `out`. None where it
    /// puts a tape into a pool that is not here.
    pub open spec fn step(self, cmd: CommandView, out: AppliedView) -> Option<DirectoryView> {
        let accepted = out matches AppliedView::Admin(Ok(_));
        match cmd {
            CommandView::PoolCreate { uuid, name, file_limit } => if accepted {
                let others = Map::new(
                    |u: Seq<char>| self.pools.contains_key(u) && self.pools[u].name != name,
                    |u: Seq<char>| self.pools[u],
                );
                Some(
                    DirectoryView {
                        pools: others.insert(uuid, PoolView { name, file_limit }),
                        ..self
                    },
                )
            } else {
                Some(self)
            },
            CommandView::TapeAssign { barcode, pool } => if accepted {
                match self.resolved(pool) {
                    Some(uuid) => Some(
                        DirectoryView {
                            tapes: self.tapes.insert(
                                barcode,
                                TapeEntryView { pool_uuid: uuid, summary: no_commit() },
                            ),
                            ..self
                        },
                    ),
                    None => None,
                }
            } else {
                Some(self)
            },
            CommandView::TapeUnassign { barcode } => if accepted {
                Some(DirectoryView { tapes: self.tapes.remove(barcode), ..self })
            } else {
                Some(self)
            },
            CommandView::CatalogPart { barcode, generation, part, files } => Some(
                DirectoryView {
                    staging: self.staging + staged_part(barcode, generation, part, files),
                    ..self
                },
            ),
            CommandView::TapeCommitted {
                barcode,
                volume_uuid,
                generation,
                files,
                bytes_used,
                bytes_written,
                parts,
                full,
            } => if out is CatalogCommitted {
                Some(
                    self.committed(
                        barcode,
                        SummaryView {
                            volume_uuid,
                            generation,
                            files,
                            bytes_used,
                            bytes_written,
                        },
                        parts,
                        full,
                    ),
                )
            } else {
                Some(self)
            },
            CommandView::TapeReclaimed { barcode, volume_uuid } => if out is Reclaimed {
                Some(self.reclaimed(barcode, volume_uuid))
            } else {
                Some(self)
            },
            _ => Some(self),
        }
    }

    /// With the command at `index`, which changes nothing where it is in already.
    pub open spec fn applied(self, index: u64, cmd: CommandView, out: AppliedView) -> Option<
        DirectoryView,
    > {
        if index <= self.applied {
            Some(self)
        } else {
            match self.step(cmd, out) {
                Some(d) => Some(DirectoryView { applied: index, ..d }),
                None => None,
            }
        }
    }
}

/// The first of `keys` whose pool has this name.
pub open spec fn named(
    keys: Seq<Seq<char>>,
    pools: Map<Seq<char>, PoolView>,
    name: Seq<char>,
) -> Option<Seq<char>>
    decreases keys.len(),
{
    if keys.len() == 0 {
        None
    } else if pools[keys[0]].name == name {
        Some(keys[0])
    } else {
        named(keys.drop_first(), pools, name)
    }
}

/// The rows of one pool that are not on `barcode`.
fn pool_rows_off(m: &StrMap<FileRow>, barcode: &str) -> (r: StrMap<FileRow>)
    ensures
        r@ == Map::new(
            |p: Seq<char>| m@.contains_key(p) && m@[p].barcode != barcode@,
            |p: Seq<char>| m@[p],
        ),
{
    let ghost want = Map::new(
        |p: Seq<char>| m@.contains_key(p) && m@[p].barcode != barcode@,
        |p: Seq<char>| m@[p],
    );
    let mut out: StrMap<FileRow> = StrMap::new();
    let n = m.len();
    let ghost ks = strmap::sorted_keys(m@);
    let mut i: usize = 0;
    while i < n
        invariant
            i <= n == ks.len(),
            ks == strmap::sorted_keys(m@),
            forall|j: int| 0 <= j < n ==> m@.contains_key(#[trigger] ks[j]),
            want == Map::new(
                |p: Seq<char>| m@.contains_key(p) && m@[p].barcode != barcode@,
                |p: Seq<char>| m@[p],
            ),
            forall|p: Seq<char>| #[trigger]
                out@.contains_key(p) <==> want.contains_key(p) && exists|j: int|
                    0 <= j < i && ks[j] == p,
            forall|p: Seq<char>| #[trigger] out@.contains_key(p) ==> out@[p] == want[p],
        decreases n - i,
    {
        let row = m.value_at(i);
        if !text::same(row.barcode.as_str(), barcode) {
            out.insert(m.key_at(i).clone(), row.dup());
        }
        i += 1;
    }
    assert(out@ =~= want) by {
        assert forall|p: Seq<char>| want.contains_key(p) implies out@.contains_key(p) by {
            assert(ks.contains(p));
        }
    }
    out
}

impl Directory {
    /// An empty directory.
    pub fn new() -> (r: Self)
        ensures
            r@ == (DirectoryView {
                applied: 0,
                pools: Map::empty(),
                tapes: Map::empty(),
                files: Map::empty(),
                staging: Seq::empty(),
            }),
    {
        let r = Directory {
            applied: 0,
            pools: StrMap::new(),
            tapes: StrMap::new(),
            files: StrMap::new(),
            staging: Vec::new(),
        };
        assert(r@.files =~= Map::<Key, RowView>::empty());
        assert(r@.staging =~= Seq::<StagedView>::empty());
        r
    }

    /// The index of the last command that is in.
    pub fn applied_index(&self) -> (r: u64)
        ensures
            r == self@.applied,
    {
        self.applied
    }

    /// Takes a directory that came from another node as holding at least the commands up to
    /// `at_least`.
    pub fn install(&mut self, at_least: u64)
        ensures
            final(self)@ == (DirectoryView {
                applied: if old(self)@.applied < at_least {
                    at_least
                } else {
                    old(self)@.applied
                },
                ..old(self)@
            }),
    {
        if self.applied < at_least {
            self.applied = at_least;
        }
    }

    fn resolve(&self, pool: &str) -> (r: Option<String>)
        ensures
            nodes::text_view(r) == self@.resolved(pool@),
    {
        if self.pools.contains_key(pool) {
            return Some(pool.to_owned());
        }
        let n = self.pools.len();
        let ghost ks = strmap::sorted_keys(self.pools@);
        let mut i: usize = 0;
        assert(ks.skip(0) =~= ks);
        while i < n
            invariant
                i <= n == ks.len(),
                ks == strmap::sorted_keys(self.pools@),
                forall|j: int| 0 <= j < n ==> self.pools@.contains_key(#[trigger] ks[j]),
                self@.resolved(pool@) == named(ks.skip(i as int), self.pools@, pool@),
            decreases n - i,
        {
            assert(ks.skip(i as int).drop_first() =~= ks.skip(i + 1));
            assert(ks.skip(i as int)[0] == ks[i as int]);
            if text::same(self.pools.value_at(i).name.as_str(), pool) {
                return Some(self.pools.key_at(i).clone());
            }
            i += 1;
        }
        None
    }

    fn create_pool(&mut self, uuid: &str, name: &str, file_limit: u64)
        ensures
            final(self)@ == (DirectoryView {
                pools: Map::new(
                    |u: Seq<char>|
                        old(self)@.pools.contains_key(u) && old(self)@.pools[u].name != name@,
                    |u: Seq<char>| old(self)@.pools[u],
                ).insert(uuid@, PoolView { name: name@, file_limit }),
                ..old(self)@
            }),
    {
        let ghost want = Map::new(
            |u: Seq<char>| self.pools@.contains_key(u) && self.pools@[u].name != name@,
            |u: Seq<char>| self.pools@[u],
        );
        let mut out: StrMap<Pool> = StrMap::new();
        let n = self.pools.len();
        let ghost ks = strmap::sorted_keys(self.pools@);
        let mut i: usize = 0;
        while i < n
            invariant
                i <= n == ks.len(),
                ks == strmap::sorted_keys(self.pools@),
                forall|j: int| 0 <= j < n ==> self.pools@.contains_key(#[trigger] ks[j]),
                want == Map::new(
                    |u: Seq<char>| self.pools@.contains_key(u) && self.pools@[u].name != name@,
                    |u: Seq<char>| self.pools@[u],
                ),
                forall|u: Seq<char>| #[trigger]
                    out@.contains_key(u) <==> want.contains_key(u) && exists|j: int|
                        0 <= j < i && ks[j] == u,
                forall|u: Seq<char>| #[trigger] out@.contains_key(u) ==> out@[u] == want[u],
            decreases n - i,
        {
            let p = self.pools.value_at(i);
            if !text::same(p.name.as_str(), name) {
                out.insert(self.pools.key_at(i).clone(), p.dup());
            }
            i += 1;
        }
        assert(out@ =~= want) by {
            assert forall|u: Seq<char>| want.contains_key(u) implies out@.contains_key(u) by {
                assert(ks.contains(u));
            }
        }
        out.insert(uuid.to_owned(), Pool { name: name.to_owned(), file_limit });
        self.pools = out;
    }

    fn stage(&mut self, barcode: &str, generation: u64, part: u32, files: &Vec<FileRec>)
        ensures
            final(self)@ == (DirectoryView {
                staging: old(self)@.staging + staged_part(
                    barcode@,
                    generation,
                    part,
                    state::recs(files@),
                ),
                ..old(self)@
            }),
    {
        let ghost before = self@;
        let ghost more = staged_part(barcode@, generation, part, state::recs(files@));
        if files.len() == 0 {
            let ghost was = self.staging@;
            let s = Staged { barcode: barcode.to_owned(), generation, part, file: None };
            self.staging.push(s);
            assert(staged_views(self.staging@) =~= staged_views(was).push(s@));
            assert(self@.staging =~= before.staging + more);
            return;
        }
        let mut i: usize = 0;
        assert(before.staging + more.take(0) =~= before.staging);
        while i < files.len()
            invariant
                i <= files@.len(),
                files@.len() > 0,
                more == staged_part(barcode@, generation, part, state::recs(files@)),
                self@ == (DirectoryView {
                    staging: before.staging + more.take(i as int),
                    ..before
                }),
            decreases files@.len() - i,
        {
            let ghost was = self.staging@;
            let s = Staged {
                barcode: barcode.to_owned(),
                generation,
                part,
                file: Some(files[i].dup()),
            };
            self.staging.push(s);
            assert(more[i as int] == s@);
            assert(staged_views(self.staging@) =~= staged_views(was).push(s@));
            assert(before.staging + more.take(i + 1) =~= (before.staging + more.take(
                i as int,
            )).push(s@));
            i += 1;
        }
        assert(more.take(i as int) =~= more);
    }

    fn drop_staged(&mut self, barcode: &str, generation: u64)
        ensures
            final(self)@ == (DirectoryView {
                staging: unstaged(old(self)@.staging, barcode@, generation),
                ..old(self)@
            }),
    {
        let ghost before = self@;
        let mut kept: Vec<Staged> = Vec::new();
        let mut old_rows: Vec<Staged> = Vec::new();
        std::mem::swap(&mut old_rows, &mut self.staging);
        let ghost all = staged_views(old_rows@);
        let mut i: usize = 0;
        assert(all.take(0) =~= Seq::<StagedView>::empty());
        assert(staged_views(kept@) =~= Seq::<StagedView>::empty());
        while i < old_rows.len()
            invariant
                i <= old_rows@.len(),
                all == staged_views(old_rows@),
                staged_views(kept@) == unstaged(all.take(i as int), barcode@, generation),
            decreases old_rows@.len() - i,
        {
            proof {
                assert(all.take(i + 1).drop_last() =~= all.take(i as int));
                assert(all.take(i + 1).last() == old_rows@[i as int]@);
            }
            let s = &old_rows[i];
            if !(text::same(s.barcode.as_str(), barcode) && s.generation <= generation) {
                let ghost was = kept@;
                let copy = Staged {
                    barcode: s.barcode.clone(),
                    generation: s.generation,
                    part: s.part,
                    file: match &s.file {
                        Some(f) => Some(f.dup()),
                        None => None,
                    },
                };
                kept.push(copy);
                assert(staged_views(kept@) =~= staged_views(was).push(s@));
            }
            i += 1;
        }
        assert(all.take(i as int) =~= all);
        self.staging = kept;
    }

    fn drop_rows(&mut self, barcode: &str)
        ensures
            final(self)@ == (DirectoryView {
                files: rows_off(old(self)@.files, barcode@),
                ..old(self)@
            }),
    {
        let ghost before = self@;
        let ghost m = self.files@;
        let mut out: StrMap<StrMap<FileRow>> = StrMap::new();
        let n = self.files.len();
        let ghost ks = strmap::sorted_keys(m);
        let mut i: usize = 0;
        while i < n
            invariant
                i <= n == ks.len(),
                m == self.files@,
                ks == strmap::sorted_keys(m),
                forall|j: int| 0 <= j < n ==> m.contains_key(#[trigger] ks[j]),
                forall|u: Seq<char>| #[trigger]
                    out@.contains_key(u) <==> exists|j: int| 0 <= j < i && ks[j] == u,
                forall|u: Seq<char>| #[trigger]
                    out@.contains_key(u) ==> m.contains_key(u) && out@[u] == Map::new(
                        |p: Seq<char>| m[u].contains_key(p) && m[u][p].barcode != barcode@,
                        |p: Seq<char>| m[u][p],
                    ),
            decreases n - i,
        {
            out.insert(
                self.files.key_at(i).clone(),
                pool_rows_off(self.files.value_at(i), barcode),
            );
            i += 1;
        }
        assert(flat(out@) =~= rows_off(flat(m), barcode@)) by {
            assert forall|k: Key| flat(m).contains_key(k) implies out@.contains_key(k.0) by {
                assert(ks.contains(k.0));
            }
        }
        self.files = out;
    }

    fn upsert(&mut self, pool: &str, path: &str, row: FileRow)
        ensures
            final(self)@ == (DirectoryView {
                files: upserted(old(self)@.files, (pool@, path@), row@),
                ..old(self)@
            }),
    {
        let ghost m = self.files@;
        let mut rows = match self.files.get(pool) {
            Some(r) => r.dup(),
            None => StrMap::new(),
        };
        let ghost was = rows@;
        let keep = match rows.get(path) {
            Some(o) => !text::same(row.barcode.as_str(), o.barcode.as_str())
                && nodes::is_version_ge(o.version, row.version),
            None => false,
        };
        if keep {
            return;
        }
        rows.insert(path.to_owned(), row);
        self.files.insert(pool.to_owned(), rows);
        assert(flat(self.files@) =~= flat(m).insert((pool@, path@), row@));
    }

    fn has_parts(&self, barcode: &str, generation: u64) -> (r: usize)
        ensures
            r == parts_of(self@.staging, barcode@, generation).len(),
    {
        let ghost all = self@.staging;
        let mut parts: Vec<u32> = Vec::new();
        let mut i: usize = 0;
        assert(all.take(0) =~= Seq::<StagedView>::empty());
        assert(parts@.to_set() =~= Set::<u32>::empty());
        while i < self.staging.len()
            invariant
                i <= self.staging@.len(),
                all == staged_views(self.staging@),
                parts@.no_duplicates(),
                parts@.to_set() == parts_of(all.take(i as int), barcode@, generation),
            decreases self.staging@.len() - i,
        {
            proof {
                assert(all.take(i + 1).drop_last() =~= all.take(i as int));
                assert(all.take(i + 1).last() == self.staging@[i as int]@);
            }
            let s = &self.staging[i];
            if text::same(s.barcode.as_str(), barcode) && s.generation == generation {
                let part: u32 = s.part;
                let mut known = false;
                let mut j: usize = 0;
                while j < parts.len()
                    invariant
                        j <= parts@.len(),
                        known == exists|k: int| 0 <= k < j && parts@[k] == part,
                    decreases parts@.len() - j,
                {
                    if parts[j] == part {
                        known = true;
                    }
                    j += 1;
                }
                if known {
                    assert(parts@.contains(part));
                    assert(parts@.to_set().insert(part) =~= parts@.to_set());
                } else {
                    let ghost was = parts@;
                    assert(!was.contains(part));
                    parts.push(part);
                    assert(parts@.to_set() =~= was.to_set().insert(part)) by {
                        assert forall|x: u32| parts@.contains(x) == (was.contains(x) || x
                            == part) by {
                            if was.contains(x) {
                                let k = choose|k: int| 0 <= k < was.len() && was[k] == x;
                                assert(parts@[k] == x);
                            }
                            if x == part {
                                assert(parts@[was.len() as int] == x);
                            }
                        }
                    }
                }
            }
            i += 1;
        }
        assert(all.take(i as int) =~= all);
        proof {
            parts@.unique_seq_to_set();
        }
        parts.len()
    }

    fn merge(&mut self, barcode: &str, generation: u64, pool: &str)
        ensures
            final(self)@ == (DirectoryView {
                files: merged(
                    old(self)@.files,
                    old(self)@.staging,
                    barcode@,
                    generation,
                    pool@,
                ),
                ..old(self)@
            }),
    {
        let ghost before = self@;
        let ghost all = self@.staging;
        let mut i: usize = 0;
        assert(all.take(0) =~= Seq::<StagedView>::empty());
        while i < self.staging.len()
            invariant
                i <= self.staging@.len(),
                all == before.staging,
                self@ == (DirectoryView {
                    files: merged(before.files, all.take(i as int), barcode@, generation, pool@),
                    ..before
                }),
            decreases self.staging@.len() - i,
        {
            proof {
                assert(all == staged_views(self.staging@));
                assert(all.take(i + 1).drop_last() =~= all.take(i as int));
                assert(all.take(i + 1).last() == self.staging@[i as int]@);
            }
            let s = &self.staging[i];
            if text::same(s.barcode.as_str(), barcode) && s.generation == generation {
                match &s.file {
                    Some(f) => {
                        let row = FileRow {
                            barcode: barcode.to_owned(),
                            generation,
                            length: f.length,
                            sha256: f.sha256.clone(),
                            version: f.version,
                            deleted: f.deleted,
                            metadata: f.metadata.clone(),
                        };
                        let path = f.path.clone();
                        assert(row@ =~= row_of(barcode@, generation, f@));
                        self.upsert(pool, path.as_str(), row);
                    },
                    None => {},
                }
            }
            i += 1;
        }
        assert(all.take(i as int) =~= all);
    }

    fn set_summary(&mut self, barcode: &str, summary: TapeSummary)
        ensures
            final(self)@ == (DirectoryView {
                tapes: if old(self)@.tapes.contains_key(barcode@) {
                    old(self)@.tapes.insert(
                        barcode@,
                        TapeEntryView { summary: summary@, ..old(self)@.tapes[barcode@] },
                    )
                } else {
                    old(self)@.tapes
                },
                ..old(self)@
            }),
    {
        let pool_uuid = match self.tapes.get(barcode) {
            Some(t) => t.pool_uuid.clone(),
            None => {
                return;
            },
        };
        self.tapes.insert(barcode.to_owned(), TapeEntry { pool_uuid, summary });
    }

    fn commit(&mut self, barcode: &str, summary: TapeSummary, parts: u32, full: bool)
        ensures
            final(self)@ == old(self)@.committed(barcode@, summary@, parts, full),
    {
        let g: u64 = summary.generation;
        let have: usize = self.has_parts(barcode, g);
        if have == parts as usize {
            if full {
                self.drop_rows(barcode);
            }
            let pool = match self.tapes.get(barcode) {
                Some(t) => Some(t.pool_uuid.clone()),
                None => None,
            };
            match pool {
                Some(p) => {
                    self.merge(barcode, g, p.as_str());
                },
                None => {},
            }
            self.set_summary(barcode, summary);
        }
        self.drop_staged(barcode, g);
    }

    /// Takes a command in that the control state has concluded upon. What it refused changes
    /// nothing, nor does a command that is in already. An error comes where a tape is put into a
    /// pool that is not here.
    pub fn apply(&mut self, index: u64, cmd: &Command, outcome: &Applied) -> (r: Result<(), String>)
        ensures
            match old(self)@.applied(index, cmd@, outcome@) {
                Some(d) => r is Ok && final(self)@ == d,
                None => r is Err && final(self)@ == old(self)@ && (r->Err_0)@
                    == "目录库里没有这个池"@,
            },
    {
        if index <= self.applied {
            return Ok(());
        }
        let accepted = match outcome {
            Applied::Admin(Ok(_)) => true,
            _ => false,
        };
        match cmd {
            Command::PoolCreate { uuid, name, file_limit } => {
                if accepted {
                    self.create_pool(uuid.as_str(), name.as_str(), *file_limit);
                }
            },
            Command::TapeAssign { barcode, pool } => {
                if accepted {
                    match self.resolve(pool.as_str()) {
                        Some(uuid) => {
                            let summary = TapeSummary {
                                volume_uuid: String::new(),
                                generation: 0,
                                files: 0,
                                bytes_used: 0,
                                bytes_written: 0,
                            };
                            assert(summary@ =~= no_commit()) by {
                                assert(summary.volume_uuid@ =~= Seq::<char>::empty());
                            }
                            self.tapes.insert(
                                barcode.clone(),
                                TapeEntry { pool_uuid: uuid, summary },
                            );
                        },
                        None => {
                            return Err("目录库里没有这个池".to_owned());
                        },
                    }
                }
            },
            Command::TapeUnassign { barcode } => {
                if accepted {
                    self.tapes.remove(barcode.as_str());
                }
            },
            Command::CatalogPart { barcode, generation, part, files } => {
                self.stage(barcode.as_str(), *generation, *part, files);
            },
            Command::TapeCommitted {
                barcode,
                volume_uuid,
                generation,
                files,
                bytes_used,
                bytes_written,
                parts,
                full,
            } => {
                match outcome {
                    Applied::CatalogCommitted => {
                        self.commit(
                            barcode.as_str(),
                            TapeSummary {
                                volume_uuid: volume_uuid.clone(),
                                generation: *generation,
                                files: *files,
                                bytes_used: *bytes_used,
                                bytes_written: *bytes_written,
                            },
                            *parts,
                            *full,
                        );
                    },
                    _ => {},
                }
            },
            Command::TapeReclaimed { barcode, volume_uuid } => {
                match outcome {
                    Applied::Reclaimed => {
                        self.drop_rows(barcode.as_str());
                        self.drop_staged(barcode.as_str(), 0xffff_ffff_ffff_ffff);
                        self.set_summary(
                            barcode.as_str(),
                            TapeSummary {
                                volume_uuid: volume_uuid.clone(),
                                generation: 1,
                                files: 0,
                                bytes_used: 0,
                                bytes_written: 0,
                            },
                        );
                    },
                    _ => {},
                }
            },
            _ => {},
        }
        self.applied = index;
        Ok(())
    }
}

/// The rows of one pool by path.
pub open spec fn pool_rows(rows: Rows, pool: Seq<char>) -> Map<Seq<char>, RowView> {
    Map::new(|p: Seq<char>| rows.contains_key((pool, p)), |p: Seq<char>| rows[(pool, p)])
}

/// Those of `rows` that were not deleted; with `files_only` the directories are left out.
pub open spec fn there(rows: Map<Seq<char>, RowView>, files_only: bool) -> Map<
    Seq<char>,
    RowView,
> {
    Map::new(
        |p: Seq<char>|
            rows.contains_key(p) && !rows[p].deleted && !(files_only && nodes::dir_kind(
                rows[p].metadata,
            )),
        |p: Seq<char>| rows[p],
    )
}

/// The rows on `barcode`.
pub open spec fn rows_on(rows: Rows, barcode: Seq<char>) -> Rows {
    Map::new(|k: Key| rows.contains_key(k) && rows[k].barcode == barcode, |k: Key| rows[k])
}

/// The lengths of all rows together.
pub open spec fn total_length(rows: Rows) -> nat
    decreases rows.dom().len(),
{
    if rows.dom().finite() && rows.dom().len() > 0 {
        let k = rows.dom().choose();
        rows[k].length as nat + total_length(rows.remove(k))
    } else {
        0
    }
}

proof fn lemma_total_remove(rows: Rows, k: Key)
    requires
        rows.dom().finite(),
        rows.contains_key(k),
    ensures
        total_length(rows) == rows[k].length + total_length(rows.remove(k)),
    decreases rows.dom().len(),
{
    let c = rows.dom().choose();
    assert(rows.dom().contains(k));
    if c != k {
        lemma_total_remove(rows.remove(c), k);
        lemma_total_remove(rows.remove(k), c);
        assert(rows.remove(c).remove(k) =~= rows.remove(k).remove(c));
    }
}

proof fn lemma_total_insert(rows: Rows, k: Key, row: RowView)
    requires
        rows.dom().finite(),
        !rows.contains_key(k),
    ensures
        total_length(rows.insert(k, row)) == total_length(rows) + row.length,
{
    lemma_total_remove(rows.insert(k, row), k);
    assert(rows.insert(k, row).remove(k) =~= rows);
}

proof fn lemma_total_part(a: Rows, b: Rows)
    requires
        b.dom().finite(),
        a.submap_of(b),
    ensures
        a.dom().finite(),
        total_length(a) <= total_length(b),
    decreases b.dom().len(),
{
    assert(a.dom().subset_of(b.dom()));
    vstd::set_lib::lemma_len_subset(a.dom(), b.dom());
    if a.dom().len() > 0 {
        let k = a.dom().choose();
        assert(b.contains_key(k));
        lemma_total_remove(a, k);
        lemma_total_remove(b, k);
        assert(a.remove(k).submap_of(b.remove(k)));
        lemma_total_part(a.remove(k), b.remove(k));
    }
}

/// The pools that have `path` among `rows`.
pub open spec fn pools_of(rows: Rows, path: Seq<char>) -> Set<Seq<char>> {
    Set::new(|u: Seq<char>| rows.contains_key((u, path)))
}

/// In how many pools each path is.
pub open spec fn path_counts(rows: Rows) -> Map<Seq<char>, u64> {
    Map::new(
        |p: Seq<char>| exists|u: Seq<char>| rows.contains_key((u, p)),
        |p: Seq<char>| pools_of(rows, p).len() as u64,
    )
}

/// Each of `keys` as often as `m` says.
pub open spec fn repeated(keys: Seq<Seq<char>>, m: Map<Seq<char>, u64>) -> Seq<Seq<char>>
    decreases keys.len(),
{
    if keys.len() == 0 {
        Seq::empty()
    } else {
        repeated(keys.drop_last(), m) + Seq::new(m[keys.last()] as nat, |i: int| keys.last())
    }
}

impl Directory {
    /// The generation of a tape's last commit, 0 where there is none.
    pub fn tape_generation(&self, barcode: &str) -> (r: u64)
        ensures
            r == self@.listed(barcode@),
    {
        match self.tapes.get(barcode) {
            Some(t) => t.summary.generation,
            None => 0,
        }
    }

    /// Where a file or directory is, none where it was deleted.
    pub fn stat(&self, pool_uuid: &str, path: &str) -> (r: Option<FileRow>)
        ensures
            r is Some <==> self@.files.contains_key((pool_uuid@, path@)) && !self@.files[(
                pool_uuid@,
                path@,
            )].deleted,
            r is Some ==> r->0@ == self@.files[(pool_uuid@, path@)],
    {
        match self.lookup(pool_uuid, path) {
            Some(row) => if row.deleted {
                None
            } else {
                Some(row)
            },
            None => None,
        }
    }

    /// The newest record of a path, one that says that it was deleted too.
    pub fn lookup(&self, pool_uuid: &str, path: &str) -> (r: Option<FileRow>)
        ensures
            r is Some <==> self@.files.contains_key((pool_uuid@, path@)),
            r is Some ==> r->0@ == self@.files[(pool_uuid@, path@)],
    {
        match self.files.get(pool_uuid) {
            Some(rows) => match rows.get(path) {
                Some(row) => Some(row.dup()),
                None => None,
            },
            None => None,
        }
    }

    /// The paths of a pool that are there, each with its length and whether it is a directory, in
    /// order; with `files_only` the directories are left out.
    fn there(&self, pool_uuid: &str, files_only: bool) -> (r: Vec<(String, u64, bool)>)
        ensures
            ({
                let m = there(pool_rows(self@.files, pool_uuid@), files_only);
                let ks = strmap::sorted_keys(m);
                &&& strmap::listing(ks, m.dom())
                &&& r@.len() == ks.len()
                &&& forall|i: int|
                    0 <= i < r@.len() ==> (#[trigger] r@[i]).0@ == ks[i] && r@[i].1
                        == m[ks[i]].length && r@[i].2 == nodes::dir_kind(m[ks[i]].metadata)
            }),
    {
        let ghost all = pool_rows(self@.files, pool_uuid@);
        let ghost m = there(all, files_only);
        let empty: StrMap<FileRow> = StrMap::new();
        let rows = match self.files.get(pool_uuid) {
            Some(rows) => rows,
            None => &empty,
        };
        assert(rows@ =~= all);
        let n = rows.len();
        let ghost ks = strmap::sorted_keys(all);
        let ghost mut at: Seq<int> = Seq::empty();
        let mut out: Vec<(String, u64, bool)> = Vec::new();
        let mut i: usize = 0;
        while i < n
            invariant
                i <= n == ks.len(),
                all == rows@,
                m == there(all, files_only),
                ks == strmap::sorted_keys(all),
                strmap::listing(ks, all.dom()),
                forall|j: int| 0 <= j < n ==> all.contains_key(#[trigger] ks[j]),
                at.len() == out@.len(),
                forall|j: int| 0 <= j < at.len() ==> 0 <= #[trigger] at[j] < i,
                forall|a: int, b: int|
                    0 <= a < b < at.len() ==> #[trigger] at[a] < #[trigger] at[b],
                forall|j: int|
                    0 <= j < at.len() ==> {
                        &&& (#[trigger] out@[j]).0@ == ks[at[j]]
                        &&& m.contains_key(ks[at[j]])
                        &&& out@[j].1 == m[ks[at[j]]].length
                        &&& out@[j].2 == nodes::dir_kind(m[ks[at[j]]].metadata)
                    },
                forall|j: int|
                    0 <= j < i && m.contains_key(#[trigger] ks[j]) ==> at.contains(j),
            decreases n - i,
        {
            let row = rows.value_at(i);
            let directory = nodes::is_directory(&row.metadata);
            let ghost was = at;
            assert(row@ == all[ks[i as int]]);
            if !row.deleted && !(files_only && directory) {
                out.push((rows.key_at(i).clone(), row.length, directory));
                proof {
                    at = at.push(i as int);
                    let last = was.len() as int;
                    assert(at[last] == i);
                    assert(m.contains_key(ks[i as int]));
                    assert(out@[last].0@ == ks[at[last]]);
                    assert forall|j: int| 0 <= j < at.len() implies {
                        &&& (#[trigger] out@[j]).0@ == ks[at[j]]
                        &&& m.contains_key(ks[at[j]])
                        &&& out@[j].1 == m[ks[at[j]]].length
                        &&& out@[j].2 == nodes::dir_kind(m[ks[at[j]]].metadata)
                    } by {
                        if j < last {
                            assert(at[j] == was[j]);
                            assert(out@[j] == out@.drop_last()[j]);
                        }
                    }
                }
            }
            proof {
                assert forall|j: int| 0 <= j < i + 1 && m.contains_key(#[trigger] ks[j]) implies at.contains(
                    j,
                ) by {
                    if j < i {
                        let a = choose|a: int| 0 <= a < was.len() && was[a] == j;
                        assert(at[a] == j);
                    } else {
                        assert(at[was.len() as int] == j);
                    }
                }
            }
            i += 1;
        }
        proof {
            let got = Seq::new(out@.len(), |j: int| ks[at[j]]);
            assert forall|k: Seq<char>| #[trigger] got.contains(k) <==> m.dom().contains(k) by {
                if m.contains_key(k) {
                    assert(ks.contains(k));
                    let j = choose|j: int| 0 <= j < ks.len() && ks[j] == k;
                    assert(at.contains(j));
                    let a = choose|a: int| 0 <= a < at.len() && at[a] == j;
                    assert(got[a] == k);
                }
                if got.contains(k) {
                    let a = choose|a: int| 0 <= a < got.len() && got[a] == k;
                    assert(out@[a].0@ == ks[at[a]]);
                }
            }
            assert(strmap::listing(got, m.dom()));
            strmap::lemma_sorted_keys(m, got);
        }
        out
    }

    /// The files of a pool and their lengths, in the order of their paths.
    pub fn list(&self, pool_uuid: &str) -> (r: Vec<(String, u64)>)
        ensures
            ({
                let m = there(pool_rows(self@.files, pool_uuid@), true);
                let ks = strmap::sorted_keys(m);
                &&& strmap::listing(ks, m.dom())
                &&& r@.len() == ks.len()
                &&& forall|i: int|
                    0 <= i < r@.len() ==> (#[trigger] r@[i]).0@ == ks[i] && r@[i].1
                        == m[ks[i]].length
            }),
    {
        let found = self.there(pool_uuid, true);
        let mut out: Vec<(String, u64)> = Vec::new();
        let mut i: usize = 0;
        while i < found.len()
            invariant
                i <= found@.len(),
                out@.len() == i,
                forall|j: int|
                    0 <= j < i ==> (#[trigger] out@[j]).0@ == found@[j].0@ && out@[j].1
                        == found@[j].1,
            decreases found@.len() - i,
        {
            out.push((found[i].0.clone(), found[i].1));
            i += 1;
        }
        out
    }

    /// The files and directories of a pool in the order of their paths, each with its length and
    /// whether it is a directory.
    pub fn list_nodes(&self, pool_uuid: &str) -> (r: Vec<(String, u64, bool)>)
        ensures
            ({
                let m = there(pool_rows(self@.files, pool_uuid@), false);
                let ks = strmap::sorted_keys(m);
                &&& strmap::listing(ks, m.dom())
                &&& r@.len() == ks.len()
                &&& forall|i: int|
                    0 <= i < r@.len() ==> (#[trigger] r@[i]).0@ == ks[i] && r@[i].1
                        == m[ks[i]].length && r@[i].2 == nodes::dir_kind(m[ks[i]].metadata)
            }),
    {
        self.there(pool_uuid, false)
    }

    /// How many rows point to a tape, and their lengths together.
    pub fn live_on(&self, barcode: &str) -> (r: (u64, u64))
        requires
            total_length(rows_on(self@.files, barcode@)) <= u64::MAX,
            rows_on(self@.files, barcode@).dom().len() <= u64::MAX,
        ensures
            rows_on(self@.files, barcode@).dom().finite(),
            r.0 == rows_on(self@.files, barcode@).dom().len(),
            r.1 == total_length(rows_on(self@.files, barcode@)),
    {
        let ghost m = self.files@;
        let ghost want = rows_on(self@.files, barcode@);
        let ghost mut seen: Rows = Map::empty();
        let mut count: u64 = 0;
        let mut bytes: u64 = 0;
        let n = self.files.len();
        let ghost ks = strmap::sorted_keys(m);
        let mut i: usize = 0;
        proof {
            self.lemma_rows_finite();
            lemma_total_part(want, self@.files);
        }
        while i < n
            invariant
                i <= n == ks.len(),
                m == self.files@,
                self@.files == flat(m),
                ks == strmap::sorted_keys(m),
                ks.no_duplicates(),
                forall|j: int| 0 <= j < n ==> m.contains_key(#[trigger] ks[j]),
                want == rows_on(self@.files, barcode@),
                want.dom().finite(),
                total_length(want) <= u64::MAX,
                want.dom().len() <= u64::MAX,
                seen.dom().finite(),
                count == seen.dom().len(),
                bytes == total_length(seen),
                forall|k: Key| #[trigger]
                    seen.contains_key(k) <==> want.contains_key(k) && exists|j: int|
                        0 <= j < i && ks[j] == k.0,
                forall|k: Key| #[trigger] seen.contains_key(k) ==> seen[k] == want[k],
            decreases n - i,
        {
            let rows = self.files.value_at(i);
            let ghost u = ks[i as int];
            let nn = rows.len();
            let ghost ps = strmap::sorted_keys(rows@);
            let ghost before = seen;
            let mut a: usize = 0;
            while a < nn
                invariant
                    a <= nn == ps.len(),
                    rows@ == m[u],
                    m.contains_key(u),
                    u == ks[i as int],
                    0 <= i < ks.len(),
                    ks.no_duplicates(),
                    self@.files == flat(m),
                    ps == strmap::sorted_keys(rows@),
                    ps.no_duplicates(),
                    forall|j: int| 0 <= j < nn ==> rows@.contains_key(#[trigger] ps[j]),
                    want == rows_on(self@.files, barcode@),
                    want.dom().finite(),
                    total_length(want) <= u64::MAX,
                    want.dom().len() <= u64::MAX,
                    seen.dom().finite(),
                    count == seen.dom().len(),
                    bytes == total_length(seen),
                    forall|k: Key| #[trigger]
                        before.contains_key(k) ==> want.contains_key(k) && exists|j: int|
                            0 <= j < i && ks[j] == k.0,
                    forall|k: Key| #[trigger]
                        seen.contains_key(k) <==> before.contains_key(k) || (want.contains_key(k)
                            && k.0 == u && exists|j: int| 0 <= j < a && ps[j] == k.1),
                    forall|k: Key| #[trigger] seen.contains_key(k) ==> seen[k] == want[k],
                decreases nn - a,
            {
                let row = rows.value_at(a);
                let ghost k = (u, ps[a as int]);
                if text::same(row.barcode.as_str(), barcode) {
                    proof {
                        assert(flat(m).contains_key(k));
                        assert(want.contains_key(k));
                        assert(!before.contains_key(k)) by {
                            if before.contains_key(k) {
                                let j = choose|j: int| 0 <= j < i && ks[j] == k.0;
                                assert(ks[j] == ks[i as int]);
                            }
                        }
                        assert(!seen.contains_key(k));
                        lemma_total_insert(seen, k, row@);
                        let next = seen.insert(k, row@);
                        assert(next.submap_of(want));
                        lemma_total_part(next, want);
                        vstd::set_lib::lemma_len_subset(next.dom(), want.dom());
                        assert(next.dom() =~= seen.dom().insert(k));
                        seen = next;
                    }
                    count = count + 1;
                    bytes = bytes + row.length;
                }
                a += 1;
            }
            proof {
                assert forall|k: Key| #[trigger] seen.contains_key(k) <==> want.contains_key(k)
                    && exists|j: int| 0 <= j < i + 1 && ks[j] == k.0 by {
                    if want.contains_key(k) && k.0 == u {
                        assert(rows@.contains_key(k.1));
                        assert(ps.contains(k.1));
                    }
                    if before.contains_key(k) {
                        let j = choose|j: int| 0 <= j < i && ks[j] == k.0;
                        assert(0 <= j < i + 1 && ks[j] == k.0);
                    }
                    if want.contains_key(k) && (exists|j: int| 0 <= j < i + 1 && ks[j] == k.0)
                        && k.0 != u {
                        let j = choose|j: int| 0 <= j < i + 1 && ks[j] == k.0;
                        assert(0 <= j < i && ks[j] == k.0);
                        assert(before.contains_key(k));
                    }
                    if seen.contains_key(k) && k.0 == u {
                        assert(0 <= i < i + 1 && ks[i as int] == k.0);
                    }
                }
            }
            i += 1;
        }
        assert(seen =~= want) by {
            assert forall|k: Key| want.contains_key(k) implies seen.contains_key(k) by {
                assert(m.contains_key(k.0));
                assert(ks.contains(k.0));
            }
        }
        (count, bytes)
    }

    /// There are finitely many rows.
    proof fn lemma_rows_finite(&self)
        ensures
            self@.files.dom().finite(),
    {
        let m = self.files@;
        self.files.lemma_finite();
        lemma_flat_finite(self.files, m.dom());
        assert(self@.files.dom() =~= Set::new(
            |k: Key| m.dom().contains(k.0) && m[k.0].contains_key(k.1),
        ));
    }
}

proof fn lemma_flat_finite(files: StrMap<StrMap<FileRow>>, pools: Set<Seq<char>>)
    requires
        pools.finite(),
        pools.subset_of(files@.dom()),
    ensures
        Set::new(|k: Key| pools.contains(k.0) && files@[k.0].contains_key(k.1)).finite(),
    decreases pools.len(),
{
    let all = Set::new(|k: Key| pools.contains(k.0) && files@[k.0].contains_key(k.1));
    if pools.len() == 0 {
        assert(pools =~= Set::empty());
        assert(all =~= Set::empty());
    } else {
        let u = pools.choose();
        let rest = pools.remove(u);
        lemma_flat_finite(files, rest);
        let inner = files.lemma_value(u);
        inner.lemma_finite();
        let here = files@[u].dom();
        let tagged = here.map(|p: Seq<char>| (u, p));
        here.lemma_map_finite(|p: Seq<char>| (u, p));
        let others = Set::new(|k: Key| rest.contains(k.0) && files@[k.0].contains_key(k.1));
        assert(all =~= others.union(tagged)) by {
            assert forall|k: Key| all.contains(k) implies others.union(tagged).contains(k) by {
                if k.0 == u {
                    assert(here.contains(k.1));
                    assert((|p: Seq<char>| (u, p))(k.1) == k);
                }
            }
        }
    }
}

/// A pool and its tapes in the order of their barcodes.
#[derive(Debug, Clone, PartialEq, Eq)]
pub struct PoolRow {
    pub uuid: String,
    pub name: String,
    pub file_limit: u64,
    pub tapes: Vec<String>,
}

#[verifier::ext_equal]
pub struct PoolRowView {
    pub uuid: Seq<char>,
    pub name: Seq<char>,
    pub file_limit: u64,
    pub tapes: Seq<Seq<char>>,
}

impl View for PoolRow {
    type V = PoolRowView;

    open spec fn view(&self) -> PoolRowView {
        PoolRowView {
            uuid: self.uuid@,
            name: self.name@,
            file_limit: self.file_limit,
            tapes: text::string_views(self.tapes@),
        }
    }
}

impl DirectoryView {
    /// No two pools have the same name.
    pub open spec fn names_differ(self) -> bool {
        forall|a: Seq<char>, b: Seq<char>|
            self.pools.contains_key(a) && self.pools.contains_key(b) && a != b ==> (
            #[trigger] self.pools[a]).name != (#[trigger] self.pools[b]).name
    }

    /// The tapes of a pool.
    pub open spec fn tapes_in(self, uuid: Seq<char>) -> Map<Seq<char>, TapeEntryView> {
        Map::new(
            |b: Seq<char>| self.tapes.contains_key(b) && self.tapes[b].pool_uuid == uuid,
            |b: Seq<char>| self.tapes[b],
        )
    }

    /// The row of a pool.
    pub open spec fn pool_row(self, uuid: Seq<char>) -> PoolRowView {
        PoolRowView {
            uuid,
            name: self.pools[uuid].name,
            file_limit: self.pools[uuid].file_limit,
            tapes: strmap::sorted_keys(self.tapes_in(uuid)),
        }
    }

    /// The pools and who belongs to them are those of the control state.
    pub open spec fn agrees_with(self, ctl: ControlView) -> bool {
        &&& self.pools == ctl.pools
        &&& forall|b: Seq<char>, u: Seq<char>|
            self.pools.contains_key(u) ==> (#[trigger] self.tapes_in(u).contains_key(b) <==> (
            ctl.tapes.contains_key(b) && ctl.tapes[b] == u))
    }
}

impl Directory {
    fn list_tapes(&self, uuid: &str) -> (r: Vec<String>)
        ensures
            text::string_views(r@) == strmap::sorted_keys(self@.tapes_in(uuid@)),
            strmap::listing(text::string_views(r@), self@.tapes_in(uuid@).dom()),
    {
        let ghost want = self@.tapes_in(uuid@);
        let mut out: Vec<String> = Vec::new();
        let n = self.tapes.len();
        let ghost ks = strmap::sorted_keys(self.tapes@);
        let mut i: usize = 0;
        while i < n
            invariant
                i <= n == ks.len(),
                ks == strmap::sorted_keys(self.tapes@),
                strmap::ascending(ks),
                want == self@.tapes_in(uuid@),
                forall|j: int| 0 <= j < n ==> self.tapes@.contains_key(#[trigger] ks[j]),
                forall|j: int|
                    0 <= j < out@.len() ==> want.contains_key((#[trigger] out@[j])@) && exists|a: int|
                        0 <= a < i && ks[a] == out@[j]@,
                strmap::ascending(text::string_views(out@)),
                forall|a: int|
                    0 <= a < i && want.contains_key(#[trigger] ks[a]) ==> text::string_views(
                        out@,
                    ).contains(ks[a]),
            decreases n - i,
        {
            if text::same(self.tapes.value_at(i).pool_uuid.as_str(), uuid) {
                let ghost was = out@;
                let b = self.tapes.key_at(i).clone();
                out.push(b);
                proof {
                    assert(text::string_views(out@) =~= text::string_views(was).push(b@));
                    assert(text::string_views(out@)[was.len() as int] == b@);
                    assert forall|x: int, y: int| 0 <= x < y < out@.len() implies text::lt(
                        #[trigger] text::string_views(out@)[x],
                        #[trigger] text::string_views(out@)[y],
                    ) by {
                        if y < was.len() {
                            assert(text::lt(text::string_views(was)[x], text::string_views(was)[y]));
                        } else {
                            assert(want.contains_key(was[x]@));
                            let a = choose|a: int| 0 <= a < i && ks[a] == was[x]@;
                            assert(text::lt(ks[a], ks[i as int]));
                        }
                    }
                    assert forall|j: int| 0 <= j < out@.len() implies want.contains_key(
                        (#[trigger] out@[j])@,
                    ) && exists|a: int| 0 <= a < i + 1 && ks[a] == out@[j]@ by {
                        if j < was.len() {
                            assert(out@[j] == was[j]);
                            let a = choose|a: int| 0 <= a < i && ks[a] == was[j]@;
                            assert(0 <= a < i + 1 && ks[a] == out@[j]@);
                        } else {
                            assert(ks[i as int] == out@[j]@);
                        }
                    }
                    assert forall|a: int| 0 <= a < i + 1 && want.contains_key(
                        #[trigger] ks[a],
                    ) implies text::string_views(out@).contains(ks[a]) by {
                        if a < i {
                            let x = choose|x: int|
                                0 <= x < text::string_views(was).len() && text::string_views(was)[x] == ks[a];
                            assert(text::string_views(out@)[x] == ks[a]);
                        }
                    }
                }
            }
            i += 1;
        }
        proof {
            let vs = text::string_views(out@);
            assert forall|b: Seq<char>| #[trigger] vs.contains(b) <==> want.dom().contains(b) by {
                if vs.contains(b) {
                    let j = choose|j: int| 0 <= j < vs.len() && vs[j] == b;
                    assert(want.contains_key(out@[j]@));
                }
                if want.dom().contains(b) {
                    assert(ks.contains(b));
                    let a = choose|a: int| 0 <= a < ks.len() && ks[a] == b;
                    assert(want.contains_key(ks[a]));
                }
            }
            strmap::lemma_sorted_keys(want, vs);
        }
        out
    }

    /// The pools in the order of their names.
    pub fn pools(&self) -> (r: Vec<PoolRow>)
        requires
            self@.names_differ(),
        ensures
            forall|i: int|
                0 <= i < r@.len() ==> self@.pools.contains_key((#[trigger] r@[i])@.uuid) && r@[i]@
                    == self@.pool_row(r@[i]@.uuid),
            forall|i: int, j: int|
                0 <= i < j < r@.len() ==> text::lt((#[trigger] r@[i])@.name, (#[trigger] r@[j])@.name),
            forall|u: Seq<char>| #[trigger]
                self@.pools.contains_key(u) ==> exists|i: int|
                    0 <= i < r@.len() && (#[trigger] r@[i])@.uuid == u,
    {
        let mut by_name: StrMap<String> = StrMap::new();
        let n = self.pools.len();
        let ghost ks = strmap::sorted_keys(self.pools@);
        let mut i: usize = 0;
        while i < n
            invariant
                i <= n == ks.len(),
                ks == strmap::sorted_keys(self.pools@),
                ks.no_duplicates(),
                self@.names_differ(),
                self@.pools == self.pools@,
                forall|j: int| 0 <= j < n ==> self.pools@.contains_key(#[trigger] ks[j]),
                forall|a: Seq<char>| #[trigger]
                    by_name@.contains_key(a) ==> self.pools@.contains_key(by_name@[a])
                        && self.pools@[by_name@[a]].name == a,
                forall|j: int|
                    0 <= j < i ==> by_name@.contains_key(self.pools@[#[trigger] ks[j]].name)
                        && by_name@[self.pools@[ks[j]].name] == ks[j],
            decreases n - i,
        {
            let p = self.pools.value_at(i);
            by_name.insert(p.name.clone(), self.pools.key_at(i).clone());
            i += 1;
        }
        let mut out: Vec<PoolRow> = Vec::new();
        let m = by_name.len();
        let ghost ns = strmap::sorted_keys(by_name@);
        let mut i: usize = 0;
        while i < m
            invariant
                i <= m == ns.len(),
                ns == strmap::sorted_keys(by_name@),
                self@.pools == self.pools@,
                forall|j: int| 0 <= j < m ==> by_name@.contains_key(#[trigger] ns[j]),
                forall|a: Seq<char>| #[trigger]
                    by_name@.contains_key(a) ==> self.pools@.contains_key(by_name@[a])
                        && self.pools@[by_name@[a]].name == a,
                out@.len() == i,
                forall|j: int|
                    0 <= j < i ==> (#[trigger] out@[j])@.uuid == by_name@[ns[j]] && out@[j]@
                        == self@.pool_row(by_name@[ns[j]]),
            decreases m - i,
        {
            let uuid = by_name.value_at(i).clone();
            let tapes = self.list_tapes(uuid.as_str());
            let file_limit: u64 = match self.pools.get(uuid.as_str()) {
                Some(p) => p.file_limit,
                None => 0,
            };
            let row = PoolRow { uuid, name: by_name.key_at(i).clone(), file_limit, tapes };
            assert(row@ =~= self@.pool_row(by_name@[ns[i as int]]));
            out.push(row);
            i += 1;
        }
        proof {
            assert forall|i: int, j: int| 0 <= i < j < out@.len() implies text::lt(
                (#[trigger] out@[i])@.name,
                (#[trigger] out@[j])@.name,
            ) by {
                assert(by_name@.contains_key(ns[i]));
                assert(by_name@.contains_key(ns[j]));
                assert(text::lt(ns[i], ns[j]));
            }
            assert forall|u: Seq<char>| #[trigger] self@.pools.contains_key(u) implies exists|i: int|
                0 <= i < out@.len() && (#[trigger] out@[i])@.uuid == u by {
                assert(ks.contains(u));
                let j = choose|j: int| 0 <= j < ks.len() && ks[j] == u;
                let name = self.pools@[ks[j]].name;
                assert(by_name@.contains_key(name));
                assert(ns.contains(name));
                let i = choose|i: int| 0 <= i < ns.len() && ns[i] == name;
                assert(out@[i]@.uuid == u);
            }
            assert forall|i: int| 0 <= i < out@.len() implies self@.pools.contains_key(
                (#[trigger] out@[i])@.uuid,
            ) && out@[i]@ == self@.pool_row(out@[i]@.uuid) by {
                assert(by_name@.contains_key(ns[i]));
            }
        }
        out
    }

    /// Whether the pools and who belongs to them are those of the control state.
    pub fn matches(&self, ctl: &ControlState) -> (r: bool)
        ensures
            r == self@.agrees_with(ctl@),
    {
        let n = self.pools.len();
        if n != ctl.pools.len() {
            return false;
        }
        let ghost ks = strmap::sorted_keys(self.pools@);
        let mut i: usize = 0;
        while i < n
            invariant
                i <= n == ks.len(),
                ks == strmap::sorted_keys(self.pools@),
                self@.pools == self.pools@,
                forall|j: int| 0 <= j < n ==> self.pools@.contains_key(#[trigger] ks[j]),
                forall|j: int|
                    0 <= j < i ==> {
                        let u = #[trigger] ks[j];
                        &&& ctl@.pools.contains_key(u)
                        &&& ctl@.pools[u] == self@.pools[u]
                        &&& forall|b: Seq<char>| #[trigger]
                            self@.tapes_in(u).contains_key(b) <==> (ctl@.tapes.contains_key(b)
                                && ctl@.tapes[b] == u)
                    },
            decreases n - i,
        {
            let uuid = self.pools.key_at(i);
            let here = self.pools.value_at(i);
            match ctl.pools.get(uuid.as_str()) {
                Some(p) => {
                    if !text::same(p.name.as_str(), here.name.as_str()) || p.file_limit
                        != here.file_limit {
                        assert(self@.pools[uuid@] != ctl@.pools[uuid@]);
                        return false;
                    }
                    assert(p@ =~= here@);
                },
                None => {
                    assert(self@.pools.contains_key(uuid@));
                    return false;
                },
            }
            if !self.same_tapes(ctl, uuid.as_str()) {
                assert(self@.pools.contains_key(uuid@));
                return false;
            }
            i += 1;
        }
        proof {
            let a = self@.pools.dom();
            let b = ctl@.pools.dom();
            assert(a.subset_of(b)) by {
                assert forall|u: Seq<char>| a.contains(u) implies b.contains(u) by {
                    assert(ks.contains(u));
                }
            }
            vstd::set_lib::lemma_subset_equality(a, b);
            assert forall|u: Seq<char>| self@.pools.contains_key(u) implies self@.pools[u]
                == ctl@.pools[u] by {
                assert(ks.contains(u));
            }
            assert(self@.pools =~= ctl@.pools);
            assert forall|b: Seq<char>, u: Seq<char>| self@.pools.contains_key(u) implies (
            #[trigger] self@.tapes_in(u).contains_key(b) <==> (ctl@.tapes.contains_key(b)
                && ctl@.tapes[b] == u)) by {
                assert(ks.contains(u));
                let j = choose|j: int| 0 <= j < ks.len() && ks[j] == u;
                assert(self@.tapes_in(ks[j]).contains_key(b) <==> (ctl@.tapes.contains_key(b)
                    && ctl@.tapes[b] == ks[j]));
            }
        }
        true
    }

    fn same_tapes(&self, ctl: &ControlState, uuid: &str) -> (r: bool)
        ensures
            r == forall|b: Seq<char>| #[trigger]
                self@.tapes_in(uuid@).contains_key(b) <==> (ctl@.tapes.contains_key(b)
                    && ctl@.tapes[b] == uuid@),
    {
        let n = self.tapes.len();
        let ghost ks = strmap::sorted_keys(self.tapes@);
        let mut i: usize = 0;
        while i < n
            invariant
                i <= n == ks.len(),
                ks == strmap::sorted_keys(self.tapes@),
                self@.tapes == self.tapes@,
                forall|j: int| 0 <= j < n ==> self.tapes@.contains_key(#[trigger] ks[j]),
                forall|j: int|
                    0 <= j < i && self@.tapes_in(uuid@).contains_key(#[trigger] ks[j])
                        ==> ctl@.tapes.contains_key(ks[j]) && ctl@.tapes[ks[j]] == uuid@,
            decreases n - i,
        {
            let b = self.tapes.key_at(i);
            if text::same(self.tapes.value_at(i).pool_uuid.as_str(), uuid) {
                let there = match ctl.tapes.get(b.as_str()) {
                    Some(u) => text::same(u.as_str(), uuid),
                    None => false,
                };
                if !there {
                    assert(self@.tapes_in(uuid@).contains_key(b@));
                    return false;
                }
            }
            i += 1;
        }
        let m = ctl.tapes.len();
        let ghost cs = strmap::sorted_keys(ctl.tapes@);
        let mut i: usize = 0;
        while i < m
            invariant
                i <= m == cs.len(),
                cs == strmap::sorted_keys(ctl.tapes@),
                ctl@.tapes == ctl.tapes@,
                self@.tapes == self.tapes@,
                forall|j: int| 0 <= j < m ==> ctl.tapes@.contains_key(#[trigger] cs[j]),
                forall|j: int|
                    0 <= j < i && ctl@.tapes[#[trigger] cs[j]] == uuid@ ==> self@.tapes_in(
                        uuid@,
                    ).contains_key(cs[j]),
            decreases m - i,
        {
            let b = ctl.tapes.key_at(i);
            if text::same(ctl.tapes.value_at(i).as_str(), uuid) {
                let here = match self.tapes.get(b.as_str()) {
                    Some(t) => text::same(t.pool_uuid.as_str(), uuid),
                    None => false,
                };
                if !here {
                    assert(!self@.tapes_in(uuid@).contains_key(b@));
                    return false;
                }
            }
            i += 1;
        }
        assert forall|b: Seq<char>| #[trigger] self@.tapes_in(uuid@).contains_key(b) <==> (
        ctl@.tapes.contains_key(b) && ctl@.tapes[b] == uuid@) by {
            if self@.tapes_in(uuid@).contains_key(b) {
                assert(ks.contains(b));
                let j = choose|j: int| 0 <= j < ks.len() && ks[j] == b;
                assert(self@.tapes_in(uuid@).contains_key(ks[j]));
            }
            if ctl@.tapes.contains_key(b) && ctl@.tapes[b] == uuid@ {
                assert(cs.contains(b));
                let j = choose|j: int| 0 <= j < cs.len() && cs[j] == b;
                assert(ctl@.tapes[cs[j]] == uuid@);
            }
        }
        true
    }
}

/// The rows on `barcode` in the pools of `pools`.
spec fn counted(rows: Rows, pools: Set<Seq<char>>) -> Rows {
    Map::new(|k: Key| rows.contains_key(k) && pools.contains(k.0), |k: Key| rows[k])
}

impl Directory {
    /// The paths whose row points to a tape, in order; one that is in several pools comes once
    /// for each.
    pub fn paths_on(&self, barcode: &str) -> (r: Vec<String>)
        ensures
            ({
                let m = path_counts(rows_on(self@.files, barcode@));
                &&& strmap::listing(strmap::sorted_keys(m), m.dom())
                &&& text::string_views(r@) == repeated(strmap::sorted_keys(m), m)
            }),
    {
        let ghost m = self.files@;
        let ghost rows_here = rows_on(self@.files, barcode@);
        let mut counts: StrMap<u64> = StrMap::new();
        let n = self.files.len();
        let ghost ks = strmap::sorted_keys(m);
        let ghost mut done: Set<Seq<char>> = Set::empty();
        let mut i: usize = 0;
        assert(counted(rows_here, done) =~= Map::<Key, RowView>::empty());
        assert(path_counts(counted(rows_here, done)) =~= Map::<Seq<char>, u64>::empty());
        while i < n
            invariant
                i <= n == ks.len(),
                m == self.files@,
                self@.files == flat(m),
                rows_here == rows_on(self@.files, barcode@),
                ks == strmap::sorted_keys(m),
                ks.no_duplicates(),
                forall|j: int| 0 <= j < n ==> m.contains_key(#[trigger] ks[j]),
                done.finite(),
                done.len() == i,
                forall|u: Seq<char>| #[trigger]
                    done.contains(u) <==> exists|j: int| 0 <= j < i && ks[j] == u,
                counts@ == path_counts(counted(rows_here, done)),
            decreases n - i,
        {
            let rows = self.files.value_at(i);
            let ghost u = ks[i as int];
            assert(!done.contains(u));
            let nn = rows.len();
            let ghost ps = strmap::sorted_keys(rows@);
            let ghost base = counted(rows_here, done);
            let ghost mut now = base;
            let mut a: usize = 0;
            while a < nn
                invariant
                    a <= nn == ps.len(),
                    i < n,
                    rows@ == m[u],
                    m.contains_key(u),
                    self@.files == flat(m),
                    rows_here == rows_on(self@.files, barcode@),
                    ps == strmap::sorted_keys(rows@),
                    ps.no_duplicates(),
                    forall|j: int| 0 <= j < nn ==> rows@.contains_key(#[trigger] ps[j]),
                    done.finite(),
                    done.len() == i,
                    !done.contains(u),
                    base == counted(rows_here, done),
                    forall|k: Key| #[trigger]
                        now.contains_key(k) <==> base.contains_key(k) || (rows_here.contains_key(k)
                            && k.0 == u && exists|j: int| 0 <= j < a && ps[j] == k.1),
                    forall|k: Key| #[trigger] now.contains_key(k) ==> now[k] == rows_here[k],
                    counts@ == path_counts(now),
                decreases nn - a,
            {
                let row = rows.value_at(a);
                if text::same(row.barcode.as_str(), barcode) {
                    let p = rows.key_at(a);
                    let ghost k = (u, p@);
                    let ghost next = now.insert(k, row@);
                    proof {
                        assert(rows_here.contains_key(k));
                        assert(!now.contains_key(k));
                        let was = pools_of(now, p@);
                        let is = pools_of(next, p@);
                        assert(is =~= was.insert(u));
                        assert(was.subset_of(done)) by {
                            assert forall|x: Seq<char>| was.contains(x) implies done.contains(
                                x,
                            ) by {
                                assert(now.contains_key((x, p@)));
                                if x == u {
                                    assert(!base.contains_key(k));
                                }
                            }
                        }
                        vstd::set_lib::lemma_len_subset(was, done);
                        assert(!was.contains(u));
                        assert(is.len() == was.len() + 1);
                        assert(counts@.contains_key(p@) <==> was.len() > 0) by {
                            if counts@.contains_key(p@) {
                                let x = choose|x: Seq<char>| now.contains_key((x, p@));
                                assert(was.contains(x));
                            }
                            if was.len() > 0 {
                                let x = was.choose();
                                assert(was.contains(x)) by {
                                    if forall|y: Seq<char>| !was.contains(y) {
                                        assert(was =~= Set::empty());
                                    }
                                }
                                assert(now.contains_key((x, p@)));
                            }
                        }
                    }
                    let c: u64 = match counts.get(p.as_str()) {
                        Some(c) => *c,
                        None => 0,
                    };
                    counts.insert(p.clone(), c + 1);
                    proof {
                        assert(path_counts(next) =~= path_counts(now).insert(
                            p@,
                            (pools_of(now, p@).len() + 1) as u64,
                        )) by {
                            assert forall|q: Seq<char>| path_counts(next).contains_key(q)
                                == path_counts(now).insert(
                                p@,
                                (pools_of(now, p@).len() + 1) as u64,
                            ).contains_key(q) by {
                                if path_counts(now).contains_key(q) {
                                    let x = choose|x: Seq<char>| now.contains_key((x, q));
                                    assert(next.contains_key((x, q)));
                                }
                                if q == p@ {
                                    assert(next.contains_key((u, q)));
                                }
                                if path_counts(next).contains_key(q) && q != p@ {
                                    let x = choose|x: Seq<char>| next.contains_key((x, q));
                                    assert(now.contains_key((x, q)));
                                }
                            }
                            assert forall|q: Seq<char>| q != p@ implies pools_of(next, q)
                                == pools_of(now, q) by {
                                assert(pools_of(next, q) =~= pools_of(now, q));
                            }
                        }
                        now = next;
                    }
                }
                a += 1;
            }
            proof {
                let more = done.insert(u);
                assert(now =~= counted(rows_here, more)) by {
                    assert forall|k: Key| now.contains_key(k) == counted(
                        rows_here,
                        more,
                    ).contains_key(k) by {
                        if rows_here.contains_key(k) && k.0 == u {
                            assert(rows@.contains_key(k.1));
                            assert(ps.contains(k.1));
                        }
                    }
                }
                done = more;
                assert forall|x: Seq<char>| #[trigger] done.contains(x) <==> exists|j: int|
                    0 <= j < i + 1 && ks[j] == x by {
                    if x == u {
                        assert(0 <= i < i + 1 && ks[i as int] == x);
                    }
                }
            }
            i += 1;
        }
        assert(counted(rows_here, done) =~= rows_here) by {
            assert forall|k: Key| rows_here.contains_key(k) implies done.contains(k.0) by {
                assert(m.contains_key(k.0));
                assert(ks.contains(k.0));
            }
        }
        let nn = counts.len();
        let ghost cs = strmap::sorted_keys(counts@);
        let mut out: Vec<String> = Vec::new();
        let mut i: usize = 0;
        assert(cs.take(0) =~= Seq::<Seq<char>>::empty());
        assert(text::string_views(out@) =~= Seq::<Seq<char>>::empty());
        while i < nn
            invariant
                i <= nn == cs.len(),
                cs == strmap::sorted_keys(counts@),
                forall|j: int| 0 <= j < nn ==> counts@.contains_key(#[trigger] cs[j]),
                text::string_views(out@) == repeated(cs.take(i as int), counts@),
            decreases nn - i,
        {
            proof {
                assert(cs.take(i + 1).drop_last() =~= cs.take(i as int));
                assert(cs.take(i + 1).last() == cs[i as int]);
            }
            let c: u64 = *counts.value_at(i);
            let p = counts.key_at(i);
            let ghost before = text::string_views(out@);
            let mut a: u64 = 0;
            assert(before + Seq::new(0, |j: int| p@) =~= before);
            while a < c
                invariant
                    a <= c,
                    text::string_views(out@) == before + Seq::new(a as nat, |j: int| p@),
                decreases c - a,
            {
                let ghost was = out@;
                out.push(p.clone());
                assert(text::string_views(out@) =~= text::string_views(was).push(p@));
                assert(before + Seq::new((a + 1) as nat, |j: int| p@) =~= (before + Seq::new(
                    a as nat,
                    |j: int| p@,
                )).push(p@));
                a += 1;
            }
            assert(Seq::new(c as nat, |j: int| p@) =~= Seq::new(
                counts@[cs[i as int]] as nat,
                |j: int| cs[i as int],
            ));
            i += 1;
        }
        assert(cs.take(i as int) =~= cs);
        out
    }
}

/// A row as it is stored.
#[derive(Debug)]
pub struct StoredRow {
    pub pool_uuid: String,
    pub path: String,
    pub row: FileRow,
}

/// The rows that are stored, of two with one key the later.
pub open spec fn stored(v: Seq<StoredRow>) -> Rows
    decreases v.len(),
{
    if v.len() == 0 {
        Map::empty()
    } else {
        stored(v.drop_last()).insert((v.last().pool_uuid@, v.last().path@), v.last().row@)
    }
}

/// The rows of some pools.
pub open spec fn rows_of_pools(
    m: Map<Seq<char>, Map<Seq<char>, RowView>>,
    pools: Seq<Seq<char>>,
) -> Rows {
    Map::new(
        |k: Key| pools.contains(k.0) && m[k.0].contains_key(k.1),
        |k: Key| m[k.0][k.1],
    )
}

/// `done` with the rows of some paths of a pool.
pub open spec fn with_pool_rows(
    done: Rows,
    pool: Seq<char>,
    rows: Map<Seq<char>, RowView>,
    paths: Seq<Seq<char>>,
) -> Rows {
    Map::new(
        |k: Key| (k.0 == pool && paths.contains(k.1)) || done.contains_key(k),
        |k: Key|
            if k.0 == pool && paths.contains(k.1) {
                rows[k.1]
            } else {
                done[k]
            },
    )
}

proof fn lemma_take_one(s: Seq<Seq<char>>, i: int)
    requires
        0 <= i < s.len(),
    ensures
        forall|x: Seq<char>| #[trigger]
            s.take(i + 1).contains(x) <==> s.take(i).contains(x) || x == s[i],
{
    assert forall|x: Seq<char>| #[trigger]
        s.take(i + 1).contains(x) <==> s.take(i).contains(x) || x == s[i] by {
        if s.take(i).contains(x) {
            let j = choose|j: int| 0 <= j < i && s.take(i)[j] == x;
            assert(s.take(i + 1)[j] == x);
        }
        if x == s[i] {
            assert(s.take(i + 1)[i] == x);
        }
        let t = s.take(i + 1);
        if t.contains(x) {
            let j = choose|j: int| 0 <= j < t.len() && t[j] == x;
            if j < i {
                assert(s.take(i)[j] == x);
            }
        }
    }
}

impl Directory {
    /// The directory that was stored.
    pub fn restore(
        applied: u64,
        pools: StrMap<Pool>,
        tapes: StrMap<TapeEntry>,
        rows: &Vec<StoredRow>,
        staging: Vec<Staged>,
    ) -> (r: Self)
        ensures
            r@ == (DirectoryView {
                applied,
                pools: pools@,
                tapes: tapes@,
                files: stored(rows@),
                staging: staged_views(staging@),
            }),
    {
        let mut d = Directory { applied, pools, tapes, files: StrMap::new(), staging };
        let ghost base = d@;
        assert(base.files =~= Map::<Key, RowView>::empty());
        let mut i: usize = 0;
        assert(rows@.take(0) =~= Seq::<StoredRow>::empty());
        while i < rows.len()
            invariant
                i <= rows@.len(),
                d@ == (DirectoryView { files: stored(rows@.take(i as int)), ..base }),
            decreases rows@.len() - i,
        {
            assert(rows@.take(i + 1).drop_last() =~= rows@.take(i as int));
            let s = &rows[i];
            d.put(s.pool_uuid.as_str(), s.path.as_str(), s.row.dup());
            i += 1;
        }
        assert(rows@.take(i as int) =~= rows@);
        d
    }

    /// The pools, to be stored.
    pub fn stored_pools(&self) -> (r: &StrMap<Pool>)
        ensures
            r@ == self@.pools,
    {
        &self.pools
    }

    /// The tapes, to be stored.
    pub fn stored_tapes(&self) -> (r: &StrMap<TapeEntry>)
        ensures
            r@ == self@.tapes,
    {
        &self.tapes
    }

    /// The parts that wait for their batch, to be stored.
    pub fn stored_staging(&self) -> (r: &Vec<Staged>)
        ensures
            staged_views(r@) == self@.staging,
    {
        &self.staging
    }

    /// The rows, to be stored: what `restore` makes of them are the rows again.
    pub fn stored_rows(&self) -> (r: Vec<StoredRow>)
        ensures
            stored(r@) == self@.files,
    {
        let ghost m = self.files@;
        let ghost ks = strmap::sorted_keys(m);
        let n = self.files.len();
        let mut out: Vec<StoredRow> = Vec::new();
        let mut i: usize = 0;
        assert(stored(out@) =~= rows_of_pools(m, ks.take(0)));
        while i < n
            invariant
                i <= n == ks.len(),
                m == self.files@,
                ks == strmap::sorted_keys(m),
                stored(out@) == rows_of_pools(m, ks.take(i as int)),
            decreases n - i,
        {
            let pool = self.files.key_at(i);
            let rows = self.files.value_at(i);
            let ghost p = pool@;
            let ghost rm = rows@;
            let ghost rs = strmap::sorted_keys(rm);
            let ghost done = rows_of_pools(m, ks.take(i as int));
            let len = rows.len();
            let mut j: usize = 0;
            assert(stored(out@) =~= with_pool_rows(done, p, rm, rs.take(0)));
            while j < len
                invariant
                    j <= len == rs.len(),
                    p == pool@,
                    rm == rows@,
                    rs == strmap::sorted_keys(rm),
                    stored(out@) == with_pool_rows(done, p, rm, rs.take(j as int)),
                decreases len - j,
            {
                let path = rows.key_at(j);
                let row = rows.value_at(j);
                let ghost was = out@;
                let one = StoredRow {
                    pool_uuid: pool.as_str().to_owned(),
                    path: path.as_str().to_owned(),
                    row: row.dup(),
                };
                out.push(one);
                proof {
                    assert(out@.drop_last() =~= was);
                    lemma_take_one(rs, j as int);
                    assert(stored(out@) =~= with_pool_rows(done, p, rm, rs.take(j + 1)));
                }
                j += 1;
            }
            proof {
                assert(rs.take(len as int) =~= rs);
                lemma_take_one(ks, i as int);
                assert(with_pool_rows(done, p, rm, rs) =~= rows_of_pools(m, ks.take(i + 1)));
            }
            i += 1;
        }
        proof {
            assert(ks.take(n as int) =~= ks);
            assert(stored(out@) =~= flat(m));
        }
        out
    }

    fn put(&mut self, pool: &str, path: &str, row: FileRow)
        ensures
            final(self)@ == (DirectoryView {
                files: old(self)@.files.insert((pool@, path@), row@),
                ..old(self)@
            }),
    {
        let ghost m = self.files@;
        let mut rows = match self.files.get(pool) {
            Some(r) => r.dup(),
            None => StrMap::new(),
        };
        rows.insert(path.to_owned(), row);
        self.files.insert(pool.to_owned(), rows);
        assert(flat(self.files@) =~= flat(m).insert((pool@, path@), row@));
    }
}

/// A command that is in already changes nothing when it is applied again.
pub proof fn law_replay_changes_nothing(
    d: DirectoryView,
    index: u64,
    cmd: CommandView,
    out: AppliedView,
    again: CommandView,
    told: AppliedView,
    at: u64,
)
    requires
        d.applied(index, cmd, out) is Some,
        at <= index || at <= d.applied,
    ensures
        (d.applied(index, cmd, out)->0).applied(at, again, told) == d.applied(index, cmd, out),
{
}

/// What the control state refused changes nothing but the index.
pub proof fn law_refused_commands_leave_no_trace(
    d: DirectoryView,
    index: u64,
    cmd: CommandView,
    why: Seq<char>,
)
    requires
        d.applied < index,
        cmd !is CatalogPart,
    ensures
        d.applied(index, cmd, AppliedView::Admin(Err(why))) == Some(
            DirectoryView { applied: index, ..d },
        ),
{
}

/// A commit in which each path comes once.
pub open spec fn once_each(staging: Seq<StagedView>, barcode: Seq<char>, generation: u64) -> bool {
    forall|i: int, j: int|
        0 <= i < j < staging.len() && (#[trigger] staging[i]).file is Some && (
        #[trigger] staging[j]).file is Some && staging[i].barcode == barcode
            && staging[j].barcode == barcode && staging[i].generation == generation
            && staging[j].generation == generation ==> staging[i].file->0.path
            != staging[j].file->0.path
}

/// The record of `path` in a staged commit.
pub open spec fn staged_file(
    staging: Seq<StagedView>,
    barcode: Seq<char>,
    generation: u64,
    path: Seq<char>,
) -> Option<FileRecView>
    decreases staging.len(),
{
    if staging.len() == 0 {
        None
    } else {
        let s = staging.last();
        if s.barcode == barcode && s.generation == generation && s.file is Some && s.file->0.path
            == path {
            s.file
        } else {
            staged_file(staging.drop_last(), barcode, generation, path)
        }
    }
}

proof fn lemma_staged_file(
    staging: Seq<StagedView>,
    barcode: Seq<char>,
    generation: u64,
    path: Seq<char>,
)
    ensures
        staged_file(staging, barcode, generation, path) is Some ==> exists|i: int|
            0 <= i < staging.len() && (#[trigger] staging[i]).barcode == barcode
                && staging[i].generation == generation && staging[i].file is Some
                && staging[i].file->0.path == path,
    decreases staging.len(),
{
    if staging.len() > 0 {
        let prev = staging.drop_last();
        lemma_staged_file(prev, barcode, generation, path);
        let s = staging.last();
        if s.barcode == barcode && s.generation == generation && s.file is Some && s.file->0.path
            == path {
            assert(staging[staging.len() - 1] == s);
        } else if staged_file(staging, barcode, generation, path) is Some {
            let i = choose|i: int|
                0 <= i < prev.len() && (#[trigger] prev[i]).barcode == barcode
                    && prev[i].generation == generation && prev[i].file is Some
                    && prev[i].file->0.path == path;
            assert(staging[i] == prev[i]);
        }
    }
}

/// What merging a commit leaves on a path: the commit's record where there was no row, or it is
/// the tape's own or newer, else the row that was there.
pub proof fn law_merge_by_version(
    rows: Rows,
    staging: Seq<StagedView>,
    barcode: Seq<char>,
    generation: u64,
    pool: Seq<char>,
    path: Seq<char>,
)
    requires
        once_each(staging, barcode, generation),
    ensures
        ({
            let m = merged(rows, staging, barcode, generation, pool);
            let k = (pool, path);
            match staged_file(staging, barcode, generation, path) {
                None => (m.contains_key(k) <==> rows.contains_key(k)) && m[k] == rows[k],
                Some(f) => {
                    let row = row_of(barcode, generation, f);
                    m.contains_key(k) && m[k] == (if rows.contains_key(k) && !takes_over(
                        row,
                        rows[k],
                    ) {
                        rows[k]
                    } else {
                        row
                    })
                },
            }
        }),
    decreases staging.len(),
{
    if staging.len() > 0 {
        let prev = staging.drop_last();
        assert(once_each(prev, barcode, generation)) by {
            assert forall|i: int, j: int|
                0 <= i < j < prev.len() && (#[trigger] prev[i]).file is Some && (
                #[trigger] prev[j]).file is Some && prev[i].barcode == barcode
                    && prev[j].barcode == barcode && prev[i].generation == generation
                    && prev[j].generation == generation implies prev[i].file->0.path
                != prev[j].file->0.path by {
                assert(staging[i] == prev[i] && staging[j] == prev[j]);
            }
        }
        law_merge_by_version(rows, prev, barcode, generation, pool, path);
        lemma_staged_file(prev, barcode, generation, path);
        let s = staging.last();
        if s.barcode == barcode && s.generation == generation && s.file is Some && s.file->0.path
            == path {
            if staged_file(prev, barcode, generation, path) is Some {
                let i = choose|i: int|
                    0 <= i < prev.len() && (#[trigger] prev[i]).barcode == barcode
                        && prev[i].generation == generation && prev[i].file is Some
                        && prev[i].file->0.path == path;
                assert(staging[i] == prev[i]);
                assert(staging[staging.len() - 1] == s);
            }
        }
    }
}

/// Of two tapes that hold a path, the one with the newer version has it in the end, whichever of
/// them reports first.
pub proof fn law_newest_version_wins(
    rows: Rows,
    k: Key,
    a: RowView,
    b: RowView,
)
    requires
        !rows.contains_key(k),
        a.barcode != b.barcode,
        !nodes::version_ge(a.version, b.version),
    ensures
        upserted(upserted(rows, k, a), k, b) == rows.insert(k, b),
        upserted(upserted(rows, k, b), k, a) == rows.insert(k, b),
{
    assert(rows.insert(k, a).insert(k, b) =~= rows.insert(k, b));
}

/// A commit of which a part is missing brings no record in.
pub proof fn law_incomplete_commit_is_dropped(
    d: DirectoryView,
    barcode: Seq<char>,
    summary: SummaryView,
    parts: u32,
    full: bool,
)
    requires
        parts_of(d.staging, barcode, summary.generation).len() != parts,
    ensures
        d.committed(barcode, summary, parts, full).files == d.files,
        d.committed(barcode, summary, parts, full).tapes == d.tapes,
{
}

/// Records that are only staged are not seen.
pub proof fn law_staged_records_are_not_seen(
    d: DirectoryView,
    index: u64,
    barcode: Seq<char>,
    generation: u64,
    part: u32,
    files: Seq<FileRecView>,
    out: AppliedView,
)
    requires
        d.applied < index,
    ensures
        ({
            let e = d.applied(
                index,
                CommandView::CatalogPart { barcode, generation, part, files },
                out,
            );
            e is Some && e->0.files == d.files
        }),
{
}

/// After a tape has been formatted anew nothing points to it.
pub proof fn law_reclaimed_tape_is_empty(
    d: DirectoryView,
    barcode: Seq<char>,
    volume_uuid: Seq<char>,
    k: Key,
)
    ensures
        ({
            let e = d.reclaimed(barcode, volume_uuid);
            e.files.contains_key(k) ==> e.files[k].barcode != barcode
        }),
{
}

/// Pool names stay different from each other.
pub proof fn law_pool_names_stay_different(
    d: DirectoryView,
    index: u64,
    cmd: CommandView,
    out: AppliedView,
)
    requires
        d.names_differ(),
        d.applied(index, cmd, out) is Some,
    ensures
        (d.applied(index, cmd, out)->0).names_differ(),
{
}

/// The directory has the pools of the control state, and its tapes in the same pools.
pub open spec fn in_step(d: DirectoryView, c: ControlView) -> bool {
    &&& d.pools == c.pools
    &&& d.tapes.dom() == c.tapes.dom()
    &&& forall|b: Seq<char>| #[trigger]
        d.tapes.contains_key(b) ==> d.tapes[b].pool_uuid == c.tapes[b]
}

proof fn lemma_named(c: ControlView, keys: Seq<Seq<char>>, name: Seq<char>)
    ensures
        named(keys, c.pools, name) == c.named_from(keys, name),
    decreases keys.len(),
{
    if keys.len() > 0 {
        lemma_named(c, keys.drop_first(), name);
    }
}

/// A directory and a control state that start out alike and take the same commands stay in step,
/// and the directory never fails to take one.
pub proof fn law_directory_keeps_step(d: DirectoryView, c: ControlView, index: u64, cmd: CommandView)
    requires
        in_step(d, c),
        d.applied < index,
    ensures
        ({
            let (c2, out) = c.applied(index, cmd);
            let e = d.applied(index, cmd, out);
            &&& e is Some
            &&& in_step(e->0, c2)
            &&& e->0.applied == c2.applied_index
            &&& e->0.agrees_with(c2)
        }),
{
    let s = ControlView { applied_index: index, ..c };
    let (c2, out) = c.applied(index, cmd);
    match cmd {
        CommandView::TapeAssign { barcode, pool } => {
            lemma_named(s, strmap::sorted_keys(s.pools), pool);
        },
        CommandView::PoolCreate { uuid, name, file_limit } => {
            if s.pool_create_refusal(uuid, name, file_limit) is None {
                let others = Map::new(
                    |u: Seq<char>| d.pools.contains_key(u) && d.pools[u].name != name,
                    |u: Seq<char>| d.pools[u],
                );
                assert(others =~= d.pools);
            }
        },
        _ => {},
    }
    let e = d.applied(index, cmd, out)->0;
    assert(e.tapes.dom() =~= c2.tapes.dom());
    assert(in_step(e, c2));
    assert forall|b: Seq<char>, u: Seq<char>| e.pools.contains_key(u) implies (
    #[trigger] e.tapes_in(u).contains_key(b) <==> (c2.tapes.contains_key(b) && c2.tapes[b]
        == u)) by {
        assert(e.tapes.contains_key(b) == c2.tapes.contains_key(b)) by {
            assert(e.tapes.dom().contains(b) == c2.tapes.dom().contains(b));
        }
    }
}

/// A record without a version takes no path from another tape.
pub proof fn law_unversioned_record_takes_no_path(rows: Rows, k: Key, row: RowView)
    requires
        rows.contains_key(k),
        row.barcode != rows[k].barcode,
        row.version == (0u64, 0u64),
    ensures
        upserted(rows, k, row) == rows,
{
}

/// A removal that takes over hides the path: it is not listed, whatever stood there before, and
/// every other path is as it was.
pub proof fn law_removal_hides_the_path(rows: Rows, k: Key, row: RowView, files_only: bool)
    requires
        row.deleted,
        rows.contains_key(k) ==> takes_over(row, rows[k]),
    ensures
        !there(pool_rows(upserted(rows, k, row), k.0), files_only).contains_key(k.1),
        forall|p: Seq<char>|
            p != k.1 ==> there(pool_rows(upserted(rows, k, row), k.0), files_only).contains_key(p)
                == #[trigger] there(pool_rows(rows, k.0), files_only).contains_key(p),
{
}

/// `staging` with the parts of a commit added, numbered from 0 on.
pub open spec fn with_parts(
    staging: Seq<StagedView>,
    barcode: Seq<char>,
    generation: u64,
    parts: Seq<Seq<FileRecView>>,
) -> Seq<StagedView>
    decreases parts.len(),
{
    if parts.len() == 0 {
        staging
    } else {
        with_parts(staging, barcode, generation, parts.drop_last()) + staged_part(
            barcode,
            generation,
            (parts.len() - 1) as u32,
            parts.last(),
        )
    }
}

proof fn lemma_same_part_staged(
    staging: Seq<StagedView>,
    more: Seq<StagedView>,
    barcode: Seq<char>,
    generation: u64,
    part: u32,
)
    requires
        more.len() > 0,
        forall|i: int|
            0 <= i < more.len() ==> (#[trigger] more[i]).barcode == barcode && more[i].generation
                == generation && more[i].part == part,
    ensures
        parts_of(staging + more, barcode, generation) == parts_of(
            staging,
            barcode,
            generation,
        ).insert(part),
    decreases more.len(),
{
    let all = staging + more;
    assert(all.last() == more[more.len() - 1]);
    assert(all.drop_last() =~= staging + more.drop_last());
    if more.len() == 1 {
        assert(staging + more.drop_last() =~= staging);
    } else {
        lemma_same_part_staged(staging, more.drop_last(), barcode, generation, part);
    }
    assert(parts_of(all, barcode, generation) =~= parts_of(staging, barcode, generation).insert(
        part,
    ));
}

proof fn lemma_parts_counted(
    staging: Seq<StagedView>,
    barcode: Seq<char>,
    generation: u64,
    parts: Seq<Seq<FileRecView>>,
)
    requires
        parts_of(staging, barcode, generation) == Set::<u32>::empty(),
        parts.len() <= u32::MAX,
    ensures
        ({
            let s = parts_of(
                with_parts(staging, barcode, generation, parts),
                barcode,
                generation,
            );
            &&& s.finite()
            &&& s.len() == parts.len()
            &&& forall|x: u32| #[trigger] s.contains(x) ==> x < parts.len()
        }),
    decreases parts.len(),
{
    if parts.len() > 0 {
        lemma_parts_counted(staging, barcode, generation, parts.drop_last());
        lemma_same_part_staged(
            with_parts(staging, barcode, generation, parts.drop_last()),
            staged_part(barcode, generation, (parts.len() - 1) as u32, parts.last()),
            barcode,
            generation,
            (parts.len() - 1) as u32,
        );
    }
}

/// A commit that arrives with all its parts, when none of them was there before, is taken in: the
/// directory has its generation then, so that it is not behind the tape.
pub proof fn law_whole_commit_is_taken_in(
    d: DirectoryView,
    barcode: Seq<char>,
    summary: SummaryView,
    parts: Seq<Seq<FileRecView>>,
    full: bool,
)
    requires
        d.tapes.contains_key(barcode),
        parts_of(d.staging, barcode, summary.generation) == Set::<u32>::empty(),
        parts.len() <= u32::MAX,
    ensures
        ({
            let g = summary.generation;
            let staging = with_parts(d.staging, barcode, g, parts);
            let after = (DirectoryView { staging, ..d }).committed(
                barcode,
                summary,
                parts.len() as u32,
                full,
            );
            &&& after.listed(barcode) == g
            &&& after.files == merged(
                if full {
                    rows_off(d.files, barcode)
                } else {
                    d.files
                },
                staging,
                barcode,
                g,
                d.tapes[barcode].pool_uuid,
            )
        }),
{
    lemma_parts_counted(d.staging, barcode, summary.generation, parts);
}

/// What an incomplete commit had staged is gone when it is dropped, so that it cannot be taken for
/// parts of the commit that makes it good.
pub proof fn law_dropped_commit_leaves_nothing_staged(
    d: DirectoryView,
    barcode: Seq<char>,
    summary: SummaryView,
    parts: u32,
    full: bool,
)
    ensures
        parts_of(
            d.committed(barcode, summary, parts, full).staging,
            barcode,
            summary.generation,
        ) == Set::<u32>::empty(),
{
    lemma_nothing_staged(d.staging, barcode, summary.generation);
}

proof fn lemma_nothing_staged(staging: Seq<StagedView>, barcode: Seq<char>, generation: u64)
    ensures
        parts_of(unstaged(staging, barcode, generation), barcode, generation) == Set::<
            u32,
        >::empty(),
    decreases staging.len(),
{
    if staging.len() > 0 {
        lemma_nothing_staged(staging.drop_last(), barcode, generation);
        let rest = unstaged(staging.drop_last(), barcode, generation);
        let s = staging.last();
        if !(s.barcode == barcode && s.generation <= generation) {
            assert(rest.push(s).drop_last() =~= rest);
        }
    }
}

} // verus!
