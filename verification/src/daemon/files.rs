//! The file service: uploads, removals, directories, renames and attribute changes, and what a
//! client sees of them.
//!
//! An upload that is taken in is only staged on this node; it is archived when the volume commits
//! the batch that holds it. Finishing an upload and queueing it are one step, and so are taking
//! the queue and freezing the batch, so a batch covers exactly the files that go to tape.
//!
//! When the service closes, a task that is only staged has failed, and one whose batch was under
//! way is left open: the path tells what came of it. A removal goes the same way as an upload and
//! puts a tombstone on the tape.
use std::sync::Arc;
use vstd::prelude::*;

use crate::daemon::encoding;
use crate::daemon::nodes;
use crate::daemon::nodes::{FileMetadata, FileMetadataView, Xattr, XattrView};
use crate::daemon::paths;
use crate::daemon::paths::{InFlight, ServiceError, ServiceErrorView};
use crate::daemon::state;
use crate::daemon::state::{FileRec, FileRecView};
use crate::daemon::tape_state;
use crate::engine::tree::DirNode;
use crate::engine::volume_state;
use crate::engine::volume_state::{
    BatchView, FrozenBatch, PendingEntry, PendingState, S4Evidence, StateError, StateErrorView,
    VolumeState, VolumeView,
};
use crate::idmap::IdMap;
use crate::json;
use crate::json::{Json, JsonView};
use crate::strmap;
use crate::strmap::{Dup, StrMap, StrSet};
use crate::text;

verus! {

/// When a batch is committed: as soon as any of the four is reached. Bytes and files are
/// thresholds, no limits: a batch takes everything that is queued.
#[derive(Debug, Clone, Copy, PartialEq, Eq, Structural)]
pub struct BatchPolicy {
    /// Bytes in the queue.
    pub max_bytes: u64,
    /// Files in the queue.
    pub max_files: usize,
    /// Milliseconds without a new upload.
    pub idle: u64,
    /// Milliseconds that the oldest upload in the queue waits.
    pub max_wait: u64,
}

impl Default for BatchPolicy {
    fn default() -> (r: Self)
        ensures
            r == (BatchPolicy {
                max_bytes: 0x2_0000_0000,
                max_files: 20_000,
                idle: 2_000,
                max_wait: 60_000,
            }),
    {
        BatchPolicy { max_bytes: 0x2_0000_0000, max_files: 20_000, idle: 2_000, max_wait: 60_000 }
    }
}

/// The tape that is served.
#[derive(Debug, Clone, PartialEq, Eq)]
pub struct TapeIdent {
    pub barcode: String,
    pub pool_uuid: String,
}

#[verifier::ext_equal]
pub struct TapeIdentView {
    pub barcode: Seq<char>,
    pub pool_uuid: Seq<char>,
}

impl View for TapeIdent {
    type V = TapeIdentView;

    open spec fn view(&self) -> TapeIdentView {
        TapeIdentView { barcode: self.barcode@, pool_uuid: self.pool_uuid@ }
    }
}

impl Dup for TapeIdent {
    fn dup(&self) -> (r: Self) {
        TapeIdent { barcode: self.barcode.clone(), pool_uuid: self.pool_uuid.clone() }
    }
}

/// What the tape can take.
#[derive(Debug, Clone, Copy, PartialEq, Eq, Structural)]
pub struct TapeLimits {
    /// Files that the pool allows on one tape.
    pub file_limit: u64,
    /// Bytes that an empty tape takes beyond its reserve.
    pub usable_capacity: u64,
}

/// What came of a task.
#[derive(Debug, Clone, PartialEq, Eq)]
pub enum TaskStatus {
    /// Wholly staged on this node, not on tape yet.
    Staged,
    /// On tape, in the index of this generation.
    Committed { generation: u64 },
    /// Certainly not on tape.
    Failed { reason: String },
    /// In a batch whose commit was not confirmed.
    Indeterminate { reason: String },
}

#[verifier::ext_equal]
pub enum TaskView {
    Staged,
    Committed { generation: u64 },
    Failed { reason: Seq<char> },
    Indeterminate { reason: Seq<char> },
}

impl View for TaskStatus {
    type V = TaskView;

    open spec fn view(&self) -> TaskView {
        match *self {
            TaskStatus::Staged => TaskView::Staged,
            TaskStatus::Committed { generation } => TaskView::Committed { generation },
            TaskStatus::Failed { reason } => TaskView::Failed { reason: reason@ },
            TaskStatus::Indeterminate { reason } => TaskView::Indeterminate { reason: reason@ },
        }
    }
}

impl Dup for TaskStatus {
    fn dup(&self) -> (r: Self) {
        match self {
            TaskStatus::Staged => TaskStatus::Staged,
            TaskStatus::Committed { generation } => {
                TaskStatus::Committed { generation: *generation }
            },
            TaskStatus::Failed { reason } => TaskStatus::Failed { reason: reason.clone() },
            TaskStatus::Indeterminate { reason } => {
                TaskStatus::Indeterminate { reason: reason.clone() }
            },
        }
    }
}

/// Where a renamed node comes from.
#[derive(Debug, Clone, PartialEq, Eq)]
pub struct RenameFrom {
    pub path: String,
    /// This is the node that the rename names, not one below it.
    pub root: bool,
}

/// A change of one attribute; no value takes it away.
#[derive(Debug, PartialEq, Eq)]
pub struct XattrChange {
    pub key: String,
    pub value: Option<Xattr>,
}

/// A change that waits for its batch.
#[derive(Debug, PartialEq, Eq)]
pub struct Upload {
    pub task: u64,
    pub path: String,
    /// Where the content is staged, empty where there is none.
    pub spool: String,
    pub len: u64,
    /// A removal: a tombstone goes to tape.
    pub delete: bool,
    pub directory: bool,
    pub symlink_target: Option<String>,
    pub rename_from: Option<RenameFrom>,
    pub xattr_change: Option<XattrChange>,
    pub metadata: Option<FileMetadata>,
}

#[verifier::ext_equal]
pub struct UploadView {
    pub task: u64,
    pub path: Seq<char>,
    pub spool: Seq<char>,
    pub len: u64,
    pub delete: bool,
    pub directory: bool,
    pub symlink_target: Option<Seq<char>>,
    pub rename_from: Option<(Seq<char>, bool)>,
    pub xattr_change: Option<(Seq<char>, Option<XattrView>)>,
    pub metadata: Option<FileMetadataView>,
}

impl View for Upload {
    type V = UploadView;

    open spec fn view(&self) -> UploadView {
        UploadView {
            task: self.task,
            path: self.path@,
            spool: self.spool@,
            len: self.len,
            delete: self.delete,
            directory: self.directory,
            symlink_target: nodes::text_view(self.symlink_target),
            rename_from: match self.rename_from {
                Some(f) => Some((f.path@, f.root)),
                None => None,
            },
            xattr_change: match self.xattr_change {
                Some(c) => Some(
                    (
                        c.key@,
                        match c.value {
                            Some(x) => Some(x@),
                            None => None,
                        },
                    ),
                ),
                None => None,
            },
            metadata: match self.metadata {
                Some(m) => Some(m@),
                None => None,
            },
        }
    }
}

pub open spec fn upload_views(v: Seq<Upload>) -> Seq<UploadView> {
    v.map_values(|u: Upload| u@)
}

/// A change with nothing but a task and a path.
pub open spec fn bare(task: u64, path: Seq<char>) -> UploadView {
    UploadView {
        task,
        path,
        spool: Seq::empty(),
        len: 0,
        delete: false,
        directory: false,
        symlink_target: None,
        rename_from: None,
        xattr_change: None,
        metadata: None,
    }
}

fn bare_upload(task: u64, path: String) -> (r: Upload)
    ensures
        r@ == bare(task, path@),
        r.task == task,
        r.path == path,
        r.symlink_target is None,
        r.rename_from is None,
        r.xattr_change is None,
        r.metadata is None,
        r.spool@ == Seq::<char>::empty(),
{
    let r = Upload {
        task,
        path,
        spool: String::new(),
        len: 0,
        delete: false,
        directory: false,
        symlink_target: None,
        rename_from: None,
        xattr_change: None,
        metadata: None,
    };
    assert(r.spool@ =~= Seq::<char>::empty());
    r
}

/// An upload that has been let in. It is finished or given up.
#[derive(Debug, PartialEq, Eq)]
pub struct UploadHandle {
    pub task: u64,
    pub path: String,
    pub round: u64,
}

#[verifier::ext_equal]
pub struct HandleView {
    pub task: u64,
    pub path: Seq<char>,
    pub round: u64,
}

impl View for UploadHandle {
    type V = HandleView;

    open spec fn view(&self) -> HandleView {
        HandleView { task: self.task, path: self.path@, round: self.round }
    }
}

/// What is committed on a path.
#[derive(Debug)]
pub struct Stat {
    pub len: u64,
    pub generation: u64,
    pub round: u64,
    pub barcode: String,
    /// Lower-case hexadecimal, empty where the file has no hash.
    pub sha256: String,
    /// The path was deleted here.
    pub deleted: bool,
    pub version: (u64, u64),
    pub metadata: Arc<Json>,
}

#[verifier::ext_equal]
pub struct StatView {
    pub len: u64,
    pub generation: u64,
    pub round: u64,
    pub barcode: Seq<char>,
    pub sha256: Seq<char>,
    pub deleted: bool,
    pub version: (u64, u64),
    pub metadata: JsonView,
}

impl View for Stat {
    type V = StatView;

    open spec fn view(&self) -> StatView {
        StatView {
            len: self.len,
            generation: self.generation,
            round: self.round,
            barcode: self.barcode@,
            sha256: self.sha256@,
            deleted: self.deleted,
            version: self.version,
            metadata: self.metadata@,
        }
    }
}

impl Dup for Stat {
    fn dup(&self) -> (r: Self) {
        Stat {
            len: self.len,
            generation: self.generation,
            round: self.round,
            barcode: self.barcode.clone(),
            sha256: self.sha256.clone(),
            deleted: self.deleted,
            version: self.version,
            metadata: self.metadata.clone(),
        }
    }
}

impl StatView {
    /// The node is on the tape `barcode`.
    pub open spec fn on(self, barcode: Seq<char>) -> bool {
        !self.deleted && self.barcode == barcode
    }
}

/// One serving of a tape.
#[derive(Debug)]
pub struct Serving {
    draining: bool,
    round: u64,
    /// Tells this serving from every other.
    serial: u64,
    volume: VolumeState,
    queue: Vec<Upload>,
    queue_bytes: u64,
    oldest: Option<u64>,
    newest: Option<u64>,
    in_batch: Vec<u64>,
    namespace_pending: StrSet,
    opened: u64,
    tape: TapeIdent,
    limits: TapeLimits,
    admitted: u64,
    switch: Option<String>,
    recent: StrMap<Stat>,
}

#[verifier::ext_equal]
pub struct ServingView {
    /// No new change is taken.
    pub draining: bool,
    pub round: u64,
    pub serial: u64,
    pub volume: VolumeView,
    /// Finished changes, in the order in which they came.
    pub queue: Seq<UploadView>,
    pub queue_bytes: u64,
    /// When the oldest and the newest change in the queue came.
    pub oldest: Option<u64>,
    pub newest: Option<u64>,
    /// The tasks of the batch that is under way.
    pub in_batch: Seq<u64>,
    /// Paths whose pending change is no upload.
    pub namespace_pending: Set<Seq<char>>,
    pub opened: u64,
    pub tape: TapeIdentView,
    pub limits: TapeLimits,
    /// Changes let in and not settled yet.
    pub admitted: u64,
    /// The tape is to be switched, and its state then.
    pub switch: Option<Seq<char>>,
    /// What the served tape holds, as read when it was opened and committed since.
    pub recent: Map<Seq<char>, StatView>,
}

impl View for Serving {
    type V = ServingView;

    closed spec fn view(&self) -> ServingView {
        ServingView {
            draining: self.draining,
            round: self.round,
            serial: self.serial,
            volume: self.volume@,
            queue: upload_views(self.queue@),
            queue_bytes: self.queue_bytes,
            oldest: self.oldest,
            newest: self.newest,
            in_batch: self.in_batch@,
            namespace_pending: self.namespace_pending@,
            opened: self.opened,
            tape: self.tape@,
            limits: self.limits,
            admitted: self.admitted,
            switch: nodes::text_view(self.switch),
            recent: self.recent@,
        }
    }
}

/// What is read when there is no tape to write to.
#[derive(Debug, Clone, PartialEq, Eq)]
pub struct ReadOnly {
    pub round: u64,
    pub pool_uuid: String,
}

/// The file service.
#[derive(Debug)]
pub struct FileService {
    serving: Option<Serving>,
    why_not: String,
    no_tape: bool,
    read_only: Option<ReadOnly>,
    tasks: IdMap<TaskStatus>,
    next_task: u64,
    next_serial: u64,
    policy: BatchPolicy,
}

#[verifier::ext_equal]
pub struct ServiceView {
    pub serving: Option<ServingView>,
    /// Why nothing is served.
    pub why_not: Seq<char>,
    /// Nothing is served because the pool has no tape to write to.
    pub no_tape: bool,
    /// The round and the pool that are still read.
    pub read_only: Option<(u64, Seq<char>)>,
    pub tasks: Map<u64, TaskView>,
    pub next_task: u64,
    pub next_serial: u64,
    pub policy: BatchPolicy,
}

impl View for FileService {
    type V = ServiceView;

    closed spec fn view(&self) -> ServiceView {
        ServiceView {
            serving: match self.serving {
                Some(s) => Some(s@),
                None => None,
            },
            why_not: self.why_not@,
            no_tape: self.no_tape,
            read_only: match self.read_only {
                Some(r) => Some((r.round, r.pool_uuid@)),
                None => None,
            },
            tasks: self.tasks@,
            next_task: self.next_task,
            next_serial: self.next_serial,
            policy: self.policy,
        }
    }
}

/// Live nodes by path; the value tells whether the node is a directory.
pub type Nodes = Map<Seq<char>, bool>;

impl ServingView {
    /// Holds of every serving.
    pub open spec fn wf(self) -> bool {
        self.volume.wf()
    }

    /// The counters can take `n` more steps.
    pub open spec fn room(self, n: nat) -> bool {
        &&& self.volume.room(n)
        &&& self.admitted + self.recent.dom().len() + n <= u64::MAX
    }

    /// The live nodes near `path`: what the directory says, corrected by what this tape holds.
    pub open spec fn near(self, path: Seq<char>, live: Nodes) -> Nodes {
        let known = |p: Seq<char>| self.recent.contains_key(p) && paths::related(p, path);
        Map::new(
            |p: Seq<char>|
                if known(p) {
                    !self.recent[p].deleted
                } else {
                    live.contains_key(p)
                },
            |p: Seq<char>|
                if known(p) {
                    nodes::dir_kind(self.recent[p].metadata)
                } else {
                    live[p]
                },
        )
    }

    /// A change is pending on `path`, above it or below it.
    pub open spec fn busy(self, path: Seq<char>) -> bool {
        exists|p: Seq<char>| #[trigger]
            self.volume.current.pending.contains_key(p) && paths::related(p, path)
    }

    /// The files on this tape, tombstones counted.
    pub open spec fn file_count(self) -> nat {
        self.recent.dom().filter(
            |p: Seq<char>| !nodes::dir_kind(self.recent[p].metadata),
        ).len()
    }

    /// No further file is taken.
    pub open spec fn at_file_limit(self) -> bool {
        self.file_count() + self.admitted >= self.limits.file_limit
    }

    /// Whole seconds since this serving was opened.
    pub open spec fn seconds(self, now: u64) -> u64 {
        (if now >= self.opened {
            (now - self.opened) / 1000
        } else {
            0
        }) as u64
    }

    /// With one more finished change.
    pub open spec fn queued(self, u: UploadView, now: u64) -> ServingView {
        ServingView {
            queue: self.queue.push(u),
            oldest: if self.oldest is Some {
                self.oldest
            } else {
                Some(now)
            },
            newest: Some(now),
            ..self
        }
    }
}

/// The first of `keys` that is a file above `path`.
pub open spec fn file_above(keys: Seq<Seq<char>>, live: Nodes, path: Seq<char>) -> Option<Seq<char>>
    decreases keys.len(),
{
    if keys.len() == 0 {
        None
    } else if !live[keys[0]] && paths::below(path, keys[0]) {
        Some(keys[0])
    } else {
        file_above(keys.drop_first(), live, path)
    }
}

/// The uppermost file that lies above `path`, where there is one.
pub open spec fn blocking_file(live: Nodes, path: Seq<char>) -> Option<Seq<char>> {
    file_above(strmap::sorted_keys(live), live, path)
}

/// Something lies below `path`.
pub open spec fn has_children(live: Nodes, path: Seq<char>) -> bool {
    exists|p: Seq<char>| #[trigger] live.contains_key(p) && paths::below(p, path)
}

/// `path` is a live directory.
pub open spec fn live_dir(live: Nodes, path: Seq<char>) -> bool {
    live.contains_key(path) && live[path]
}

/// `path` is a live file.
pub open spec fn live_file(live: Nodes, path: Seq<char>) -> bool {
    live.contains_key(path) && !live[path]
}

fn find_blocking_file(live: &StrMap<bool>, path: &str) -> (r: Option<String>)
    ensures
        nodes::text_view(r) == blocking_file(live@, path@),
{
    let n = live.len();
    let ghost ks = strmap::sorted_keys(live@);
    let mut i: usize = 0;
    assert(ks.skip(0) =~= ks);
    while i < n
        invariant
            i <= n == ks.len(),
            ks == strmap::sorted_keys(live@),
            forall|j: int| 0 <= j < n ==> live@.contains_key(#[trigger] ks[j]),
            blocking_file(live@, path@) == file_above(ks.skip(i as int), live@, path@),
        decreases n - i,
    {
        let p = live.key_at(i);
        assert(ks.skip(i as int)[0] == p@);
        assert(ks.skip(i as int).drop_first() =~= ks.skip(i + 1));
        if !*live.value_at(i) && paths::descendant(path, p.as_str()) {
            return Some(p.clone());
        }
        i += 1;
    }
    None
}

fn find_children(live: &StrMap<bool>, path: &str) -> (r: bool)
    ensures
        r == has_children(live@, path@),
{
    let n = live.len();
    let ghost ks = strmap::sorted_keys(live@);
    let mut i: usize = 0;
    while i < n
        invariant
            i <= n == ks.len(),
            ks == strmap::sorted_keys(live@),
            forall|j: int| 0 <= j < n ==> live@.contains_key(#[trigger] ks[j]),
            forall|j: int| 0 <= j < i ==> !paths::below(#[trigger] ks[j], path@),
        decreases n - i,
    {
        if paths::descendant(live.key_at(i).as_str(), path) {
            assert(live@.contains_key(ks[i as int]));
            return true;
        }
        i += 1;
    }
    assert forall|p: Seq<char>| #[trigger] live@.contains_key(p) implies !paths::below(
        p,
        path@,
    ) by {
        assert(ks.contains(p));
    }
    false
}

impl Serving {
    fn is_busy(&self, path: &str) -> (r: bool)
        ensures
            r == self@.busy(path@),
    {
        let root = self.volume.load();
        let pending = &*root.pending;
        let n = pending.len();
        let ghost ks = strmap::sorted_keys(pending@);
        let mut i: usize = 0;
        while i < n
            invariant
                i <= n == ks.len(),
                ks == strmap::sorted_keys(pending@),
                pending@ == self@.volume.current.pending,
                forall|j: int| 0 <= j < n ==> pending@.contains_key(#[trigger] ks[j]),
                forall|j: int| 0 <= j < i ==> !paths::related(#[trigger] ks[j], path@),
            decreases n - i,
        {
            if paths::are_related(pending.key_at(i).as_str(), path) {
                assert(self@.volume.current.pending.contains_key(ks[i as int]));
                return true;
            }
            i += 1;
        }
        assert forall|p: Seq<char>| #[trigger]
            self@.volume.current.pending.contains_key(p) implies !paths::related(p, path@) by {
            assert(ks.contains(p));
        }
        false
    }

    fn nodes_near(&self, path: &str, live: &StrMap<bool>) -> (r: StrMap<bool>)
        ensures
            r@ == self@.near(path@, live@),
    {
        let mut out = live.dup();
        let n = self.recent.len();
        let ghost ks = strmap::sorted_keys(self.recent@);
        let ghost near = self@.near(path@, live@);
        let mut i: usize = 0;
        while i < n
            invariant
                i <= n == ks.len(),
                ks == strmap::sorted_keys(self.recent@),
                ks.no_duplicates(),
                near == self@.near(path@, live@),
                self@.recent == self.recent@,
                forall|j: int| 0 <= j < n ==> self.recent@.contains_key(#[trigger] ks[j]),
                forall|j: int|
                    0 <= j < i ==> (out@.contains_key(#[trigger] ks[j]) <==> near.contains_key(
                        ks[j],
                    )) && (near.contains_key(ks[j]) ==> out@[ks[j]] == near[ks[j]]),
                forall|p: Seq<char>| #[trigger]
                    out@.contains_key(p) && !ks.take(i as int).contains(p)
                        ==> live@.contains_key(p) && out@[p] == live@[p],
                forall|p: Seq<char>| #[trigger]
                    live@.contains_key(p) && !ks.take(i as int).contains(p)
                        ==> out@.contains_key(p),
            decreases n - i,
        {
            let p = self.recent.key_at(i);
            let st = self.recent.value_at(i);
            let ghost before = out@;
            let ghost now = ks.take(i + 1);
            assert(now =~= ks.take(i as int).push(p@));
            assert(now[i as int] == p@);
            assert(!ks.take(i as int).contains(p@)) by {
                if ks.take(i as int).contains(p@) {
                    let j = choose|j: int| 0 <= j < i && ks.take(i as int)[j] == p@;
                    assert(ks[j] == ks[i as int]);
                }
            }
            assert forall|q: Seq<char>| now.contains(q) == (ks.take(i as int).contains(q) || q
                == p@) by {
                if ks.take(i as int).contains(q) {
                    let j = choose|j: int| 0 <= j < i && ks.take(i as int)[j] == q;
                    assert(now[j] == q);
                }
            }
            if paths::are_related(p.as_str(), path) {
                if st.deleted {
                    out.remove(p.as_str());
                } else {
                    out.insert(p.clone(), nodes::is_directory(&st.metadata));
                }
            }
            i += 1;
        }
        assert(ks.take(i as int) =~= ks);
        assert(out@ =~= near) by {
            assert forall|p: Seq<char>| out@.contains_key(p) == near.contains_key(p) by {
                if self.recent@.contains_key(p) {
                    assert(ks.contains(p));
                } else {
                    assert(!ks.contains(p));
                }
            }
            assert forall|p: Seq<char>| out@.contains_key(p) implies out@[p] == near[p] by {
                if self.recent@.contains_key(p) {
                    assert(ks.contains(p));
                } else {
                    assert(!ks.contains(p));
                }
            }
        }
        out
    }

    fn count_files(&self) -> (r: usize)
        ensures
            r == self@.file_count(),
            r <= self@.recent.dom().len(),
    {
        let n = self.recent.len();
        let ghost ks = strmap::sorted_keys(self.recent@);
        let ghost is_file = |p: Seq<char>| !nodes::dir_kind(self.recent@[p].metadata);
        let mut count: usize = 0;
        let mut i: usize = 0;
        let ghost mut seen: Set<Seq<char>> = Set::empty();
        while i < n
            invariant
                i <= n == ks.len(),
                count <= i,
                ks == strmap::sorted_keys(self.recent@),
                ks.no_duplicates(),
                forall|j: int| 0 <= j < n ==> self.recent@.contains_key(#[trigger] ks[j]),
                is_file == (|p: Seq<char>| !nodes::dir_kind(self.recent@[p].metadata)),
                seen.finite(),
                seen.len() == count,
                forall|p: Seq<char>| #[trigger]
                    seen.contains(p) <==> is_file(p) && exists|j: int| 0 <= j < i && ks[j] == p,
            decreases n - i,
        {
            if !nodes::is_directory(&self.recent.value_at(i).metadata) {
                proof {
                    assert(is_file(ks[i as int]));
                    assert(!seen.contains(ks[i as int]));
                    seen = seen.insert(ks[i as int]);
                }
                count += 1;
            }
            i += 1;
        }
        assert(seen =~= self@.recent.dom().filter(
            |p: Seq<char>| !nodes::dir_kind(self@.recent[p].metadata),
        )) by {
            assert forall|p: Seq<char>| seen.contains(p) == self@.recent.dom().filter(
                |p: Seq<char>| !nodes::dir_kind(self@.recent[p].metadata),
            ).contains(p) by {
                if self@.recent.contains_key(p) {
                    assert(ks.contains(p));
                }
                if seen.contains(p) {
                    assert(is_file(p));
                }
            }
        }
        count
    }

    fn is_at_file_limit(&self) -> (r: bool)
        requires
            self@.room(0),
        ensures
            r == self@.at_file_limit(),
    {
        self.count_files() as u64 + self.admitted >= self.limits.file_limit
    }

    fn elapsed(&self, now: u64) -> (r: u64)
        ensures
            r == self@.seconds(now),
    {
        if now >= self.opened {
            (now - self.opened) / 1000
        } else {
            0
        }
    }

    fn enqueue(&mut self, u: Upload, now: u64)
        ensures
            final(self)@ == old(self)@.queued(u@, now),
    {
        let ghost was = self.queue@;
        self.queue.push(u);
        assert(upload_views(self.queue@) =~= upload_views(was).push(u@));
        if self.oldest.is_none() {
            self.oldest = Some(now);
        }
        self.newest = Some(now);
    }
}

/// The volume with a session for `task` opened.
pub open spec fn session_opened(v: VolumeView, task: u64) -> VolumeView {
    v.installed(v.current.with_session(task, u64::MAX))
}

/// The volume with the pending change on `path` ready for the next batch.
pub open spec fn change_ready(v: VolumeView, path: Seq<char>) -> VolumeView {
    v.with_pending(
        path,
        PendingEntry { state: PendingState::Ready, ..v.current.pending[path] },
    )
}

/// The volume with the pending change on `path` taking over data that is on the volume.
pub open spec fn reference_staged(v: VolumeView, path: Seq<char>, len: u64) -> VolumeView {
    v.with_pending(path, PendingEntry { staged_len: len, ..v.current.pending[path] })
}

/// The volume with the session of `task` ended.
pub open spec fn session_ended(v: VolumeView, task: u64) -> VolumeView {
    if v.current.sessions.contains_key(task) {
        v.installed(
            if v.current.active(task) {
                v.current.with_ended(set![task])
            } else {
                v.current.next()
            },
        )
    } else {
        v
    }
}

/// `r` is the outcome `e`: success where there is no error.
pub open spec fn answered<T>(r: Result<T, ServiceError>, e: Option<ServiceErrorView>) -> bool {
    match e {
        None => r is Ok,
        Some(e) => r is Err && r->Err_0@ == e,
    }
}

impl ServingView {
    /// Why no change is taken, going by the serving that the caller has seen.
    pub open spec fn entry_refusal(self, seen: u64) -> Option<ServiceErrorView> {
        if self.draining {
            Some(ServiceErrorView::NotServing("正在停机"@))
        } else if seen != self.serial {
            Some(ServiceErrorView::NotServing("查询期间服务卷已切换，请重试"@))
        } else {
            None
        }
    }

    /// Why no file can be written or removed at `path`, if none can.
    pub open spec fn file_refusal(self, path: Seq<char>, near: Nodes) -> Option<ServiceErrorView> {
        if self.busy(path) {
            Some(ServiceErrorView::PathBusy(path))
        } else {
            match blocking_file(near, path) {
                Some(p) => Some(ServiceErrorView::NotDirectory(p)),
                None => if live_dir(near, path) || has_children(near, path) {
                    Some(ServiceErrorView::IsDirectory(path))
                } else {
                    None
                },
            }
        }
    }

    /// What is said while the tape is being switched.
    pub open spec fn switching(self) -> ServiceErrorView {
        ServiceErrorView::SwitchingTape(self.tape.barcode + " 已 "@ + self.switch->0)
    }

    /// With a switch of the tape asked for.
    pub open spec fn to_switch(self, state: Seq<char>) -> ServingView {
        ServingView { switch: Some(state), ..self }
    }

    /// What is said at the file limit.
    pub open spec fn limit_message(self) -> ServiceErrorView {
        ServiceErrorView::SwitchingTape(
            self.tape.barcode + " 的文件数已到上限 "@ + text::decimal(
                self.limits.file_limit as nat,
            ),
        )
    }

    /// Lets an upload in: what becomes of the serving, and the error where it is refused. A tape
    /// at its file limit, or too full for this file, is switched.
    pub open spec fn begun(
        self,
        task: u64,
        path: Seq<char>,
        len: u64,
        create_only: bool,
        seen: u64,
        live: Nodes,
        now: u64,
    ) -> (ServingView, Option<ServiceErrorView>) {
        let near = self.near(path, live);
        if self.entry_refusal(seen) is Some {
            (self, self.entry_refusal(seen))
        } else if create_only && near.contains_key(path) {
            (self, Some(ServiceErrorView::Exists(path)))
        } else if self.file_refusal(path, near) is Some {
            (self, self.file_refusal(path, near))
        } else if len > self.limits.usable_capacity {
            (
                self,
                Some(
                    ServiceErrorView::TooLarge {
                        requested: len,
                        tape_capacity: self.limits.usable_capacity,
                    },
                ),
            )
        } else if self.switch is Some {
            (self, Some(self.switching()))
        } else if self.at_file_limit() {
            (self.to_switch(tape_state::DATA_FULL@), Some(self.limit_message()))
        } else {
            let v = session_opened(self.volume, task);
            match v.admission_refusal(task, path, len) {
                None => (
                    ServingView {
                        volume: v.admitted(task, path, len, self.seconds(now), false),
                        admitted: (self.admitted + 1) as u64,
                        ..self
                    },
                    None,
                ),
                Some(StateErrorView::InsufficientCapacity { requested, available }) => (
                    ServingView { volume: v, ..self }.to_switch(tape_state::FULL@),
                    Some(
                        ServiceErrorView::SwitchingTape(
                            self.tape.barcode + " 剩余 "@ + text::decimal(available as nat)
                                + " 字节，放不下 "@ + text::decimal(requested as nat)
                                + " 字节"@,
                        ),
                    ),
                ),
                Some(e) => (ServingView { volume: v, ..self }, Some(paths::mapped(e))),
            }
        }
    }
}

impl Serving {
    fn check_entry(&self, seen: u64) -> (r: Result<(), ServiceError>)
        ensures
            answered(r, self@.entry_refusal(seen)),
    {
        if self.draining {
            return Err(ServiceError::NotServing("正在停机".to_owned()));
        }
        if seen != self.serial {
            return Err(
                ServiceError::NotServing("查询期间服务卷已切换，请重试".to_owned()),
            );
        }
        Ok(())
    }

    fn check_file(&self, path: &str, near: &StrMap<bool>) -> (r: Result<(), ServiceError>)
        ensures
            answered(r, self@.file_refusal(path@, near@)),
    {
        if self.is_busy(path) {
            return Err(ServiceError::PathBusy(path.to_owned()));
        }
        match find_blocking_file(near, path) {
            Some(p) => {
                return Err(ServiceError::NotDirectory(p));
            },
            None => {},
        }
        if is_live(near, path, true) || find_children(near, path) {
            return Err(ServiceError::IsDirectory(path.to_owned()));
        }
        Ok(())
    }

    fn switch_error(&self) -> (r: Result<(), ServiceError>)
        ensures
            answered(
                r,
                if self@.switch is Some {
                    Some(self@.switching())
                } else {
                    None
                },
            ),
    {
        match &self.switch {
            Some(state) => Err(
                ServiceError::SwitchingTape(
                    text::cat3(self.tape.barcode.as_str(), " 已 ", state.as_str()),
                ),
            ),
            None => Ok(()),
        }
    }

    fn at_limit_error(&self) -> (r: ServiceError)
        ensures
            r@ == self@.limit_message(),
    {
        ServiceError::SwitchingTape(
            text::cat3(
                self.tape.barcode.as_str(),
                " 的文件数已到上限 ",
                text::decimal_text(self.limits.file_limit).as_str(),
            ),
        )
    }

    fn begin(
        &mut self,
        task: u64,
        path: &str,
        len: u64,
        create_only: bool,
        seen: u64,
        live: &StrMap<bool>,
        now: u64,
    ) -> (r: Result<(), ServiceError>)
        requires
            old(self)@.wf(),
            old(self)@.room(2),
        ensures
            final(self)@.wf(),
            ({
                let (s, e) = old(self)@.begun(task, path@, len, create_only, seen, live@, now);
                final(self)@ == s && answered(r, e)
            }),
    {
        match self.check_entry(seen) {
            Err(e) => {
                return Err(e);
            },
            Ok(_) => {},
        }
        let near = self.nodes_near(path, live);
        if create_only && near.contains_key(path) {
            return Err(ServiceError::Exists(path.to_owned()));
        }
        match self.check_file(path, &near) {
            Err(e) => {
                return Err(e);
            },
            Ok(_) => {},
        }
        if len > self.limits.usable_capacity {
            return Err(
                ServiceError::TooLarge {
                    requested: len,
                    tape_capacity: self.limits.usable_capacity,
                },
            );
        }
        match self.switch_error() {
            Err(e) => {
                return Err(e);
            },
            Ok(_) => {},
        }
        if self.is_at_file_limit() {
            let e = self.at_limit_error();
            self.switch = Some(tape_state::DATA_FULL.to_owned());
            return Err(e);
        }
        let seconds = self.elapsed(now);
        self.volume.open_session(task, 0xffff_ffff_ffff_ffff);
        match self.volume.admit_write(task, path, len, seconds) {
            Ok(_) => {
                self.admitted = self.admitted + 1;
                Ok(())
            },
            Err(StateError::InsufficientCapacity { requested, available }) => {
                let mut m = text::cat4(
                    self.tape.barcode.as_str(),
                    " 剩余 ",
                    text::decimal_text(available).as_str(),
                    " 字节，放不下 ",
                );
                m.push_str(text::decimal_text(requested).as_str());
                m.push_str(" 字节");
                self.switch = Some(tape_state::FULL.to_owned());
                Err(ServiceError::SwitchingTape(m))
            },
            Err(e) => Err(paths::map_state(e)),
        }
    }
}

fn is_live(live: &StrMap<bool>, path: &str, directory: bool) -> (r: bool)
    ensures
        r == (live@.contains_key(path@) && live@[path@] == directory),
{
    match live.get(path) {
        Some(d) => *d == directory,
        None => false,
    }
}

impl ServiceView {
    /// Holds of every state.
    pub open spec fn wf(self) -> bool {
        self.serving is Some ==> self.serving->0.wf()
    }

    /// The counters can take `n` more steps.
    pub open spec fn room(self, n: nat) -> bool {
        &&& self.next_task < u64::MAX
        &&& self.serving is Some ==> self.serving->0.room(n)
    }

    /// The counters can take content of an upload.
    pub open spec fn takes(self, h: HandleView, bytes: u64) -> bool {
        self.serving matches Some(s) ==> {
            let cur = s.volume.current;
            &&& s.volume.room(1)
            &&& cur.ledger.consumed_since_cut + bytes <= u64::MAX
            &&& cur.pending.contains_key(h.path) ==> cur.pending[h.path].staged_len + bytes
                <= u64::MAX
        }
    }

    /// The counters can take the end of an upload.
    pub open spec fn ends(self, len: u64) -> bool {
        self.serving matches Some(s) ==> s.volume.room(1) && s.queue_bytes + len <= u64::MAX
    }

    /// What a change is told when nothing is served.
    pub open spec fn closed_error(self) -> ServiceErrorView {
        if self.no_tape {
            ServiceErrorView::NoTape(self.why_not)
        } else {
            ServiceErrorView::NotServing(self.why_not)
        }
    }

    pub open spec fn with_serving(self, s: ServingView) -> ServiceView {
        ServiceView { serving: Some(s), ..self }
    }

    /// With an upload let in, and its handle or the error.
    pub open spec fn begun(
        self,
        path: Seq<char>,
        len: u64,
        create_only: bool,
        seen: u64,
        live: Nodes,
        now: u64,
    ) -> (ServiceView, Result<HandleView, ServiceErrorView>) {
        if !paths::good_path(path) {
            (self, Err(ServiceErrorView::BadPath(path)))
        } else {
            match self.serving {
                None => (self, Err(self.closed_error())),
                Some(s) => {
                    let p = paths::normal(path);
                    let (s2, e) = s.begun(self.next_task, p, len, create_only, seen, live, now);
                    match e {
                        Some(e) => (self.with_serving(s2), Err(e)),
                        None => (
                            ServiceView {
                                next_task: (self.next_task + 1) as u64,
                                ..self.with_serving(s2)
                            },
                            Ok(HandleView { task: self.next_task, path: p, round: s.round }),
                        ),
                    }
                },
            }
        }
    }
}

/// `r` is the outcome `v`.
pub open spec fn handed(
    r: Result<UploadHandle, ServiceError>,
    v: Result<HandleView, ServiceErrorView>,
) -> bool {
    match v {
        Ok(h) => r is Ok && r->Ok_0@ == h,
        Err(e) => r is Err && r->Err_0@ == e,
    }
}

impl FileService {
    fn closed_error(&self) -> (r: ServiceError)
        ensures
            r@ == self@.closed_error(),
    {
        if self.no_tape {
            ServiceError::NoTape(self.why_not.clone())
        } else {
            ServiceError::NotServing(self.why_not.clone())
        }
    }

    /// Whether the counters can take `n` more steps.
    pub fn has_room(&self, n: u64) -> (r: bool)
        ensures
            r == self@.room(n as nat),
    {
        if self.next_task == u64::MAX {
            return false;
        }
        match &self.serving {
            Some(s) => {
                let known: u64 = s.recent.len() as u64;
                s.volume.has_room(n) && s.admitted <= u64::MAX - known && s.admitted + known
                    <= u64::MAX - n
            },
            None => true,
        }
    }

    /// Whether the counters can take content of an upload.
    pub fn can_take(&self, h: &UploadHandle, bytes: u64) -> (r: bool)
        ensures
            r == self@.takes(h@, bytes),
    {
        match &self.serving {
            Some(s) => {
                let cur = s.volume.load();
                let staged: u64 = match cur.pending.get(h.path.as_str()) {
                    Some(e) => e.staged_len,
                    None => 0,
                };
                s.volume.has_room(1) && cur.ledger.consumed_since_cut <= u64::MAX - bytes && staged
                    <= u64::MAX - bytes
            },
            None => true,
        }
    }

    /// Whether the counters can take the end of an upload.
    pub fn can_end(&self, len: u64) -> (r: bool)
        ensures
            r == self@.ends(len),
    {
        match &self.serving {
            Some(s) => s.volume.has_room(1) && s.queue_bytes <= u64::MAX - len,
            None => true,
        }
    }

    /// A service that serves nothing yet.
    pub fn with_policy(policy: BatchPolicy) -> (r: Self)
        ensures
            r@ == (ServiceView {
                serving: None,
                why_not: "尚未接管"@,
                no_tape: false,
                read_only: None,
                tasks: Map::empty(),
                next_task: 1,
                next_serial: 1,
                policy,
            }),
            r@.wf(),
    {
        FileService {
            serving: None,
            why_not: "尚未接管".to_owned(),
            no_tape: false,
            read_only: None,
            tasks: IdMap::new(),
            next_task: 1,
            next_serial: 1,
            policy,
        }
    }

    /// A service that serves nothing yet, with the usual policy.
    pub fn new() -> (r: Self)
        ensures
            r@.serving is None,
            r@.why_not == "尚未接管"@,
            !r@.no_tape,
            r@.read_only is None,
            r@.tasks == Map::<u64, TaskView>::empty(),
            r@.next_task == 1,
            r@.policy == (BatchPolicy {
                max_bytes: 0x2_0000_0000,
                max_files: 20_000,
                idle: 2_000,
                max_wait: 60_000,
            }),
            r@.wf(),
    {
        Self::with_policy(BatchPolicy::default())
    }

    /// Where to look before a change at `path`: the path in its normal form, the serving that is
    /// asked, and the pool whose directory tells what lies near the path.
    pub fn namespace_target(&self, path: &str) -> (r: Result<(String, u64, String), ServiceError>)
        ensures
            if !paths::good_path(path@) {
                r is Err && r->Err_0@ == ServiceErrorView::BadPath(path@)
            } else {
                match self@.serving {
                    None => r is Err && r->Err_0@ == self@.closed_error(),
                    Some(s) => r is Ok && r->Ok_0.0@ == paths::normal(path@) && r->Ok_0.1
                        == s.serial && r->Ok_0.2@ == s.tape.pool_uuid,
                }
            },
    {
        let p = match paths::norm(path) {
            Ok(p) => p,
            Err(e) => {
                return Err(e);
            },
        };
        match &self.serving {
            Some(s) => Ok((p, s.serial, s.tape.pool_uuid.clone())),
            None => Err(self.closed_error()),
        }
    }

    /// Lets an upload in, over a committed version or not.
    pub fn begin(&mut self, path: &str, len: u64, seen: u64, live: &StrMap<bool>, now: u64) -> (r:
        Result<UploadHandle, ServiceError>)
        requires
            old(self)@.wf(),
            old(self)@.room(2),
        ensures
            final(self)@.wf(),
            ({
                let (v, h) = old(self)@.begun(path@, len, false, seen, live@, now);
                final(self)@ == v && handed(r, h)
            }),
    {
        self.begin_with(path, len, false, seen, live, now)
    }

    /// Lets an upload in: holds the path and sets space aside. With `create_only` a path that has
    /// a committed version is refused. `live` is what the directory says lies near the path, as
    /// found for the serving `seen`.
    pub fn begin_with(
        &mut self,
        path: &str,
        len: u64,
        create_only: bool,
        seen: u64,
        live: &StrMap<bool>,
        now: u64,
    ) -> (r: Result<UploadHandle, ServiceError>)
        requires
            old(self)@.wf(),
            old(self)@.room(2),
        ensures
            final(self)@.wf(),
            ({
                let (v, h) = old(self)@.begun(path@, len, create_only, seen, live@, now);
                final(self)@ == v && handed(r, h)
            }),
    {
        let p = match paths::norm(path) {
            Ok(p) => p,
            Err(e) => {
                return Err(e);
            },
        };
        let task = self.next_task;
        let why = self.closed_error();
        match &mut self.serving {
            Some(s) => {
                let round = s.round;
                match s.begin(task, p.as_str(), len, create_only, seen, live, now) {
                    Ok(_) => {
                        self.next_task = task + 1;
                        Ok(UploadHandle { task, path: p, round })
                    },
                    Err(e) => Err(e),
                }
            },
            None => Err(why),
        }
    }
}

impl ServingView {
    /// Queues a removal. One that a client asks for needs a file to remove; one that moves a
    /// tombstone here needs a path of which this tape says nothing.
    pub open spec fn removed(
        self,
        task: u64,
        path: Seq<char>,
        must_exist: bool,
        directory: bool,
        seen: u64,
        live: Nodes,
        now: u64,
    ) -> (ServingView, Option<ServiceErrorView>) {
        let near = self.near(path, live);
        if self.entry_refusal(seen) is Some {
            (self, self.entry_refusal(seen))
        } else if must_exist && self.file_refusal(path, near) is Some {
            (self, self.file_refusal(path, near))
        } else if must_exist && !near.contains_key(path) {
            (self, Some(ServiceErrorView::NotFound(path)))
        } else if !must_exist && self.busy(path) {
            (self, Some(ServiceErrorView::PathBusy(path)))
        } else if !must_exist && self.recent.contains_key(path) {
            (self, Some(ServiceErrorView::Exists(path)))
        } else if self.switch is Some {
            (self, Some(self.switching()))
        } else if self.at_file_limit() {
            (self.to_switch(tape_state::DATA_FULL@), Some(self.limit_message()))
        } else {
            let v = session_opened(self.volume, task);
            match v.admission_refusal(task, path, 0) {
                Some(e) => (ServingView { volume: v, ..self }, Some(paths::mapped(e))),
                None => (
                    ServingView {
                        volume: change_ready(
                            v.admitted(task, path, 0, self.seconds(now), true),
                            path,
                        ),
                        admitted: (self.admitted + 1) as u64,
                        namespace_pending: if directory {
                            self.namespace_pending.insert(path)
                        } else {
                            self.namespace_pending
                        },
                        ..self
                    }.queued(UploadView { delete: true, directory, ..bare(task, path) }, now),
                    None,
                ),
            }
        }
    }

    /// Why no directory or link can be made or removed at `path`, if none can. With `moved` the
    /// node is brought over from another tape.
    pub open spec fn node_refusal(
        self,
        path: Seq<char>,
        remove: bool,
        moved: bool,
        link: bool,
        near: Nodes,
    ) -> Option<ServiceErrorView> {
        let children = has_children(near, path);
        let parent = paths::parent_path(path);
        if self.busy(path) {
            Some(ServiceErrorView::PathBusy(path))
        } else if moved && self.recent.contains_key(path) {
            Some(ServiceErrorView::Exists(path))
        } else if blocking_file(near, path) is Some {
            Some(ServiceErrorView::NotDirectory(blocking_file(near, path)->0))
        } else if remove {
            if live_file(near, path) {
                Some(ServiceErrorView::NotDirectory(path))
            } else if children {
                Some(ServiceErrorView::NotEmpty(path))
            } else if !live_dir(near, path) {
                Some(ServiceErrorView::NotFound(path))
            } else {
                None
            }
        } else if !moved {
            if near.contains_key(path) || children {
                Some(ServiceErrorView::Exists(path))
            } else if parent.len() > 0 && !live_dir(near, parent) {
                Some(ServiceErrorView::NotFound(parent))
            } else {
                None
            }
        } else if link {
            if live_dir(near, path) || children {
                Some(ServiceErrorView::IsDirectory(path))
            } else {
                None
            }
        } else if live_file(near, path) {
            Some(ServiceErrorView::NotDirectory(path))
        } else {
            None
        }
    }

    /// Queues the making or removal of a directory, or the making of a link.
    pub open spec fn node_changed(
        self,
        task: u64,
        path: Seq<char>,
        remove: bool,
        metadata: Option<FileMetadataView>,
        link: Option<Seq<char>>,
        seen: u64,
        live: Nodes,
        now: u64,
    ) -> (ServingView, Option<ServiceErrorView>) {
        let near = self.near(path, live);
        let refusal = self.node_refusal(path, remove, metadata is Some, link is Some, near);
        if self.entry_refusal(seen) is Some {
            (self, self.entry_refusal(seen))
        } else if refusal is Some {
            (self, refusal)
        } else if self.switch is Some {
            (self, Some(ServiceErrorView::SwitchingTape(self.switch->0)))
        } else if link is Some && self.at_file_limit() {
            (self.to_switch(tape_state::DATA_FULL@), Some(self.limit_message()))
        } else {
            let v = session_opened(self.volume, task);
            match v.admission_refusal(task, path, 0) {
                Some(e) => (ServingView { volume: v, ..self }, Some(paths::mapped(e))),
                None => (
                    ServingView {
                        volume: change_ready(
                            v.admitted(task, path, 0, self.seconds(now), remove),
                            path,
                        ),
                        admitted: (self.admitted + 1) as u64,
                        namespace_pending: self.namespace_pending.insert(path),
                        ..self
                    }.queued(
                        UploadView {
                            delete: remove,
                            directory: link is None,
                            symlink_target: link,
                            metadata,
                            ..bare(task, path)
                        },
                        now,
                    ),
                    None,
                ),
            }
        }
    }
}

impl Serving {
    fn remove(
        &mut self,
        task: u64,
        path: &str,
        must_exist: bool,
        directory: bool,
        seen: u64,
        live: &StrMap<bool>,
        now: u64,
    ) -> (r: Result<(), ServiceError>)
        requires
            old(self)@.wf(),
            old(self)@.room(3),
        ensures
            final(self)@.wf(),
            ({
                let (s, e) = old(self)@.removed(
                    task,
                    path@,
                    must_exist,
                    directory,
                    seen,
                    live@,
                    now,
                );
                final(self)@ == s && answered(r, e)
            }),
    {
        match self.check_entry(seen) {
            Err(e) => {
                return Err(e);
            },
            Ok(_) => {},
        }
        let near = self.nodes_near(path, live);
        if must_exist {
            match self.check_file(path, &near) {
                Err(e) => {
                    return Err(e);
                },
                Ok(_) => {},
            }
            if !near.contains_key(path) {
                return Err(ServiceError::NotFound(path.to_owned()));
            }
        } else {
            if self.is_busy(path) {
                return Err(ServiceError::PathBusy(path.to_owned()));
            }
            if self.recent.contains_key(path) {
                return Err(ServiceError::Exists(path.to_owned()));
            }
        }
        match self.switch_error() {
            Err(e) => {
                return Err(e);
            },
            Ok(_) => {},
        }
        if self.is_at_file_limit() {
            let e = self.at_limit_error();
            self.switch = Some(tape_state::DATA_FULL.to_owned());
            return Err(e);
        }
        let seconds = self.elapsed(now);
        self.volume.open_session(task, 0xffff_ffff_ffff_ffff);
        match self.volume.admit_removal(task, path, seconds) {
            Ok(_) => {},
            Err(e) => {
                return Err(paths::map_state(e));
            },
        }
        let _ = self.volume.complete(path);
        self.admitted = self.admitted + 1;
        if directory {
            self.namespace_pending.insert(path.to_owned());
        }
        let mut u = bare_upload(task, path.to_owned());
        u.delete = true;
        u.directory = directory;
        self.enqueue(u, now);
        Ok(())
    }

    fn check_node(
        &self,
        path: &str,
        remove: bool,
        moved: bool,
        link: bool,
        near: &StrMap<bool>,
    ) -> (r: Result<(), ServiceError>)
        ensures
            answered(r, self@.node_refusal(path@, remove, moved, link, near@)),
    {
        if self.is_busy(path) {
            return Err(ServiceError::PathBusy(path.to_owned()));
        }
        if moved && self.recent.contains_key(path) {
            return Err(ServiceError::Exists(path.to_owned()));
        }
        match find_blocking_file(near, path) {
            Some(p) => {
                return Err(ServiceError::NotDirectory(p));
            },
            None => {},
        }
        let children = find_children(near, path);
        if remove {
            if is_live(near, path, false) {
                return Err(ServiceError::NotDirectory(path.to_owned()));
            }
            if children {
                return Err(ServiceError::NotEmpty(path.to_owned()));
            }
            if !is_live(near, path, true) {
                return Err(ServiceError::NotFound(path.to_owned()));
            }
        } else if !moved {
            if near.contains_key(path) || children {
                return Err(ServiceError::Exists(path.to_owned()));
            }
            let parent = paths::parent_of(path);
            if text::chars(parent.as_str()).len() > 0 && !is_live(near, parent.as_str(), true) {
                return Err(ServiceError::NotFound(parent));
            }
        } else if link {
            if is_live(near, path, true) || children {
                return Err(ServiceError::IsDirectory(path.to_owned()));
            }
        } else if is_live(near, path, false) {
            return Err(ServiceError::NotDirectory(path.to_owned()));
        }
        Ok(())
    }

    fn change_node(
        &mut self,
        task: u64,
        path: &str,
        remove: bool,
        metadata: Option<FileMetadata>,
        link: Option<String>,
        seen: u64,
        live: &StrMap<bool>,
        now: u64,
    ) -> (r: Result<(), ServiceError>)
        requires
            old(self)@.wf(),
            old(self)@.room(3),
        ensures
            final(self)@.wf(),
            ({
                let (s, e) = old(self)@.node_changed(
                    task,
                    path@,
                    remove,
                    (match metadata {
                        Some(m) => Some(m@),
                        None => None,
                    }),
                    nodes::text_view(link),
                    seen,
                    live@,
                    now,
                );
                final(self)@ == s && answered(r, e)
            }),
    {
        match self.check_entry(seen) {
            Err(e) => {
                return Err(e);
            },
            Ok(_) => {},
        }
        let near = self.nodes_near(path, live);
        match self.check_node(path, remove, metadata.is_some(), link.is_some(), &near) {
            Err(e) => {
                return Err(e);
            },
            Ok(_) => {},
        }
        match &self.switch {
            Some(state) => {
                return Err(ServiceError::SwitchingTape(state.clone()));
            },
            None => {},
        }
        if link.is_some() && self.is_at_file_limit() {
            let e = self.at_limit_error();
            self.switch = Some(tape_state::DATA_FULL.to_owned());
            return Err(e);
        }
        let seconds = self.elapsed(now);
        self.volume.open_session(task, 0xffff_ffff_ffff_ffff);
        let let_in = if remove {
            self.volume.admit_removal(task, path, seconds)
        } else {
            self.volume.admit_write(task, path, 0, seconds)
        };
        match let_in {
            Ok(_) => {},
            Err(e) => {
                return Err(paths::map_state(e));
            },
        }
        let _ = self.volume.complete(path);
        self.admitted = self.admitted + 1;
        self.namespace_pending.insert(path.to_owned());
        let mut u = bare_upload(task, path.to_owned());
        u.delete = remove;
        u.directory = link.is_none();
        u.symlink_target = link;
        u.metadata = metadata;
        self.enqueue(u, now);
        Ok(())
    }
}

impl ServiceView {
    /// A change on the serving came to `out`: with an error only the serving is different,
    /// otherwise the task is staged.
    pub open spec fn settled(self, out: (ServingView, Option<ServiceErrorView>)) -> (
        ServiceView,
        Result<u64, ServiceErrorView>,
    ) {
        match out.1 {
            Some(e) => (self.with_serving(out.0), Err(e)),
            None => (
                ServiceView {
                    tasks: self.tasks.insert(self.next_task, TaskView::Staged),
                    next_task: (self.next_task + 1) as u64,
                    ..self.with_serving(out.0)
                },
                Ok(self.next_task),
            ),
        }
    }

    /// Queues a removal.
    pub open spec fn removed(
        self,
        path: Seq<char>,
        must_exist: bool,
        directory: bool,
        seen: u64,
        live: Nodes,
        now: u64,
    ) -> (ServiceView, Result<u64, ServiceErrorView>) {
        if !paths::good_path(path) {
            (self, Err(ServiceErrorView::BadPath(path)))
        } else {
            match self.serving {
                None => (self, Err(self.closed_error())),
                Some(s) => self.settled(
                    s.removed(
                        self.next_task,
                        paths::normal(path),
                        must_exist,
                        directory,
                        seen,
                        live,
                        now,
                    ),
                ),
            }
        }
    }

    /// Queues a change of a directory or a link.
    pub open spec fn node_changed(
        self,
        path: Seq<char>,
        remove: bool,
        metadata: Option<FileMetadataView>,
        link: Option<Seq<char>>,
        seen: u64,
        live: Nodes,
        now: u64,
    ) -> (ServiceView, Result<u64, ServiceErrorView>) {
        if !paths::good_path(path) {
            (self, Err(ServiceErrorView::BadPath(path)))
        } else {
            match self.serving {
                None => (self, Err(ServiceErrorView::NotServing(self.why_not))),
                Some(s) => self.settled(
                    s.node_changed(
                        self.next_task,
                        paths::normal(path),
                        remove,
                        metadata,
                        link,
                        seen,
                        live,
                        now,
                    ),
                ),
            }
        }
    }
}

/// `r` is the outcome `v`.
pub open spec fn numbered(r: Result<u64, ServiceError>, v: Result<u64, ServiceErrorView>) -> bool {
    match v {
        Ok(n) => r is Ok && r->Ok_0 == n,
        Err(e) => r is Err && r->Err_0@ == e,
    }
}

impl FileService {
    /// Makes the next task a staged one, or passes the error on.
    fn stage_task(&mut self, done: Result<(), ServiceError>) -> (r: Result<u64, ServiceError>)
        requires
            old(self)@.next_task < u64::MAX,
        ensures
            match done {
                Ok(_) => r is Ok && r->Ok_0 == old(self)@.next_task && final(self)@ == (
                ServiceView {
                    tasks: old(self)@.tasks.insert(old(self)@.next_task, TaskView::Staged),
                    next_task: (old(self)@.next_task + 1) as u64,
                    ..old(self)@
                }),
                Err(e) => r is Err && r->Err_0 == e && final(self)@ == old(self)@,
            },
    {
        match done {
            Ok(_) => {
                let task = self.next_task;
                self.tasks.insert(task, TaskStatus::Staged);
                self.next_task = task + 1;
                Ok(task)
            },
            Err(e) => Err(e),
        }
    }

    fn enqueue_removal(
        &mut self,
        path: &str,
        must_exist: bool,
        directory: bool,
        seen: u64,
        live: &StrMap<bool>,
        now: u64,
    ) -> (r: Result<u64, ServiceError>)
        requires
            old(self)@.wf(),
            old(self)@.room(3),
        ensures
            final(self)@.wf(),
            ({
                let (v, t) = old(self)@.removed(path@, must_exist, directory, seen, live@, now);
                final(self)@ == v && numbered(r, t)
            }),
    {
        let p = match paths::norm(path) {
            Ok(p) => p,
            Err(e) => {
                return Err(e);
            },
        };
        let task = self.next_task;
        let why = self.closed_error();
        let done = match &mut self.serving {
            Some(s) => s.remove(task, p.as_str(), must_exist, directory, seen, live, now),
            None => {
                return Err(why);
            },
        };
        self.stage_task(done)
    }

    /// Removes a committed file. Like an upload it is staged at first.
    pub fn delete(&mut self, path: &str, seen: u64, live: &StrMap<bool>, now: u64) -> (r: Result<
        u64,
        ServiceError,
    >)
        requires
            old(self)@.wf(),
            old(self)@.room(3),
        ensures
            final(self)@.wf(),
            ({
                let (v, t) = old(self)@.removed(path@, true, false, seen, live@, now);
                final(self)@ == v && numbered(r, t)
            }),
    {
        self.enqueue_removal(path, true, false, seen, live, now)
    }

    /// Puts a tombstone for `path` on this tape, so that the tape which held one can be formatted.
    pub fn relocate_tombstone(&mut self, path: &str, seen: u64, live: &StrMap<bool>, now: u64) -> (r:
        Result<u64, ServiceError>)
        requires
            old(self)@.wf(),
            old(self)@.room(3),
        ensures
            final(self)@.wf(),
            ({
                let (v, t) = old(self)@.removed(path@, false, false, seen, live@, now);
                final(self)@ == v && numbered(r, t)
            }),
    {
        self.enqueue_removal(path, false, false, seen, live, now)
    }

    /// The same for a tombstone of either kind.
    pub fn relocate_tombstone_kind(
        &mut self,
        path: &str,
        directory: bool,
        seen: u64,
        live: &StrMap<bool>,
        now: u64,
    ) -> (r: Result<u64, ServiceError>)
        requires
            old(self)@.wf(),
            old(self)@.room(3),
        ensures
            final(self)@.wf(),
            ({
                let (v, t) = old(self)@.removed(path@, false, directory, seen, live@, now);
                final(self)@ == v && numbered(r, t)
            }),
    {
        self.enqueue_removal(path, false, directory, seen, live, now)
    }

    fn node_change(
        &mut self,
        path: &str,
        remove: bool,
        metadata: Option<FileMetadata>,
        link: Option<String>,
        seen: u64,
        live: &StrMap<bool>,
        now: u64,
    ) -> (r: Result<u64, ServiceError>)
        requires
            old(self)@.wf(),
            old(self)@.room(3),
        ensures
            final(self)@.wf(),
            ({
                let (v, t) = old(self)@.node_changed(
                    path@,
                    remove,
                    (match metadata {
                        Some(m) => Some(m@),
                        None => None,
                    }),
                    nodes::text_view(link),
                    seen,
                    live@,
                    now,
                );
                final(self)@ == v && numbered(r, t)
            }),
    {
        let p = match paths::norm(path) {
            Ok(p) => p,
            Err(e) => {
                return Err(e);
            },
        };
        let task = self.next_task;
        let why = self.why_not.clone();
        let done = match &mut self.serving {
            Some(s) => s.change_node(task, p.as_str(), remove, metadata, link, seen, live, now),
            None => {
                return Err(ServiceError::NotServing(why));
            },
        };
        self.stage_task(done)
    }

    /// Makes a directory.
    pub fn mkdir(&mut self, path: &str, seen: u64, live: &StrMap<bool>, now: u64) -> (r: Result<
        u64,
        ServiceError,
    >)
        requires
            old(self)@.wf(),
            old(self)@.room(3),
        ensures
            final(self)@.wf(),
            ({
                let (v, t) = old(self)@.node_changed(path@, false, None, None, seen, live@, now);
                final(self)@ == v && numbered(r, t)
            }),
    {
        self.node_change(path, false, None, None, seen, live, now)
    }

    /// Removes an empty directory.
    pub fn rmdir(&mut self, path: &str, seen: u64, live: &StrMap<bool>, now: u64) -> (r: Result<
        u64,
        ServiceError,
    >)
        requires
            old(self)@.wf(),
            old(self)@.room(3),
        ensures
            final(self)@.wf(),
            ({
                let (v, t) = old(self)@.node_changed(path@, true, None, None, seen, live@, now);
                final(self)@ == v && numbered(r, t)
            }),
    {
        self.node_change(path, true, None, None, seen, live, now)
    }

    /// Brings a directory over from another tape with its metadata.
    pub fn relocate_directory(
        &mut self,
        path: &str,
        metadata: FileMetadata,
        seen: u64,
        live: &StrMap<bool>,
        now: u64,
    ) -> (r: Result<u64, ServiceError>)
        requires
            old(self)@.wf(),
            old(self)@.room(3),
        ensures
            final(self)@.wf(),
            ({
                let (v, t) = old(self)@.node_changed(
                    path@,
                    false,
                    Some(metadata@),
                    None,
                    seen,
                    live@,
                    now,
                );
                final(self)@ == v && numbered(r, t)
            }),
    {
        self.node_change(path, false, Some(metadata), None, seen, live, now)
    }

    /// Makes a symbolic link. The target is not looked at; it may point nowhere.
    pub fn symlink(
        &mut self,
        target: &str,
        path: &str,
        seen: u64,
        live: &StrMap<bool>,
        now: u64,
    ) -> (r: Result<u64, ServiceError>)
        requires
            old(self)@.wf(),
            old(self)@.room(3),
        ensures
            final(self)@.wf(),
            if paths::good_target(target@) {
                let (v, t) = old(self)@.node_changed(
                    path@,
                    false,
                    None,
                    Some(target@),
                    seen,
                    live@,
                    now,
                );
                final(self)@ == v && numbered(r, t)
            } else {
                final(self)@ == old(self)@ && r is Err && r->Err_0@ == ServiceErrorView::BadPath(
                    "符号链接目标为空或包含 XML 非法字符"@,
                )
            },
    {
        if !paths::is_good_target(target) {
            return Err(
                ServiceError::BadPath("符号链接目标为空或包含 XML 非法字符".to_owned()),
            );
        }
        self.node_change(path, false, None, Some(target.to_owned()), seen, live, now)
    }

    /// Brings a symbolic link over from another tape with its metadata.
    pub fn relocate_symlink(
        &mut self,
        path: &str,
        target: &str,
        metadata: FileMetadata,
        seen: u64,
        live: &StrMap<bool>,
        now: u64,
    ) -> (r: Result<u64, ServiceError>)
        requires
            old(self)@.wf(),
            old(self)@.room(3),
        ensures
            final(self)@.wf(),
            ({
                let (v, t) = old(self)@.node_changed(
                    path@,
                    false,
                    Some(metadata@),
                    Some(target@),
                    seen,
                    live@,
                    now,
                );
                final(self)@ == v && numbered(r, t)
            }),
    {
        self.node_change(path, false, Some(metadata), Some(target.to_owned()), seen, live, now)
    }
}

/// The name under which one of `attrs` goes by `key` or by `name`, that of the first.
pub open spec fn existing_key(attrs: Seq<JsonView>, key: Seq<char>, name: Seq<char>) -> Option<
    Seq<char>,
>
    decreases attrs.len(),
{
    if attrs.len() == 0 {
        None
    } else {
        let k = attrs[0].text_in("key"@);
        if k == Some(key) || k == Some(name) {
            k
        } else {
            existing_key(attrs.drop_first(), key, name)
        }
    }
}

fn find_existing_key(attrs: &Vec<Json>, key: &str, name: &str) -> (r: Option<String>)
    ensures
        nodes::text_view(r) == existing_key(json::items(attrs@), key@, name@),
{
    let ghost s = json::items(attrs@);
    proof {
        json::lemma_items(attrs@);
    }
    let mut i: usize = 0;
    assert(s.skip(0) =~= s);
    while i < attrs.len()
        invariant
            i <= attrs@.len(),
            s == json::items(attrs@),
            s.len() == attrs@.len(),
            forall|j: int| 0 <= j < s.len() ==> #[trigger] s[j] == attrs@[j]@,
            existing_key(s, key@, name@) == existing_key(s.skip(i as int), key@, name@),
        decreases attrs@.len() - i,
    {
        assert(s.skip(i as int)[0] == attrs@[i as int]@);
        assert(s.skip(i as int).drop_first() =~= s.skip(i + 1));
        match attrs[i].text_in("key") {
            Some(k) => {
                if text::same(k.as_str(), key) || text::same(k.as_str(), name) {
                    return Some(k);
                }
            },
            None => {},
        }
        i += 1;
    }
    None
}

/// A change of an attribute that no node could take, whatever it holds.
pub open spec fn xattr_request_refusal(value: Option<Seq<u8>>, flags: u32) -> Option<
    ServiceErrorView,
> {
    if flags > 2 || (value is None && flags != 0) {
        Some(ServiceErrorView::BadPath("扩展属性flags非法"@))
    } else if value is Some && value->0.len() > 65536 {
        Some(ServiceErrorView::AttributeTooLarge)
    } else {
        None
    }
}

impl ServingView {
    /// Why the attribute of the node at `path` cannot be changed, or the name under which it is
    /// kept and the node's kind. A node on another tape keeps its attributes. With flag 1 the
    /// attribute must be new, with flag 2 it must be there.
    pub open spec fn xattr_target(
        self,
        path: Seq<char>,
        name: Seq<char>,
        key: Seq<char>,
        keeps: bool,
        flags: u32,
        near: Nodes,
    ) -> Result<(Seq<char>, bool), ServiceErrorView> {
        if self.busy(path) {
            Err(ServiceErrorView::PathBusy(path))
        } else if !near.contains_key(path) {
            Err(ServiceErrorView::NotFound(path))
        } else if !self.recent.contains_key(path) || !self.recent[path].on(self.tape.barcode) {
            Err(ServiceErrorView::CrossDevice(path))
        } else {
            match self.recent[path].metadata.list_in("xattrs"@) {
                None => Err(ServiceErrorView::Io("属性目录缺失"@)),
                Some(attrs) => {
                    let existing = existing_key(attrs, key, name);
                    if existing is Some && flags == 1 {
                        Err(ServiceErrorView::Exists(name))
                    } else if existing is None && (flags == 2 || !keeps) {
                        Err(ServiceErrorView::NoAttribute(name))
                    } else if self.switch is Some {
                        Err(ServiceErrorView::SwitchingTape(self.switch->0))
                    } else {
                        Ok(
                            (
                                if existing is Some {
                                    existing->0
                                } else {
                                    key
                                },
                                near[path],
                            ),
                        )
                    }
                },
            }
        }
    }

    /// Queues the change of an attribute.
    pub open spec fn xattr_changed(
        self,
        task: u64,
        path: Seq<char>,
        name: Seq<char>,
        key: Seq<char>,
        value: Option<Seq<u8>>,
        flags: u32,
        seen: u64,
        live: Nodes,
        now: u64,
    ) -> (ServingView, Option<ServiceErrorView>) {
        let near = self.near(path, live);
        if self.entry_refusal(seen) is Some {
            (self, self.entry_refusal(seen))
        } else {
            match self.xattr_target(path, name, key, value is Some, flags, near) {
                Err(e) => (self, Some(e)),
                Ok((kept, directory)) => {
                    let len = self.recent[path].len;
                    let v = session_opened(self.volume, task);
                    match v.admission_refusal(task, path, 0) {
                        Some(e) => (
                            ServingView { volume: session_ended(v, task), ..self },
                            Some(paths::mapped(e)),
                        ),
                        None => (
                            ServingView {
                                volume: change_ready(
                                    reference_staged(
                                        v.admitted(task, path, 0, self.seconds(now), false),
                                        path,
                                        len,
                                    ),
                                    path,
                                ),
                                namespace_pending: self.namespace_pending.insert(path),
                                admitted: (self.admitted + 1) as u64,
                                ..self
                            }.queued(
                                UploadView {
                                    len,
                                    directory,
                                    xattr_change: Some(
                                        (
                                            kept,
                                            match value {
                                                Some(b) => Some(
                                                    XattrView {
                                                        key: kept,
                                                        value: encoding::base64_text(b),
                                                        base64: true,
                                                    },
                                                ),
                                                None => None,
                                            },
                                        ),
                                    ),
                                    ..bare(task, path)
                                },
                                now,
                            ),
                            None,
                        ),
                    }
                },
            }
        }
    }
}

pub open spec fn bytes_view(o: Option<&[u8]>) -> Option<Seq<u8>> {
    match o {
        Some(b) => Some(b@),
        None => None,
    }
}

impl Serving {
    fn find_xattr_target(
        &self,
        path: &str,
        name: &str,
        key: &str,
        keeps: bool,
        flags: u32,
        near: &StrMap<bool>,
    ) -> (r: Result<(String, bool), ServiceError>)
        ensures
            match self@.xattr_target(path@, name@, key@, keeps, flags, near@) {
                Ok((k, d)) => r is Ok && r->Ok_0.0@ == k && r->Ok_0.1 == d,
                Err(e) => r is Err && r->Err_0@ == e,
            },
    {
        if self.is_busy(path) {
            return Err(ServiceError::PathBusy(path.to_owned()));
        }
        let directory = match near.get(path) {
            Some(d) => *d,
            None => {
                return Err(ServiceError::NotFound(path.to_owned()));
            },
        };
        let st = match self.recent.get(path) {
            Some(st) => st,
            None => {
                return Err(ServiceError::CrossDevice(path.to_owned()));
            },
        };
        if st.deleted || !text::same(st.barcode.as_str(), self.tape.barcode.as_str()) {
            return Err(ServiceError::CrossDevice(path.to_owned()));
        }
        let existing = match st.metadata.list_in("xattrs") {
            Some(attrs) => find_existing_key(attrs, key, name),
            None => {
                return Err(ServiceError::Io("属性目录缺失".to_owned()));
            },
        };
        if existing.is_some() && flags == 1 {
            return Err(ServiceError::Exists(name.to_owned()));
        }
        if existing.is_none() && (flags == 2 || !keeps) {
            return Err(ServiceError::NoAttribute(name.to_owned()));
        }
        match &self.switch {
            Some(reason) => {
                return Err(ServiceError::SwitchingTape(reason.clone()));
            },
            None => {},
        }
        match existing {
            Some(k) => Ok((k, directory)),
            None => Ok((key.to_owned(), directory)),
        }
    }

    fn change_xattr(
        &mut self,
        task: u64,
        path: &str,
        name: &str,
        key: &str,
        value: Option<&[u8]>,
        flags: u32,
        seen: u64,
        live: &StrMap<bool>,
        now: u64,
    ) -> (r: Result<(), ServiceError>)
        requires
            old(self)@.wf(),
            old(self)@.room(5),
            value is Some ==> value->0@.len() <= 65536,
        ensures
            final(self)@.wf(),
            ({
                let (s, e) = old(self)@.xattr_changed(
                    task,
                    path@,
                    name@,
                    key@,
                    bytes_view(value),
                    flags,
                    seen,
                    live@,
                    now,
                );
                final(self)@ == s && answered(r, e)
            }),
    {
        match self.check_entry(seen) {
            Err(e) => {
                return Err(e);
            },
            Ok(_) => {},
        }
        let near = self.nodes_near(path, live);
        let (kept, directory) = match self.find_xattr_target(
            path,
            name,
            key,
            value.is_some(),
            flags,
            &near,
        ) {
            Ok(t) => t,
            Err(e) => {
                return Err(e);
            },
        };
        let len: u64 = match self.recent.get(path) {
            Some(st) => st.len,
            None => 0,
        };
        let seconds = self.elapsed(now);
        self.volume.open_session(task, 0xffff_ffff_ffff_ffff);
        match self.volume.admit_write(task, path, 0, seconds) {
            Ok(_) => {},
            Err(e) => {
                let _ = self.volume.cancel(task);
                return Err(paths::map_state(e));
            },
        }
        let _ = self.volume.stage_reference(path, len);
        let _ = self.volume.complete(path);
        self.namespace_pending.insert(path.to_owned());
        self.admitted = self.admitted + 1;
        let attr = match value {
            Some(b) => Some(
                Xattr { key: kept.clone(), value: encoding::encode(b), base64: true },
            ),
            None => None,
        };
        let mut u = bare_upload(task, path.to_owned());
        u.len = len;
        u.directory = directory;
        u.xattr_change = Some(XattrChange { key: kept, value: attr });
        self.enqueue(u, now);
        Ok(())
    }
}

impl ServiceView {
    /// Queues the change of an attribute.
    pub open spec fn xattr_changed(
        self,
        path: Seq<char>,
        name: Seq<char>,
        value: Option<Seq<u8>>,
        flags: u32,
        seen: u64,
        live: Nodes,
        now: u64,
    ) -> (ServiceView, Result<u64, ServiceErrorView>) {
        match paths::xattr_key(name) {
            Err(e) => (self, Err(e)),
            Ok(key) => match xattr_request_refusal(value, flags) {
                Some(e) => (self, Err(e)),
                None => if !paths::good_path(path) {
                    (self, Err(ServiceErrorView::BadPath(path)))
                } else {
                    match self.serving {
                        None => (self, Err(ServiceErrorView::NotServing(self.why_not))),
                        Some(s) => self.settled(
                            s.xattr_changed(
                                self.next_task,
                                paths::normal(path),
                                name,
                                key,
                                value,
                                flags,
                                seen,
                                live,
                                now,
                            ),
                        ),
                    }
                },
            },
        }
    }
}

impl FileService {
    /// Sets an attribute of a node, or takes it away where no value is given. The content of the
    /// node is not touched.
    pub fn change_xattr(
        &mut self,
        path: &str,
        name: &str,
        value: Option<&[u8]>,
        flags: u32,
        seen: u64,
        live: &StrMap<bool>,
        now: u64,
    ) -> (r: Result<u64, ServiceError>)
        requires
            old(self)@.wf(),
            old(self)@.room(5),
        ensures
            final(self)@.wf(),
            ({
                let (v, t) = old(self)@.xattr_changed(
                    path@,
                    name@,
                    bytes_view(value),
                    flags,
                    seen,
                    live@,
                    now,
                );
                final(self)@ == v && numbered(r, t)
            }),
    {
        let key = match paths::writable_xattr_key(name) {
            Ok(k) => k,
            Err(e) => {
                return Err(e);
            },
        };
        if flags > 2 || (value.is_none() && flags != 0) {
            return Err(ServiceError::BadPath("扩展属性flags非法".to_owned()));
        }
        match value {
            Some(b) => {
                if b.len() > 65536 {
                    return Err(ServiceError::AttributeTooLarge);
                }
            },
            None => {},
        }
        let p = match paths::norm(path) {
            Ok(p) => p,
            Err(e) => {
                return Err(e);
            },
        };
        let task = self.next_task;
        let why = self.why_not.clone();
        let done = match &mut self.serving {
            Some(s) => s.change_xattr(
                task,
                p.as_str(),
                name,
                key.as_str(),
                value,
                flags,
                seen,
                live,
                now,
            ),
            None => {
                return Err(ServiceError::NotServing(why));
            },
        };
        self.stage_task(done)
    }
}

/// The nodes among `keys` that are `from` or lie below it, each as a change that puts it under
/// `to`. All of them must be on the served tape.
pub open spec fn moves(
    s: ServingView,
    task: u64,
    keys: Seq<Seq<char>>,
    source: Nodes,
    from: Seq<char>,
    to: Seq<char>,
) -> Result<Seq<UploadView>, ServiceErrorView>
    decreases keys.len(),
{
    if keys.len() == 0 {
        Ok(Seq::empty())
    } else {
        let p = keys.last();
        match moves(s, task, keys.drop_last(), source, from, to) {
            Err(e) => Err(e),
            Ok(us) => if p != from && !paths::below(p, from) {
                Ok(us)
            } else if !s.recent.contains_key(p) || !s.recent[p].on(s.tape.barcode) {
                Err(ServiceErrorView::CrossDevice(p))
            } else {
                Ok(
                    us.push(
                        UploadView {
                            len: s.recent[p].len,
                            directory: source[p],
                            rename_from: Some((p, p == from)),
                            ..bare(task, to + p.skip(from.len() as int))
                        },
                    ),
                )
            },
        }
    }
}

/// The moves and, from the last back to the first, the removals of where they come from.
pub open spec fn with_removals(us: Seq<UploadView>) -> Seq<UploadView> {
    us + Seq::new(
        us.len(),
        |i: int|
            {
                let u = us[us.len() - 1 - i];
                UploadView {
                    delete: true,
                    directory: u.directory,
                    ..bare(u.task, (u.rename_from->0).0)
                }
            },
    )
}

/// The volume with all of `us` let in, up to the first that is refused.
pub open spec fn all_admitted(v: VolumeView, us: Seq<UploadView>, task: u64, seconds: u64) -> (
    VolumeView,
    Option<StateErrorView>,
)
    decreases us.len(),
{
    if us.len() == 0 {
        (v, None)
    } else {
        let (w, e) = all_admitted(v, us.drop_last(), task, seconds);
        let u = us.last();
        if e is Some {
            (w, e)
        } else {
            match w.admission_refusal(task, u.path, 0) {
                Some(e) => (w, Some(e)),
                None => (w.admitted(task, u.path, 0, seconds, u.delete), None),
            }
        }
    }
}

/// The volume with one change made ready, a move over the data that is there.
pub open spec fn one_ready(v: VolumeView, u: UploadView) -> (VolumeView, Option<StateErrorView>) {
    let pending = v.current.pending;
    if !pending.contains_key(u.path) {
        (v, Some(StateErrorView::NoSuchPending(u.path)))
    } else if u.delete {
        (change_ready(v, u.path), None)
    } else if pending[u.path].state != PendingState::InProgress || pending[u.path].removal {
        (v, Some(StateErrorView::PathBusy(u.path)))
    } else {
        (change_ready(reference_staged(v, u.path, u.len), u.path), None)
    }
}

/// The volume with all of `us` made ready, and the paths of which that came about.
pub open spec fn all_ready(v: VolumeView, pending: Set<Seq<char>>, us: Seq<UploadView>) -> (
    VolumeView,
    Set<Seq<char>>,
    Option<StateErrorView>,
)
    decreases us.len(),
{
    if us.len() == 0 {
        (v, pending, None)
    } else {
        let (w, done, e) = all_ready(v, pending, us.drop_last());
        let (x, f) = one_ready(w, us.last());
        if e is Some {
            (w, done, e)
        } else if f is Some {
            (x, done, f)
        } else {
            (x, done.insert(us.last().path), None)
        }
    }
}

impl ServingView {
    /// Why `from` cannot be renamed to the other path `to`, if it cannot.
    pub open spec fn rename_refusal(
        self,
        from: Seq<char>,
        to: Seq<char>,
        no_replace: bool,
        source: Nodes,
        target: Nodes,
    ) -> Option<ServiceErrorView> {
        let parent = paths::parent_path(to);
        if paths::below(to, from) || paths::below(from, to) {
            Some(ServiceErrorView::BadPath("源和目标不能互为祖先"@))
        } else if blocking_file(target, to) is Some {
            Some(ServiceErrorView::NotDirectory(blocking_file(target, to)->0))
        } else if parent.len() > 0 && !live_dir(target, parent) {
            Some(ServiceErrorView::NotFound(parent))
        } else if target.contains_key(to) && no_replace {
            Some(ServiceErrorView::Exists(to))
        } else if live_file(target, to) && source[from] {
            Some(ServiceErrorView::NotDirectory(to))
        } else if live_dir(target, to) && !source[from] {
            Some(ServiceErrorView::IsDirectory(to))
        } else if target.contains_key(to) && has_children(target, to) {
            Some(ServiceErrorView::NotEmpty(to))
        } else if target.contains_key(to) && (!self.recent.contains_key(to)
            || !self.recent[to].on(self.tape.barcode)) {
            Some(ServiceErrorView::CrossDevice(to))
        } else if self.switch is Some {
            Some(ServiceErrorView::SwitchingTape(self.switch->0))
        } else {
            None
        }
    }

    /// The changes that a rename is made of, none where both paths are the same, or why it is
    /// refused.
    pub open spec fn rename_plan(
        self,
        task: u64,
        from: Seq<char>,
        to: Seq<char>,
        no_replace: bool,
        seen_from: u64,
        source: Nodes,
        seen_to: u64,
        target: Nodes,
    ) -> Result<Option<Seq<UploadView>>, ServiceErrorView> {
        let source = self.near(from, source);
        let target = self.near(to, target);
        if self.entry_refusal(seen_from) is Some {
            Err(self.entry_refusal(seen_from)->0)
        } else if self.entry_refusal(seen_to) is Some {
            Err(self.entry_refusal(seen_to)->0)
        } else if self.busy(from) {
            Err(ServiceErrorView::PathBusy(from))
        } else if self.busy(to) {
            Err(ServiceErrorView::PathBusy(to))
        } else if !source.contains_key(from) {
            Err(ServiceErrorView::NotFound(from))
        } else if from == to {
            if no_replace {
                Err(ServiceErrorView::Exists(to))
            } else {
                Ok(None)
            }
        } else if self.rename_refusal(from, to, no_replace, source, target) is Some {
            Err(self.rename_refusal(from, to, no_replace, source, target)->0)
        } else {
            match moves(self, task, strmap::sorted_keys(source), source, from, to) {
                Err(e) => Err(e),
                Ok(us) => Ok(Some(with_removals(us))),
            }
        }
    }

    /// Queues the changes of a rename, all of them or none.
    pub open spec fn renamed(self, task: u64, us: Seq<UploadView>, now: u64) -> (
        ServingView,
        Option<ServiceErrorView>,
    ) {
        let (v, e) = all_admitted(
            session_opened(self.volume, task),
            us,
            task,
            self.seconds(now),
        );
        let (w, done, f) = all_ready(v, self.namespace_pending, us);
        if e is Some {
            (ServingView { volume: session_ended(v, task), ..self }, Some(paths::mapped(e->0)))
        } else if f is Some {
            (
                ServingView { volume: w, namespace_pending: done, ..self },
                Some(paths::mapped(f->0)),
            )
        } else {
            (
                ServingView {
                    volume: w,
                    namespace_pending: done,
                    admitted: (self.admitted + us.len()) as u64,
                    queue: self.queue + us,
                    oldest: if self.oldest is Some {
                        self.oldest
                    } else {
                        Some(now)
                    },
                    newest: Some(now),
                    ..self
                },
                None,
            )
        }
    }
}

proof fn lemma_moves_prefix(
    s: ServingView,
    task: u64,
    keys: Seq<Seq<char>>,
    source: Nodes,
    from: Seq<char>,
    to: Seq<char>,
    i: int,
)
    requires
        0 <= i <= keys.len(),
        moves(s, task, keys.take(i), source, from, to) is Err,
    ensures
        moves(s, task, keys, source, from, to) == moves(s, task, keys.take(i), source, from, to),
    decreases keys.len() - i,
{
    if i < keys.len() {
        assert(keys.take(i + 1).drop_last() =~= keys.take(i));
        lemma_moves_prefix(s, task, keys, source, from, to, i + 1);
    } else {
        assert(keys.take(i) =~= keys);
    }
}

impl Serving {
    fn check_rename(
        &self,
        from: &str,
        to: &str,
        no_replace: bool,
        source: &StrMap<bool>,
        target: &StrMap<bool>,
    ) -> (r: Result<(), ServiceError>)
        requires
            source@.contains_key(from@),
        ensures
            answered(r, self@.rename_refusal(from@, to@, no_replace, source@, target@)),
    {
        if paths::descendant(to, from) || paths::descendant(from, to) {
            return Err(ServiceError::BadPath("源和目标不能互为祖先".to_owned()));
        }
        match find_blocking_file(target, to) {
            Some(p) => {
                return Err(ServiceError::NotDirectory(p));
            },
            None => {},
        }
        let parent = paths::parent_of(to);
        if text::chars(parent.as_str()).len() > 0 && !is_live(target, parent.as_str(), true) {
            return Err(ServiceError::NotFound(parent));
        }
        let directory = is_live(source, from, true);
        match target.get(to) {
            Some(target_dir) => {
                if no_replace {
                    return Err(ServiceError::Exists(to.to_owned()));
                }
                if directory && !*target_dir {
                    return Err(ServiceError::NotDirectory(to.to_owned()));
                }
                if !directory && *target_dir {
                    return Err(ServiceError::IsDirectory(to.to_owned()));
                }
                if find_children(target, to) {
                    return Err(ServiceError::NotEmpty(to.to_owned()));
                }
                if !self.is_here(to) {
                    return Err(ServiceError::CrossDevice(to.to_owned()));
                }
            },
            None => {},
        }
        match &self.switch {
            Some(reason) => Err(ServiceError::SwitchingTape(reason.clone())),
            None => Ok(()),
        }
    }

    fn is_here(&self, path: &str) -> (r: bool)
        ensures
            r == (self@.recent.contains_key(path@) && self@.recent[path@].on(self@.tape.barcode)),
    {
        match self.recent.get(path) {
            Some(st) => !st.deleted && text::same(
                st.barcode.as_str(),
                self.tape.barcode.as_str(),
            ),
            None => false,
        }
    }

    fn list_moves(&self, task: u64, source: &StrMap<bool>, from: &str, to: &str) -> (r: Result<
        Vec<Upload>,
        ServiceError,
    >)
        ensures
            match moves(
                self@,
                task,
                strmap::sorted_keys(source@),
                source@,
                from@,
                to@,
            ) {
                Ok(us) => {
                    &&& r is Ok
                    &&& upload_views(r->Ok_0@) == us
                    &&& us.len() <= source@.dom().len()
                    &&& forall|i: int|
                        0 <= i < us.len() ==> (#[trigger] us[i]).rename_from is Some && us[i].task
                            == task
                },
                Err(e) => r is Err && r->Err_0@ == e,
            },
    {
        let n = source.len();
        let from_len = text::chars(from).len();
        let ghost ks = strmap::sorted_keys(source@);
        let mut out: Vec<Upload> = Vec::new();
        let mut i: usize = 0;
        assert(ks.take(0) =~= Seq::<Seq<char>>::empty());
        assert(upload_views(out@) =~= Seq::<UploadView>::empty());
        while i < n
            invariant
                i <= n == ks.len(),
                from_len == from@.len(),
                ks == strmap::sorted_keys(source@),
                forall|j: int| 0 <= j < n ==> source@.contains_key(#[trigger] ks[j]),
                moves(self@, task, ks.take(i as int), source@, from@, to@) == Ok::<
                    Seq<UploadView>,
                    ServiceErrorView,
                >(upload_views(out@)),
                out@.len() <= i,
                forall|j: int|
                    0 <= j < out@.len() ==> (#[trigger] upload_views(out@)[j]).rename_from is Some
                        && upload_views(out@)[j].task == task,
            decreases n - i,
        {
            let p = source.key_at(i);
            let directory = *source.value_at(i);
            proof {
                assert(ks.take(i + 1).drop_last() =~= ks.take(i as int));
                assert(ks.take(i + 1).last() == p@);
            }
            let root = text::same(p.as_str(), from);
            if root || paths::descendant(p.as_str(), from) {
                if !self.is_here(p.as_str()) {
                    proof {
                        lemma_moves_prefix(self@, task, ks, source@, from@, to@, i + 1);
                    }
                    return Err(ServiceError::CrossDevice(p.clone()));
                }
                let len: u64 = match self.recent.get(p.as_str()) {
                    Some(st) => st.len,
                    None => 0,
                };
                let rest = text::skip_chars(p.as_str(), from_len);
                let mut u = bare_upload(task, text::cat2(to, rest.as_str()));
                u.len = len;
                u.directory = directory;
                u.rename_from = Some(RenameFrom { path: p.clone(), root });
                let ghost was = out@;
                out.push(u);
                assert(upload_views(out@) =~= upload_views(was).push(u@));
            }
            i += 1;
        }
        assert(ks.take(i as int) =~= ks);
        proof {
            strmap::lemma_listing_finite(ks, source@.dom());
        }
        Ok(out)
    }
}

fn add_removals(us: Vec<Upload>) -> (r: Vec<Upload>)
    requires
        forall|i: int| 0 <= i < us@.len() ==> (#[trigger] us@[i])@.rename_from is Some,
    ensures
        upload_views(r@) == with_removals(upload_views(us@)),
{
    let ghost moved = upload_views(us@);
    let ghost want = with_removals(moved);
    let n = us.len();
    let mut out = us;
    let mut i: usize = 0;
    assert(want.take(n as int) =~= moved);
    while i < n
        invariant
            i <= n,
            n == moved.len(),
            out@.len() == n + i,
            want == with_removals(moved),
            forall|j: int| 0 <= j < n ==> (#[trigger] moved[j]).rename_from is Some,
            upload_views(out@) == want.take(n + i),
        decreases n - i,
    {
        let ghost before = out@;
        let k: usize = n - 1 - i;
        assert(upload_views(out@)[k as int] == moved[k as int]);
        assert(out@[k as int]@ == moved[k as int]);
        let u = &out[k];
        let path = match &u.rename_from {
            Some(f) => f.path.clone(),
            None => String::new(),
        };
        let mut removal = bare_upload(u.task, path);
        removal.delete = true;
        removal.directory = u.directory;
        out.push(removal);
        assert(want[n + i] == removal@);
        assert(upload_views(out@) =~= want.take(n + i + 1));
        i += 1;
    }
    assert(want.take(n + i) =~= want);
    out
}

proof fn lemma_admitted_prefix(
    v: VolumeView,
    us: Seq<UploadView>,
    task: u64,
    seconds: u64,
    i: int,
)
    requires
        0 <= i <= us.len(),
        all_admitted(v, us.take(i), task, seconds).1 is Some,
    ensures
        all_admitted(v, us, task, seconds) == all_admitted(v, us.take(i), task, seconds),
    decreases us.len() - i,
{
    if i < us.len() {
        assert(us.take(i + 1).drop_last() =~= us.take(i));
        lemma_admitted_prefix(v, us, task, seconds, i + 1);
    } else {
        assert(us.take(i) =~= us);
    }
}

proof fn lemma_ready_prefix(v: VolumeView, pending: Set<Seq<char>>, us: Seq<UploadView>, i: int)
    requires
        0 <= i <= us.len(),
        all_ready(v, pending, us.take(i)).2 is Some,
    ensures
        all_ready(v, pending, us) == all_ready(v, pending, us.take(i)),
    decreases us.len() - i,
{
    if i < us.len() {
        assert(us.take(i + 1).drop_last() =~= us.take(i));
        lemma_ready_prefix(v, pending, us, i + 1);
    } else {
        assert(us.take(i) =~= us);
    }
}

impl Serving {
    /// Lets every change in; the first that is refused stops it.
    fn admit_all(&mut self, us: &Vec<Upload>, task: u64, seconds: u64) -> (r: Result<(), StateError>)
        requires
            old(self)@.wf(),
            old(self)@.volume.room(us@.len()),
        ensures
            final(self)@.wf(),
            ({
                let (v, e) = all_admitted(old(self)@.volume, upload_views(us@), task, seconds);
                &&& final(self)@ == (ServingView { volume: v, ..old(self)@ })
                &&& match e {
                    None => r is Ok,
                    Some(e) => r is Err && r->Err_0@ == e,
                }
                &&& forall|n: nat|
                    old(self)@.volume.room(n + us@.len()) ==> #[trigger] v.room(n)
            }),
    {
        let ghost s0 = self@;
        let ghost all = upload_views(us@);
        let mut i: usize = 0;
        assert(all.take(0) =~= Seq::<UploadView>::empty());
        while i < us.len()
            invariant
                i <= us@.len(),
                all == upload_views(us@),
                s0 == old(self)@,
                s0.volume.room(us@.len()),
                self@.wf(),
                self@ == (ServingView {
                    volume: all_admitted(s0.volume, all.take(i as int), task, seconds).0,
                    ..s0
                }),
                all_admitted(s0.volume, all.take(i as int), task, seconds).1 is None,
                self@.volume.current.epoch == s0.volume.current.epoch + i,
                self@.volume.next_batch == s0.volume.next_batch,
                self@.volume.next_version == s0.volume.next_version + i,
                self@.volume.next_reservation == s0.volume.next_reservation + i,
                self@.volume.next_waiter == s0.volume.next_waiter,
            decreases us@.len() - i,
        {
            proof {
                assert(all.take(i + 1).drop_last() =~= all.take(i as int));
                assert(all.take(i + 1).last() == us@[i as int]@);
            }
            let u = &us[i];
            let let_in = if u.delete {
                self.volume.admit_removal(task, u.path.as_str(), seconds)
            } else {
                self.volume.admit_write(task, u.path.as_str(), 0, seconds)
            };
            match let_in {
                Ok(_) => {},
                Err(e) => {
                    proof {
                        lemma_admitted_prefix(s0.volume, all, task, seconds, i + 1);
                    }
                    return Err(e);
                },
            }
            i += 1;
        }
        assert(all.take(i as int) =~= all);
        Ok(())
    }

    /// Makes every change ready; the first that cannot be stops it.
    fn ready_all(&mut self, us: &Vec<Upload>) -> (r: Result<(), StateError>)
        requires
            old(self)@.wf(),
            old(self)@.volume.room(2 * us@.len()),
        ensures
            final(self)@.wf(),
            ({
                let (v, done, e) = all_ready(
                    old(self)@.volume,
                    old(self)@.namespace_pending,
                    upload_views(us@),
                );
                &&& final(self)@ == (ServingView {
                    volume: v,
                    namespace_pending: done,
                    ..old(self)@
                })
                &&& match e {
                    None => r is Ok,
                    Some(e) => r is Err && r->Err_0@ == e,
                }
            }),
    {
        let ghost s0 = self@;
        let ghost all = upload_views(us@);
        let mut i: usize = 0;
        assert(all.take(0) =~= Seq::<UploadView>::empty());
        while i < us.len()
            invariant
                i <= us@.len(),
                all == upload_views(us@),
                s0 == old(self)@,
                s0.volume.room(2 * us@.len()),
                self@.wf(),
                ({
                    let (v, done, e) = all_ready(
                        s0.volume,
                        s0.namespace_pending,
                        all.take(i as int),
                    );
                    self@ == (ServingView { volume: v, namespace_pending: done, ..s0 }) && e is None
                }),
                self@.volume.current.epoch <= s0.volume.current.epoch + 2 * i,
                self@.volume.next_batch == s0.volume.next_batch,
                self@.volume.next_version == s0.volume.next_version,
                self@.volume.next_reservation == s0.volume.next_reservation,
                self@.volume.next_waiter == s0.volume.next_waiter,
            decreases us@.len() - i,
        {
            proof {
                assert(all.take(i + 1).drop_last() =~= all.take(i as int));
                assert(all.take(i + 1).last() == us@[i as int]@);
            }
            let u = &us[i];
            if !u.delete {
                match self.volume.stage_reference(u.path.as_str(), u.len) {
                    Ok(_) => {},
                    Err(e) => {
                        proof {
                            lemma_ready_prefix(s0.volume, s0.namespace_pending, all, i + 1);
                        }
                        return Err(e);
                    },
                }
            }
            match self.volume.complete(u.path.as_str()) {
                Ok(_) => {},
                Err(e) => {
                    proof {
                        lemma_ready_prefix(s0.volume, s0.namespace_pending, all, i + 1);
                    }
                    return Err(e);
                },
            }
            self.namespace_pending.insert(u.path.clone());
            i += 1;
        }
        assert(all.take(i as int) =~= all);
        Ok(())
    }

    fn rename(&mut self, task: u64, us: Vec<Upload>, now: u64) -> (r: Result<(), ServiceError>)
        requires
            old(self)@.wf(),
            old(self)@.room(3 * us@.len() + 2),
        ensures
            final(self)@.wf(),
            ({
                let (s, e) = old(self)@.renamed(task, upload_views(us@), now);
                final(self)@ == s && answered(r, e)
            }),
    {
        let seconds = self.elapsed(now);
        let ghost n = us@.len();
        self.volume.open_session(task, 0xffff_ffff_ffff_ffff);
        assert(self@.volume.room((3 * n + 1) as nat));
        let ghost mid = self@.volume;
        let let_in = self.admit_all(&us, task, seconds);
        assert(self@.volume.room((2 * n + 1) as nat)) by {
            assert(mid.room((2 * n + 1) as nat + n));
        }
        match let_in {
            Ok(_) => {},
            Err(e) => {
                let _ = self.volume.cancel(task);
                return Err(paths::map_state(e));
            },
        }
        match self.ready_all(&us) {
            Ok(_) => {},
            Err(e) => {
                return Err(paths::map_state(e));
            },
        }
        self.admitted = self.admitted + us.len() as u64;
        let ghost was = self.queue@;
        let ghost more = us@;
        let mut us = us;
        self.queue.append(&mut us);
        assert(upload_views(self.queue@) =~= upload_views(was) + upload_views(more));
        if self.oldest.is_none() {
            self.oldest = Some(now);
        }
        self.newest = Some(now);
        Ok(())
    }

    fn plan_rename(
        &self,
        task: u64,
        from: &str,
        to: &str,
        no_replace: bool,
        seen_from: u64,
        source: &StrMap<bool>,
        seen_to: u64,
        target: &StrMap<bool>,
    ) -> (r: Result<Option<Vec<Upload>>, ServiceError>)
        ensures
            match self@.rename_plan(
                task,
                from@,
                to@,
                no_replace,
                seen_from,
                source@,
                seen_to,
                target@,
            ) {
                Ok(Some(us)) => {
                    &&& r is Ok
                    &&& r->Ok_0 is Some
                    &&& upload_views((r->Ok_0->0)@) == us
                    &&& us.len() <= 2 * self@.near(from@, source@).dom().len()
                },
                Ok(None) => r is Ok && r->Ok_0 is None,
                Err(e) => r is Err && r->Err_0@ == e,
            },
    {
        match self.check_entry(seen_from) {
            Err(e) => {
                return Err(e);
            },
            Ok(_) => {},
        }
        match self.check_entry(seen_to) {
            Err(e) => {
                return Err(e);
            },
            Ok(_) => {},
        }
        let source = self.nodes_near(from, source);
        let target = self.nodes_near(to, target);
        if self.is_busy(from) {
            return Err(ServiceError::PathBusy(from.to_owned()));
        }
        if self.is_busy(to) {
            return Err(ServiceError::PathBusy(to.to_owned()));
        }
        if !source.contains_key(from) {
            return Err(ServiceError::NotFound(from.to_owned()));
        }
        if text::same(from, to) {
            if no_replace {
                return Err(ServiceError::Exists(to.to_owned()));
            }
            return Ok(None);
        }
        match self.check_rename(from, to, no_replace, &source, &target) {
            Err(e) => {
                return Err(e);
            },
            Ok(_) => {},
        }
        match self.list_moves(task, &source, from, to) {
            Err(e) => Err(e),
            Ok(us) => {
                proof {
                    assert forall|i: int| 0 <= i < us@.len() implies (
                    #[trigger] us@[i])@.rename_from is Some by {
                        assert(upload_views(us@)[i] == us@[i]@);
                    }
                }
                Ok(Some(add_removals(us)))
            },
        }
    }
}

impl ServiceView {
    /// Renames a node with all below it.
    pub open spec fn renamed(
        self,
        from: Seq<char>,
        to: Seq<char>,
        no_replace: bool,
        seen_from: u64,
        source: Nodes,
        seen_to: u64,
        target: Nodes,
        now: u64,
    ) -> (ServiceView, Result<u64, ServiceErrorView>) {
        let task = self.next_task;
        if !paths::good_path(from) {
            (self, Err(ServiceErrorView::BadPath(from)))
        } else if !paths::good_path(to) {
            (self, Err(ServiceErrorView::BadPath(to)))
        } else {
            match self.serving {
                None => (self, Err(ServiceErrorView::NotServing(self.why_not))),
                Some(s) => match s.rename_plan(
                    task,
                    paths::normal(from),
                    paths::normal(to),
                    no_replace,
                    seen_from,
                    source,
                    seen_to,
                    target,
                ) {
                    Err(e) => (self, Err(e)),
                    Ok(None) => (
                        ServiceView {
                            tasks: self.tasks.insert(
                                task,
                                TaskView::Committed { generation: s.volume.current.generation },
                            ),
                            next_task: (task + 1) as u64,
                            ..self
                        },
                        Ok(task),
                    ),
                    Ok(Some(us)) => self.settled(s.renamed(task, us, now)),
                },
            }
        }
    }
}

impl FileService {
    /// Renames a node on the served tape, with all below it, in one batch.
    pub fn rename(
        &mut self,
        from: &str,
        to: &str,
        no_replace: bool,
        seen_from: u64,
        source: &StrMap<bool>,
        seen_to: u64,
        target: &StrMap<bool>,
        now: u64,
    ) -> (r: Result<u64, ServiceError>)
        requires
            old(self)@.wf(),
            old(self)@.next_task < u64::MAX,
            old(self)@.serving is Some ==> old(self)@.serving->0.room(
                (6 * old(self)@.serving->0.near(paths::normal(from@), source@).dom().len()
                    + 2) as nat,
            ),
        ensures
            final(self)@.wf(),
            ({
                let (v, t) = old(self)@.renamed(
                    from@,
                    to@,
                    no_replace,
                    seen_from,
                    source@,
                    seen_to,
                    target@,
                    now,
                );
                final(self)@ == v && numbered(r, t)
            }),
    {
        let p = match paths::norm(from) {
            Ok(p) => p,
            Err(e) => {
                return Err(e);
            },
        };
        let q = match paths::norm(to) {
            Ok(p) => p,
            Err(e) => {
                return Err(e);
            },
        };
        let task = self.next_task;
        let why = self.why_not.clone();
        let done = match &mut self.serving {
            Some(s) => match s.plan_rename(
                task,
                p.as_str(),
                q.as_str(),
                no_replace,
                seen_from,
                source,
                seen_to,
                target,
            ) {
                Err(e) => {
                    return Err(e);
                },
                Ok(None) => {
                    let generation = s.volume.load().generation;
                    self.tasks.insert(task, TaskStatus::Committed { generation });
                    self.next_task = task + 1;
                    return Ok(task);
                },
                Ok(Some(us)) => s.rename(task, us, now),
            },
            None => {
                return Err(ServiceError::NotServing(why));
            },
        };
        self.stage_task(done)
    }
}

/// Milliseconds from `now` until `wait` after `t`, none where that has passed.
pub open spec fn left(t: u64, wait: u64, now: u64) -> u64 {
    let d = t + wait - now;
    (if d <= 0 {
        0
    } else if d > u64::MAX {
        u64::MAX as int
    } else {
        d
    }) as u64
}

fn time_left(t: u64, wait: u64, now: u64) -> (r: u64)
    ensures
        r == left(t, wait, now),
{
    if now >= t {
        let gone: u64 = now - t;
        if gone >= wait {
            0
        } else {
            wait - gone
        }
    } else {
        let ahead: u64 = t - now;
        if wait > 0xffff_ffff_ffff_ffff - ahead {
            0xffff_ffff_ffff_ffff
        } else {
            ahead + wait
        }
    }
}

impl ServingView {
    /// Milliseconds until the next batch is due; none where nothing is queued or a batch is under
    /// way.
    pub open spec fn due(self, p: BatchPolicy, now: u64) -> Option<u64> {
        let by_wait = match self.oldest {
            Some(t) => Some(left(t, p.max_wait, now)),
            None => None,
        };
        let by_idle = match self.newest {
            Some(t) => Some(left(t, p.idle, now)),
            None => None,
        };
        if self.queue.len() == 0 || self.in_batch.len() > 0 {
            None
        } else if self.queue_bytes >= p.max_bytes || self.queue.len() >= p.max_files {
            Some(0)
        } else {
            match (by_wait, by_idle) {
                (Some(a), Some(b)) => Some(
                    if a <= b {
                        a
                    } else {
                        b
                    },
                ),
                (Some(a), None) => Some(a),
                (None, b) => b,
            }
        }
    }

    /// A batch is taken now: it is due, or it is not to wait.
    pub open spec fn takes(self, p: BatchPolicy, at_once: bool, now: u64) -> bool {
        match self.due(p, now) {
            None => false,
            Some(d) => (d == 0 || at_once || self.switch is Some)
                && self.volume.freeze_refusal() is None,
        }
    }

    /// With the whole queue taken into a batch.
    pub open spec fn taken(self) -> ServingView {
        ServingView {
            volume: self.volume.frozen(Set::empty()),
            queue: Seq::empty(),
            queue_bytes: 0,
            oldest: None,
            newest: None,
            in_batch: self.queue.map_values(|u: UploadView| u.task),
            ..self
        }
    }

    /// A batch can be frozen without a counter running over.
    pub open spec fn freezable(self) -> bool {
        &&& self.volume.room(1)
        &&& self.volume.current.generation < u64::MAX
        &&& forall|id: u64| #[trigger]
            self.volume.current.sessions.contains_key(id)
                ==> self.volume.current.sessions[id].refs < u32::MAX
    }
}

impl Serving {
    fn due(&self, p: &BatchPolicy, now: u64) -> (r: Option<u64>)
        ensures
            r == self@.due(*p, now),
    {
        if self.queue.len() == 0 || self.in_batch.len() > 0 {
            return None;
        }
        if self.queue_bytes >= p.max_bytes || self.queue.len() >= p.max_files {
            return Some(0);
        }
        let by_wait = match self.oldest {
            Some(t) => Some(time_left(t, p.max_wait, now)),
            None => None,
        };
        let by_idle = match self.newest {
            Some(t) => Some(time_left(t, p.idle, now)),
            None => None,
        };
        match (by_wait, by_idle) {
            (Some(a), Some(b)) => if a <= b {
                Some(a)
            } else {
                Some(b)
            },
            (Some(a), None) => Some(a),
            (None, b) => b,
        }
    }

    fn take(&mut self, p: &BatchPolicy, at_once: bool, now: u64) -> (r: Option<
        (Arc<FrozenBatch>, Vec<Upload>),
    >)
        requires
            old(self)@.wf(),
            old(self)@.freezable(),
        ensures
            final(self)@.wf(),
            if old(self)@.takes(*p, at_once, now) {
                &&& r is Some
                &&& (r->0).0@ == old(self)@.volume.next_frozen(Set::empty())
                &&& upload_views((r->0).1@) == old(self)@.queue
                &&& final(self)@ == old(self)@.taken()
            } else {
                r is None && final(self)@ == old(self)@
            },
    {
        match self.due(p, now) {
            None => {
                return None;
            },
            Some(d) => {
                if d > 0 && !at_once && self.switch.is_none() {
                    return None;
                }
            },
        }
        let none: [&str; 0] = [];
        proof {
            assert(text::views(none@) =~= Seq::<Seq<char>>::empty());
            assert(text::views(none@).to_set() =~= Set::<Seq<char>>::empty());
        }
        let batch = match self.volume.freeze(none.as_slice()) {
            Ok(b) => b,
            Err(_) => {
                return None;
            },
        };
        let mut uploads: Vec<Upload> = Vec::new();
        std::mem::swap(&mut uploads, &mut self.queue);
        let mut tasks: Vec<u64> = Vec::new();
        let mut i: usize = 0;
        let ghost want = upload_views(uploads@).map_values(|u: UploadView| u.task);
        while i < uploads.len()
            invariant
                i <= uploads@.len(),
                want == upload_views(uploads@).map_values(|u: UploadView| u.task),
                tasks@ == want.take(i as int),
            decreases uploads@.len() - i,
        {
            tasks.push(uploads[i].task);
            assert(want.take(i + 1) =~= want.take(i as int).push(want[i as int]));
            i += 1;
        }
        assert(want.take(i as int) =~= want);
        self.queue_bytes = 0;
        self.oldest = None;
        self.newest = None;
        self.in_batch = tasks;
        assert(self@ =~= old(self)@.taken()) by {
            assert(self@.queue =~= Seq::<UploadView>::empty());
        }
        Some((batch, uploads))
    }
}

/// What publishing a batch that reached the tape does to a volume, and the error where it fails.
pub open spec fn publish_result(v: VolumeView, b: BatchView, directories: Set<Seq<char>>) -> (
    VolumeView,
    Option<StateErrorView>,
) {
    let ev = S4Evidence { batch_id: b.batch_id, generation: b.generation };
    match v.publish_refusal(b, ev) {
        Some(e) => (v, Some(e)),
        None => if !v.under_way(b) {
            (v.with_told(b), None)
        } else if v.fail_next_publish {
            (
                v.failed(b),
                Some(
                    StateErrorView::PublishFailed {
                        notified: volume_state::told_ids(v.waiters, b.cover),
                    },
                ),
            )
        } else {
            (v.published(b, b.generation, directories), None)
        },
    }
}

/// The paths of the changes that are directories.
pub open spec fn directory_paths(us: Seq<UploadView>) -> Set<Seq<char>>
    decreases us.len(),
{
    if us.len() == 0 {
        Set::empty()
    } else if us.last().directory {
        directory_paths(us.drop_last()).insert(us.last().path)
    } else {
        directory_paths(us.drop_last())
    }
}

/// `set` without the paths of `us`.
pub open spec fn without_paths(set: Set<Seq<char>>, us: Seq<UploadView>) -> Set<Seq<char>>
    decreases us.len(),
{
    if us.len() == 0 {
        set
    } else {
        without_paths(set, us.drop_last()).remove(us.last().path)
    }
}

/// Where and when a batch was committed.
pub struct CommitView {
    pub generation: u64,
    pub round: u64,
    pub barcode: Seq<char>,
}

/// What is known of a committed change: its record in the new index, where there is one.
pub open spec fn upload_stat(c: CommitView, u: UploadView, found: nodes::Records) -> StatView {
    StatView {
        len: u.len,
        generation: c.generation,
        round: c.round,
        barcode: c.barcode,
        sha256: if found.contains_key(u.path) {
            found[u.path].sha256
        } else {
            Seq::empty()
        },
        deleted: u.delete,
        version: if found.contains_key(u.path) {
            found[u.path].version
        } else {
            (0, 0)
        },
        metadata: if found.contains_key(u.path) {
            found[u.path].metadata
        } else {
            JsonView::Null
        },
    }
}

/// What a record of the new index says.
pub open spec fn record_stat(c: CommitView, r: FileRecView) -> StatView {
    StatView {
        len: r.length,
        generation: c.generation,
        round: c.round,
        barcode: c.barcode,
        sha256: r.sha256,
        deleted: r.deleted,
        version: r.version,
        metadata: r.metadata,
    }
}

/// `m` with the committed changes.
pub open spec fn with_uploads(
    m: Map<Seq<char>, StatView>,
    c: CommitView,
    us: Seq<UploadView>,
    found: nodes::Records,
) -> Map<Seq<char>, StatView>
    decreases us.len(),
{
    if us.len() == 0 {
        m
    } else {
        with_uploads(m, c, us.drop_last(), found).insert(
            us.last().path,
            upload_stat(c, us.last(), found),
        )
    }
}

/// `m` with the records of the new index, in the order of `keys`.
pub open spec fn with_records(
    m: Map<Seq<char>, StatView>,
    c: CommitView,
    keys: Seq<Seq<char>>,
    found: nodes::Records,
) -> Map<Seq<char>, StatView>
    decreases keys.len(),
{
    if keys.len() == 0 {
        m
    } else {
        with_records(m, c, keys.drop_last(), found).insert(
            found[keys.last()].path,
            record_stat(c, found[keys.last()]),
        )
    }
}

/// `m` with the status `st` for the task of every change.
pub open spec fn with_tasks(m: Map<u64, TaskView>, us: Seq<UploadView>, st: TaskView) -> Map<
    u64,
    TaskView,
>
    decreases us.len(),
{
    if us.len() == 0 {
        m
    } else {
        with_tasks(m, us.drop_last(), st).insert(us.last().task, st)
    }
}

/// What writing a batch came to: the generation of the new index and the records of the paths in
/// it, or what went wrong.
pub type BatchResult = Result<(u64, nodes::Records), Seq<char>>;

impl ServingView {
    /// With the batch off the way.
    pub open spec fn batch_left(self, us: Seq<UploadView>) -> ServingView {
        ServingView {
            in_batch: Seq::empty(),
            namespace_pending: without_paths(self.namespace_pending, us),
            admitted: (if self.admitted >= us.len() {
                self.admitted - us.len()
            } else {
                0
            }) as u64,
            ..self
        }
    }

    /// With the batch written or not, and the status of its tasks.
    pub open spec fn batch_done(
        self,
        b: BatchView,
        us: Seq<UploadView>,
        result: BatchResult,
    ) -> (ServingView, TaskView) {
        let s = self.batch_left(us);
        match result {
            Err(e) => (s, TaskView::Indeterminate { reason: e }),
            Ok((generation, found)) => {
                let (v, e) = publish_result(s.volume, b, directory_paths(us));
                let c = CommitView { generation, round: self.round, barcode: self.tape.barcode };
                match e {
                    Some(e) => (
                        ServingView { volume: v, ..s },
                        TaskView::Indeterminate {
                            reason: "已落带但发布失败: "@ + paths::state_error_text(e),
                        },
                    ),
                    None => (
                        ServingView {
                            volume: v,
                            recent: with_records(
                                with_uploads(self.recent, c, us, found),
                                c,
                                strmap::sorted_keys(found),
                                found,
                            ),
                            ..s
                        },
                        TaskView::Committed { generation },
                    ),
                }
            },
        }
    }

    /// A batch can be published without a counter running over.
    pub open spec fn publishable(self, b: BatchView) -> bool {
        &&& self.volume.room(1)
        &&& self.volume.stats.poisoned < u64::MAX
        &&& self.volume.stats.publishes < u64::MAX
        &&& self.volume.stats.nodes_copied + volume_state::total_depth(
            strmap::sorted_keys(b.cover),
        ) <= usize::MAX
    }
}

pub open spec fn result_view(r: Result<(u64, StrMap<FileRec>), String>) -> BatchResult {
    match r {
        Ok((g, m)) => Ok((g, m@)),
        Err(e) => Err(e@),
    }
}

impl Serving {
    fn leave_batch(&mut self, us: &Vec<Upload>)
        ensures
            final(self)@ == old(self)@.batch_left(upload_views(us@)),
    {
        self.in_batch = Vec::new();
        let ghost all = upload_views(us@);
        let ghost before = self.namespace_pending@;
        let ghost s0 = self@;
        let mut i: usize = 0;
        assert(all.take(0) =~= Seq::<UploadView>::empty());
        while i < us.len()
            invariant
                i <= us@.len(),
                all == upload_views(us@),
                self@ == (ServingView {
                    namespace_pending: without_paths(before, all.take(i as int)),
                    ..s0
                }),
            decreases us@.len() - i,
        {
            assert(all.take(i + 1).drop_last() =~= all.take(i as int));
            self.namespace_pending.remove(us[i].path.as_str());
            i += 1;
        }
        assert(all.take(i as int) =~= all);
        let n: u64 = us.len() as u64;
        self.admitted = if self.admitted >= n {
            self.admitted - n
        } else {
            0
        };
        assert(s0.in_batch =~= Seq::<u64>::empty());
    }

    fn record_uploads(
        &mut self,
        generation: u64,
        us: &Vec<Upload>,
        found: &StrMap<FileRec>,
    )
        ensures
            final(self)@ == (ServingView {
                recent: with_uploads(
                    old(self)@.recent,
                    (CommitView {
                        generation,
                        round: old(self)@.round,
                        barcode: old(self)@.tape.barcode,
                    }),
                    upload_views(us@),
                    found@,
                ),
                ..old(self)@
            }),
    {
        let ghost s0 = self@;
        let ghost all = upload_views(us@);
        let ghost c = CommitView { generation, round: s0.round, barcode: s0.tape.barcode };
        let mut i: usize = 0;
        assert(all.take(0) =~= Seq::<UploadView>::empty());
        while i < us.len()
            invariant
                i <= us@.len(),
                all == upload_views(us@),
                c == (CommitView { generation, round: s0.round, barcode: s0.tape.barcode }),
                self@ == (ServingView {
                    recent: with_uploads(s0.recent, c, all.take(i as int), found@),
                    ..s0
                }),
            decreases us@.len() - i,
        {
            proof {
                assert(all.take(i + 1).drop_last() =~= all.take(i as int));
                assert(all.take(i + 1).last() == us@[i as int]@);
            }
            let u = &us[i];
            let (sha256, version, metadata) = match found.get(u.path.as_str()) {
                Some(r) => (r.sha256.clone(), r.version, r.metadata.clone()),
                None => (String::new(), (0, 0), Arc::new(Json::Null)),
            };
            let st = Stat {
                len: u.len,
                generation,
                round: self.round,
                barcode: self.tape.barcode.clone(),
                sha256,
                deleted: u.delete,
                version,
                metadata,
            };
            assert(st@ =~= upload_stat(c, u@, found@));
            self.recent.insert(u.path.clone(), st);
            i += 1;
        }
        assert(all.take(i as int) =~= all);
    }

    fn record_found(&mut self, generation: u64, found: &StrMap<FileRec>)
        ensures
            final(self)@ == (ServingView {
                recent: with_records(
                    old(self)@.recent,
                    (CommitView {
                        generation,
                        round: old(self)@.round,
                        barcode: old(self)@.tape.barcode,
                    }),
                    strmap::sorted_keys(found@),
                    found@,
                ),
                ..old(self)@
            }),
    {
        let ghost s0 = self@;
        let n = found.len();
        let ghost ks = strmap::sorted_keys(found@);
        let ghost c = CommitView { generation, round: s0.round, barcode: s0.tape.barcode };
        let mut i: usize = 0;
        assert(ks.take(0) =~= Seq::<Seq<char>>::empty());
        while i < n
            invariant
                i <= n == ks.len(),
                ks == strmap::sorted_keys(found@),
                forall|j: int| 0 <= j < n ==> found@.contains_key(#[trigger] ks[j]),
                c == (CommitView { generation, round: s0.round, barcode: s0.tape.barcode }),
                self@ == (ServingView {
                    recent: with_records(s0.recent, c, ks.take(i as int), found@),
                    ..s0
                }),
            decreases n - i,
        {
            proof {
                assert(ks.take(i + 1).drop_last() =~= ks.take(i as int));
                assert(ks.take(i + 1).last() == ks[i as int]);
            }
            let r = found.value_at(i);
            self.recent.insert(
                r.path.clone(),
                Stat {
                    len: r.length,
                    generation,
                    round: self.round,
                    barcode: self.tape.barcode.clone(),
                    sha256: r.sha256.clone(),
                    deleted: r.deleted,
                    version: r.version,
                    metadata: r.metadata.clone(),
                },
            );
            i += 1;
        }
        assert(ks.take(i as int) =~= ks);
    }

    fn finish_batch(
        &mut self,
        batch: &FrozenBatch,
        us: &Vec<Upload>,
        result: Result<(u64, StrMap<FileRec>), String>,
    ) -> (r: TaskStatus)
        requires
            old(self)@.wf(),
            old(self)@.publishable(batch@),
        ensures
            final(self)@.wf(),
            (final(self)@, r@) == old(self)@.batch_done(
                batch@,
                upload_views(us@),
                result_view(result),
            ),
    {
        self.leave_batch(us);
        match result {
            Err(e) => TaskStatus::Indeterminate { reason: e },
            Ok((generation, found)) => {
                let directories = directories_of(us);
                let evidence = S4Evidence {
                    batch_id: batch.batch_id,
                    generation: batch.generation,
                };
                match self.volume.publish_namespace(batch, evidence, &directories) {
                    Ok(_) => {
                        self.record_uploads(generation, us, &found);
                        self.record_found(generation, &found);
                        TaskStatus::Committed { generation }
                    },
                    Err(e) => TaskStatus::Indeterminate {
                        reason: text::cat2(
                            "已落带但发布失败: ",
                            paths::describe_state_error(&e).as_str(),
                        ),
                    },
                }
            },
        }
    }
}

fn directories_of(us: &Vec<Upload>) -> (r: StrSet)
    ensures
        r@ == directory_paths(upload_views(us@)),
{
    let ghost all = upload_views(us@);
    let mut out = StrSet::new();
    let mut i: usize = 0;
    assert(all.take(0) =~= Seq::<UploadView>::empty());
    while i < us.len()
        invariant
            i <= us@.len(),
            all == upload_views(us@),
            out@ == directory_paths(all.take(i as int)),
        decreases us@.len() - i,
    {
        proof {
            assert(all.take(i + 1).drop_last() =~= all.take(i as int));
            assert(all.take(i + 1).last() == us@[i as int]@);
        }
        if us[i].directory {
            out.insert(us[i].path.clone());
        }
        i += 1;
    }
    assert(all.take(i as int) =~= all);
    out
}

impl ServiceView {
    /// The serving of `round`.
    pub open spec fn serving_of(self, round: u64) -> Option<ServingView> {
        match self.serving {
            Some(s) => if s.round == round {
                Some(s)
            } else {
                None
            },
            None => None,
        }
    }

    /// With a batch written or not.
    pub open spec fn batch_done(
        self,
        round: u64,
        b: BatchView,
        us: Seq<UploadView>,
        result: BatchResult,
    ) -> ServiceView {
        match self.serving_of(round) {
            None => self,
            Some(s) => {
                let (s2, st) = s.batch_done(b, us, result);
                ServiceView { tasks: with_tasks(self.tasks, us, st), ..self.with_serving(s2) }
            },
        }
    }
}

impl FileService {
    /// Milliseconds until the next batch of `round` is due; none where nothing is queued or a
    /// batch is under way.
    pub fn due_in(&self, round: u64, now: u64) -> (r: Option<u64>)
        ensures
            r == (match self@.serving_of(round) {
                Some(s) => s.due(self@.policy, now),
                None => None,
            }),
    {
        match &self.serving {
            Some(s) => if s.round == round {
                s.due(&self.policy, now)
            } else {
                None
            },
            None => None,
        }
    }

    /// Takes all that is queued and freezes it into a batch, if one is due.
    pub fn take_batch(&mut self, round: u64, now: u64) -> (r: Option<
        (Arc<FrozenBatch>, Vec<Upload>),
    >)
        requires
            old(self)@.wf(),
            old(self)@.serving is Some ==> old(self)@.serving->0.freezable(),
        ensures
            final(self)@.wf(),
            match old(self)@.serving_of(round) {
                Some(s) if s.takes(old(self)@.policy, false, now) => {
                    &&& r is Some
                    &&& (r->0).0@ == s.volume.next_frozen(Set::empty())
                    &&& upload_views((r->0).1@) == s.queue
                    &&& final(self)@ == old(self)@.with_serving(s.taken())
                },
                _ => r is None && final(self)@ == old(self)@,
            },
    {
        self.take(round, false, now)
    }

    /// The same without waiting until a batch is due.
    pub fn take_batch_now(&mut self, round: u64, now: u64) -> (r: Option<
        (Arc<FrozenBatch>, Vec<Upload>),
    >)
        requires
            old(self)@.wf(),
            old(self)@.serving is Some ==> old(self)@.serving->0.freezable(),
        ensures
            final(self)@.wf(),
            match old(self)@.serving_of(round) {
                Some(s) if s.takes(old(self)@.policy, true, now) => {
                    &&& r is Some
                    &&& (r->0).0@ == s.volume.next_frozen(Set::empty())
                    &&& upload_views((r->0).1@) == s.queue
                    &&& final(self)@ == old(self)@.with_serving(s.taken())
                },
                _ => r is None && final(self)@ == old(self)@,
            },
    {
        self.take(round, true, now)
    }

    fn take(&mut self, round: u64, at_once: bool, now: u64) -> (r: Option<
        (Arc<FrozenBatch>, Vec<Upload>),
    >)
        requires
            old(self)@.wf(),
            old(self)@.serving is Some ==> old(self)@.serving->0.freezable(),
        ensures
            final(self)@.wf(),
            match old(self)@.serving_of(round) {
                Some(s) if s.takes(old(self)@.policy, at_once, now) => {
                    &&& r is Some
                    &&& (r->0).0@ == s.volume.next_frozen(Set::empty())
                    &&& upload_views((r->0).1@) == s.queue
                    &&& final(self)@ == old(self)@.with_serving(s.taken())
                },
                _ => r is None && final(self)@ == old(self)@,
            },
    {
        let policy = self.policy;
        match &mut self.serving {
            Some(s) => {
                if s.round == round {
                    s.take(&policy, at_once, now)
                } else {
                    None
                }
            },
            None => None,
        }
    }

    /// What came of a batch. One that reached the tape is published; where writing or publishing
    /// failed its tasks are left open.
    pub fn batch_done(
        &mut self,
        round: u64,
        batch: &FrozenBatch,
        uploads: &Vec<Upload>,
        result: Result<(u64, StrMap<FileRec>), String>,
    )
        requires
            old(self)@.wf(),
            old(self)@.serving is Some ==> old(self)@.serving->0.publishable(batch@),
        ensures
            final(self)@.wf(),
            final(self)@ == old(self)@.batch_done(
                round,
                batch@,
                upload_views(uploads@),
                result_view(result),
            ),
    {
        let st = match &mut self.serving {
            Some(s) => {
                if s.round != round {
                    return;
                }
                s.finish_batch(batch, uploads, result)
            },
            None => {
                return;
            },
        };
        let ghost v0 = self@;
        let ghost all = upload_views(uploads@);
        let mut i: usize = 0;
        assert(all.take(0) =~= Seq::<UploadView>::empty());
        while i < uploads.len()
            invariant
                i <= uploads@.len(),
                all == upload_views(uploads@),
                self@ == (ServiceView {
                    tasks: with_tasks(v0.tasks, all.take(i as int), st@),
                    ..v0
                }),
            decreases uploads@.len() - i,
        {
            proof {
                assert(all.take(i + 1).drop_last() =~= all.take(i as int));
                assert(all.take(i + 1).last() == uploads@[i as int]@);
            }
            self.tasks.insert(uploads[i].task, st.dup());
            i += 1;
        }
        assert(all.take(i as int) =~= all);
    }
}

/// A record of the tape that is opened, with what the directory has on its path.
#[derive(Debug)]
pub struct Opened {
    pub record: FileRec,
    /// Tape and version of the path's present copy.
    pub indexed: Option<(String, (u64, u64))>,
}

/// A newer copy is on another tape.
pub open spec fn superseded(
    indexed: Option<(Seq<char>, (u64, u64))>,
    barcode: Seq<char>,
    version: (u64, u64),
) -> bool {
    indexed matches Some((b, v)) && b != barcode && nodes::version_ge(v, version)
}

pub open spec fn indexed_view(o: Opened) -> Option<(Seq<char>, (u64, u64))> {
    match o.indexed {
        Some((b, v)) => Some((b@, v)),
        None => None,
    }
}

/// What a tape is taken to hold when it is opened: its records but for those that are superseded.
pub open spec fn opened_map(v: Seq<Opened>, c: CommitView) -> Map<Seq<char>, StatView>
    decreases v.len(),
{
    if v.len() == 0 {
        Map::empty()
    } else {
        let o = v.last();
        let m = opened_map(v.drop_last(), c);
        if superseded(indexed_view(o), c.barcode, o.record.version) {
            m
        } else {
            m.insert(o.record.path@, record_stat(c, o.record@))
        }
    }
}

fn opened_recent(records: &Vec<Opened>, generation: u64, round: u64, barcode: &str) -> (r: StrMap<
    Stat,
>)
    ensures
        r@ == opened_map(records@, (CommitView { generation, round, barcode: barcode@ })),
{
    let ghost c = CommitView { generation, round, barcode: barcode@ };
    let mut out: StrMap<Stat> = StrMap::new();
    let mut i: usize = 0;
    assert(records@.take(0) =~= Seq::<Opened>::empty());
    while i < records.len()
        invariant
            i <= records@.len(),
            c == (CommitView { generation, round, barcode: barcode@ }),
            out@ == opened_map(records@.take(i as int), c),
        decreases records@.len() - i,
    {
        assert(records@.take(i + 1).drop_last() =~= records@.take(i as int));
        let o = &records[i];
        let gone = match &o.indexed {
            Some(at) => !text::same(at.0.as_str(), barcode) && nodes::is_version_ge(
                at.1,
                o.record.version,
            ),
            None => false,
        };
        if !gone {
            let rec = &o.record;
            out.insert(
                rec.path.clone(),
                Stat {
                    len: rec.length,
                    generation,
                    round,
                    barcode: barcode.to_owned(),
                    sha256: rec.sha256.clone(),
                    deleted: rec.deleted,
                    version: rec.version,
                    metadata: rec.metadata.clone(),
                },
            );
        }
        i += 1;
    }
    assert(records@.take(i as int) =~= records@);
    out
}

/// Why a task that was only staged has failed.
pub open spec fn not_on_tape(reason: Seq<char>) -> Seq<char> {
    "未落带："@ + reason + "。请向新 Leader 重传"@
}

/// Why a task whose batch was under way is left open.
pub open spec fn not_confirmed(reason: Seq<char>) -> Seq<char> {
    "提交未确认："@ + reason + "。请向新 Leader 查询该路径"@
}

/// `m` with the status `st` for every one of `ids`.
pub open spec fn with_ids(m: Map<u64, TaskView>, ids: Seq<u64>, st: TaskView) -> Map<u64, TaskView>
    decreases ids.len(),
{
    if ids.len() == 0 {
        m
    } else {
        with_ids(m, ids.drop_last(), st).insert(ids.last(), st)
    }
}

impl ServiceView {
    /// With nothing served any more.
    pub open spec fn closed(self, reason: Seq<char>) -> ServiceView {
        ServiceView {
            serving: None,
            why_not: reason,
            no_tape: false,
            read_only: None,
            tasks: match self.serving {
                None => self.tasks,
                Some(s) => with_ids(
                    with_tasks(
                        self.tasks,
                        s.queue,
                        TaskView::Failed { reason: not_on_tape(reason) },
                    ),
                    s.in_batch,
                    TaskView::Indeterminate { reason: not_confirmed(reason) },
                ),
            },
            ..self
        }
    }

    /// The round and the pool that reads are answered from.
    pub open spec fn reading(self) -> Result<(u64, Seq<char>), ServiceErrorView> {
        match (self.serving, self.read_only) {
            (Some(s), _) => Ok((s.round, s.tape.pool_uuid)),
            (None, Some(r)) => Ok(r),
            (None, None) => Err(ServiceErrorView::NotServing(self.why_not)),
        }
    }

    /// What the served tape says of `path`.
    pub open spec fn here(self, path: Seq<char>) -> Option<StatView> {
        match self.serving {
            Some(s) => if s.recent.contains_key(path) {
                Some(s.recent[path])
            } else {
                None
            },
            None => None,
        }
    }

    /// The committed file at `path`: what the served tape says, else what the directory has.
    pub open spec fn stat(self, path: Seq<char>, row: Option<StatView>) -> Result<
        Option<StatView>,
        ServiceErrorView,
    > {
        if !paths::good_path(path) {
            Err(ServiceErrorView::BadPath(path))
        } else {
            match self.reading() {
                Err(e) => Err(e),
                Ok((round, _)) => match self.here(paths::normal(path)) {
                    Some(st) => Ok(
                        if st.deleted {
                            None
                        } else {
                            Some(st)
                        },
                    ),
                    None => Ok(
                        match row {
                            Some(st) => if st.deleted {
                                None
                            } else {
                                Some(StatView { round, ..st })
                            },
                            None => None,
                        },
                    ),
                },
            }
        }
    }

    /// The record at `path`, a tombstone too.
    pub open spec fn lookup(self, path: Seq<char>, row: Option<StatView>) -> Result<
        Option<StatView>,
        ServiceErrorView,
    > {
        if !paths::good_path(path) {
            Err(ServiceErrorView::BadPath(path))
        } else {
            match self.reading() {
                Err(e) => Err(e),
                Ok((round, _)) => match self.here(paths::normal(path)) {
                    Some(st) => Ok(Some(st)),
                    None => Ok(
                        match row {
                            Some(st) => Some(StatView { round, ..st }),
                            None => None,
                        },
                    ),
                },
            }
        }
    }
}

pub open spec fn stat_view(o: Option<Stat>) -> Option<StatView> {
    match o {
        Some(s) => Some(s@),
        None => None,
    }
}

/// `r` is the outcome `v`.
pub open spec fn told_stat(
    r: Result<Option<Stat>, ServiceError>,
    v: Result<Option<StatView>, ServiceErrorView>,
) -> bool {
    match v {
        Ok(s) => r is Ok && stat_view(r->Ok_0) == s,
        Err(e) => r is Err && r->Err_0@ == e,
    }
}

impl FileService {
    /// Opens the service on a tape: `committed` is its index as a tree, `records` what the index
    /// holds. A path whose newer copy is on another tape is left to the directory.
    pub fn open(
        &mut self,
        round: u64,
        tape: TapeIdent,
        limits: TapeLimits,
        committed: Arc<DirNode>,
        generation: u64,
        free_bytes: u64,
        writable: bool,
        records: &Vec<Opened>,
        now: u64,
    )
        requires
            old(self)@.next_serial < u64::MAX,
        ensures
            final(self)@.wf(),
            ({
                let s = final(self)@.serving->0;
                &&& final(self)@ == (ServiceView {
                    serving: Some(s),
                    why_not: Seq::empty(),
                    no_tape: false,
                    next_serial: (old(self)@.next_serial + 1) as u64,
                    ..old(self)@
                })
                &&& s == (ServingView {
                    draining: false,
                    round,
                    serial: old(self)@.next_serial,
                    volume: s.volume,
                    queue: Seq::empty(),
                    queue_bytes: 0,
                    oldest: None,
                    newest: None,
                    in_batch: Seq::empty(),
                    namespace_pending: Set::empty(),
                    opened: now,
                    tape: tape@,
                    limits,
                    admitted: 0,
                    switch: None,
                    recent: opened_map(
                        records@,
                        (CommitView { generation, round, barcode: tape@.barcode }),
                    ),
                })
                &&& s.volume.current.instance == round
                &&& s.volume.current.committed == committed.tree()
                &&& s.volume.current.generation == generation
                &&& s.volume.current.pending == Map::<Seq<char>, PendingEntry>::empty()
                &&& s.volume.current.ledger.available() == free_bytes
                &&& s.volume.current.capability.writable == writable
                &&& s.volume.current.commit_slot is None
                &&& s.volume.current.epoch == 1
                &&& s.volume.next_batch == 1
                &&& s.volume.next_version == 1
                &&& s.volume.next_reservation == 1
                &&& s.volume.next_waiter == 1
            }),
    {
        let recent = opened_recent(records, generation, round, tape.barcode.as_str());
        let volume = VolumeState::new(round, committed, generation, free_bytes, writable);
        let s = Serving {
            draining: false,
            round,
            serial: self.next_serial,
            volume,
            queue: Vec::new(),
            queue_bytes: 0,
            oldest: None,
            newest: None,
            in_batch: Vec::new(),
            namespace_pending: StrSet::new(),
            opened: now,
            tape,
            limits,
            admitted: 0,
            switch: None,
            recent,
        };
        proof {
            assert(s@.queue =~= Seq::<UploadView>::empty());
            assert(s@.in_batch =~= Seq::<u64>::empty());
            assert(volume_state::held_total(s@.volume.current.ledger.reservations) == 0);
        }
        self.next_serial = self.next_serial + 1;
        self.serving = Some(s);
        self.why_not = String::new();
        self.no_tape = false;
        assert(self@.why_not =~= Seq::<char>::empty());
    }

    /// Stops serving. What is only staged has failed; what is in a batch under way is left open.
    /// The staged contents are of no use any more and are returned by where they lie.
    pub fn close(&mut self, reason: &str) -> (r: Vec<String>)
        ensures
            final(self)@ == old(self)@.closed(reason@),
            final(self)@.wf(),
            match old(self)@.serving {
                None => r@.len() == 0,
                Some(s) => r@.len() == s.queue.len() && forall|i: int|
                    0 <= i < r@.len() ==> (#[trigger] r@[i])@ == s.queue[i].spool,
            },
    {
        let serving = self.serving.take();
        self.why_not = reason.to_owned();
        self.no_tape = false;
        self.read_only = None;
        let mut spools: Vec<String> = Vec::new();
        match serving {
            None => {},
            Some(s) => {
                let ghost v0 = self@;
                let failed = TaskStatus::Failed {
                    reason: text::cat3("未落带：", reason, "。请向新 Leader 重传"),
                };
                let open_ended = TaskStatus::Indeterminate {
                    reason: text::cat3(
                        "提交未确认：",
                        reason,
                        "。请向新 Leader 查询该路径",
                    ),
                };
                let ghost all = upload_views(s.queue@);
                let mut i: usize = 0;
                assert(all.take(0) =~= Seq::<UploadView>::empty());
                while i < s.queue.len()
                    invariant
                        i <= s.queue@.len(),
                        all == upload_views(s.queue@),
                        spools@.len() == i,
                        forall|j: int| 0 <= j < i ==> (#[trigger] spools@[j])@ == all[j].spool,
                        self@ == (ServiceView {
                            tasks: with_tasks(v0.tasks, all.take(i as int), failed@),
                            ..v0
                        }),
                    decreases s.queue@.len() - i,
                {
                    proof {
                        assert(all.take(i + 1).drop_last() =~= all.take(i as int));
                        assert(all.take(i + 1).last() == s.queue@[i as int]@);
                    }
                    spools.push(s.queue[i].spool.clone());
                    self.tasks.insert(s.queue[i].task, failed.dup());
                    i += 1;
                }
                assert(all.take(i as int) =~= all);
                let ghost v1 = self@;
                let ghost ids = s.in_batch@;
                let mut i: usize = 0;
                assert(ids.take(0) =~= Seq::<u64>::empty());
                while i < s.in_batch.len()
                    invariant
                        i <= s.in_batch@.len(),
                        ids == s.in_batch@,
                        self@ == (ServiceView {
                            tasks: with_ids(v1.tasks, ids.take(i as int), open_ended@),
                            ..v1
                        }),
                    decreases s.in_batch@.len() - i,
                {
                    assert(ids.take(i + 1).drop_last() =~= ids.take(i as int));
                    self.tasks.insert(s.in_batch[i], open_ended.dup());
                    i += 1;
                }
                assert(ids.take(i as int) =~= ids);
            },
        }
        spools
    }

    /// Stops serving because the pool has no tape to write to. Its directory can still be read.
    pub fn close_no_tape(&mut self, round: u64, pool_uuid: Option<String>, reason: &str) -> (r: Vec<
        String,
    >)
        ensures
            final(self)@ == (ServiceView {
                no_tape: true,
                read_only: match pool_uuid {
                    Some(p) => Some((round, p@)),
                    None => None,
                },
                ..old(self)@.closed(reason@)
            }),
            final(self)@.wf(),
            match old(self)@.serving {
                None => r@.len() == 0,
                Some(s) => r@.len() == s.queue.len() && forall|i: int|
                    0 <= i < r@.len() ==> (#[trigger] r@[i])@ == s.queue[i].spool,
            },
    {
        let spools = self.close(reason);
        self.no_tape = true;
        self.read_only = match pool_uuid {
            Some(p) => Some(ReadOnly { round, pool_uuid: p }),
            None => None,
        };
        spools
    }

    /// Whether nothing is queued, being written, let in or waiting for a switch.
    pub fn write_side_idle(&self, round: u64) -> (r: bool)
        ensures
            r == (match self@.serving_of(round) {
                Some(s) => s.queue.len() == 0 && s.in_batch.len() == 0 && s.admitted == 0
                    && s.switch is None,
                None => false,
            }),
    {
        match &self.serving {
            Some(s) => s.round == round && s.queue.len() == 0 && s.in_batch.len() == 0
                && s.admitted == 0 && s.switch.is_none(),
            None => false,
        }
    }

    pub fn policy(&self) -> (r: BatchPolicy)
        ensures
            r == self@.policy,
    {
        self.policy
    }

    /// The files and the bytes in the queue.
    pub fn queued(&self, round: u64) -> (r: Option<(usize, u64)>)
        ensures
            match self@.serving_of(round) {
                Some(s) => r is Some && (r->0).0 == s.queue.len() && (r->0).1 == s.queue_bytes,
                None => r is None,
            },
    {
        match &self.serving {
            Some(s) => if s.round == round {
                Some((s.queue.len(), s.queue_bytes))
            } else {
                None
            },
            None => None,
        }
    }

    /// The state of the tape after the switch that is asked for.
    pub fn switch_requested(&self, round: u64) -> (r: Option<String>)
        ensures
            nodes::text_view(r) == (match self@.serving_of(round) {
                Some(s) => s.switch,
                None => None,
            }),
    {
        match &self.serving {
            Some(s) => if s.round == round {
                nodes::dup_text(&s.switch)
            } else {
                None
            },
            None => None,
        }
    }

    /// Takes no new change, and keeps what is queued.
    pub fn drain(&mut self)
        ensures
            final(self)@ == (match old(self)@.serving {
                Some(s) => old(self)@.with_serving(ServingView { draining: true, ..s }),
                None => old(self)@,
            }),
            old(self)@.wf() ==> final(self)@.wf(),
    {
        match &mut self.serving {
            Some(s) => {
                s.draining = true;
            },
            None => {},
        }
    }

    pub fn serving_round(&self) -> (r: Option<u64>)
        ensures
            r == (match self@.serving {
                Some(s) => Some(s.round),
                None => None,
            }),
    {
        match &self.serving {
            Some(s) => Some(s.round),
            None => None,
        }
    }

    /// The tape that is served.
    pub fn tape(&self) -> (r: Option<TapeIdent>)
        ensures
            match self@.serving {
                Some(s) => r is Some && r->0@ == s.tape,
                None => r is None,
            },
    {
        match &self.serving {
            Some(s) => Some(s.tape.dup()),
            None => None,
        }
    }

    pub fn task(&self, id: u64) -> (r: Option<TaskStatus>)
        ensures
            r is Some <==> self@.tasks.contains_key(id),
            r is Some ==> r->0@ == self@.tasks[id],
    {
        match self.tasks.get(id) {
            Some(t) => Some(t.dup()),
            None => None,
        }
    }

    /// Whether whoever waits for a task has an answer: the task is unknown or no longer staged,
    /// or the time is up.
    pub fn wait_over(&self, id: u64, time_up: bool) -> (r: bool)
        ensures
            r == (time_up || !self@.tasks.contains_key(id) || self@.tasks[id] !is Staged),
    {
        match self.tasks.get(id) {
            Some(TaskStatus::Staged) => time_up,
            _ => true,
        }
    }

    /// The round and the pool that reads are answered from.
    pub fn reading(&self) -> (r: Result<(u64, String), ServiceError>)
        ensures
            match self@.reading() {
                Ok((n, p)) => r is Ok && r->Ok_0.0 == n && r->Ok_0.1@ == p,
                Err(e) => r is Err && r->Err_0@ == e,
            },
    {
        match &self.serving {
            Some(s) => Ok((s.round, s.tape.pool_uuid.clone())),
            None => match &self.read_only {
                Some(r) => Ok((r.round, r.pool_uuid.clone())),
                None => Err(ServiceError::NotServing(self.why_not.clone())),
            },
        }
    }

    /// The committed file at `path`. `row` is what the directory has on it.
    pub fn stat(&self, path: &str, row: Option<Stat>) -> (r: Result<Option<Stat>, ServiceError>)
        ensures
            told_stat(r, self@.stat(path@, stat_view(row))),
    {
        match self.lookup(path, row) {
            Err(e) => Err(e),
            Ok(None) => Ok(None),
            Ok(Some(st)) => {
                if st.deleted {
                    Ok(None)
                } else {
                    Ok(Some(st))
                }
            },
        }
    }

    /// The record at `path`, a tombstone too. `row` is what the directory has on it.
    pub fn lookup(&self, path: &str, row: Option<Stat>) -> (r: Result<Option<Stat>, ServiceError>)
        ensures
            told_stat(r, self@.lookup(path@, stat_view(row))),
    {
        let p = match paths::norm(path) {
            Ok(p) => p,
            Err(e) => {
                return Err(e);
            },
        };
        let (round, _) = match self.reading() {
            Ok(x) => x,
            Err(e) => {
                return Err(e);
            },
        };
        match &self.serving {
            Some(s) => match s.recent.get(p.as_str()) {
                Some(st) => {
                    return Ok(Some(st.dup()));
                },
                None => {},
            },
            None => {},
        }
        match row {
            Some(st) => {
                let mut st = st;
                st.round = round;
                Ok(Some(st))
            },
            None => Ok(None),
        }
    }
}

/// What a new version of a file takes over from the present one: its attributes.
pub open spec fn carried_over(current: Option<StatView>) -> Result<
    Option<FileMetadataView>,
    ServiceErrorView,
> {
    match current {
        None => Ok(None),
        Some(st) => match st.metadata.list_in("xattrs"@) {
            None => Err(
                ServiceErrorView::Io("当前文件缺少扩展属性记录，拒绝有损覆盖"@),
            ),
            Some(attrs) => match nodes::xattrs_of(attrs) {
                None => Err(
                    ServiceErrorView::Io("当前文件扩展属性记录损坏，拒绝覆盖"@),
                ),
                Some(xattrs) => Ok(Some(FileMetadataView { meta: None, xattrs })),
            },
        },
    }
}

fn carry_over(current: &Option<Stat>) -> (r: Result<Option<FileMetadata>, ServiceError>)
    ensures
        match carried_over(stat_view(*current)) {
            Ok(m) => r is Ok && metadata_view(r->Ok_0) == m,
            Err(e) => r is Err && r->Err_0@ == e,
        },
{
    match current {
        None => Ok(None),
        Some(st) => match st.metadata.list_in("xattrs") {
            None => Err(
                ServiceError::Io(
                    "当前文件缺少扩展属性记录，拒绝有损覆盖".to_owned(),
                ),
            ),
            Some(attrs) => match nodes::read_xattrs(attrs) {
                None => Err(
                    ServiceError::Io("当前文件扩展属性记录损坏，拒绝覆盖".to_owned()),
                ),
                Some(xattrs) => Ok(Some(FileMetadata { meta: None, xattrs })),
            },
        },
    }
}

pub open spec fn metadata_view(o: Option<FileMetadata>) -> Option<FileMetadataView> {
    match o {
        Some(m) => Some(m@),
        None => None,
    }
}

impl ServingView {
    /// With the upload given up.
    pub open spec fn aborted(self, task: u64) -> ServingView {
        ServingView {
            volume: session_ended(self.volume, task),
            admitted: (if self.admitted >= 1 {
                self.admitted - 1
            } else {
                0
            }) as u64,
            ..self
        }
    }

    /// With the upload complete and queued, or the error. A service that drains gives it up.
    pub open spec fn finished(
        self,
        h: HandleView,
        spool: Seq<char>,
        len: u64,
        metadata: Option<FileMetadataView>,
        now: u64,
    ) -> (ServingView, Option<ServiceErrorView>) {
        if self.draining {
            (
                self.aborted(h.task),
                Some(ServiceErrorView::NotServing("正在停机，请重新上传"@)),
            )
        } else if !self.volume.current.pending.contains_key(h.path) {
            (self, Some(paths::mapped(StateErrorView::NoSuchPending(h.path))))
        } else {
            (
                ServingView {
                    volume: change_ready(self.volume, h.path),
                    queue_bytes: (self.queue_bytes + len) as u64,
                    ..self
                }.queued(UploadView { spool, len, metadata, ..bare(h.task, h.path) }, now),
                None,
            )
        }
    }
}

impl ServiceView {
    /// With the upload given up.
    pub open spec fn aborted(self, h: HandleView) -> ServiceView {
        match self.serving_of(h.round) {
            Some(s) => self.with_serving(s.aborted(h.task)),
            None => self,
        }
    }

    /// With the upload queued and its task staged, or the error.
    pub open spec fn finished(
        self,
        h: HandleView,
        spool: Seq<char>,
        len: u64,
        metadata: Option<FileMetadataView>,
        now: u64,
    ) -> (ServiceView, Result<u64, ServiceErrorView>) {
        match self.serving_of(h.round) {
            None => (self, Err(ServiceErrorView::NotServing(self.why_not))),
            Some(s) => {
                let (s2, e) = s.finished(h, spool, len, metadata, now);
                match e {
                    Some(e) => (self.with_serving(s2), Err(e)),
                    None => (
                        ServiceView {
                            tasks: self.tasks.insert(h.task, TaskView::Staged),
                            ..self.with_serving(s2)
                        },
                        Ok(h.task),
                    ),
                }
            },
        }
    }
}

impl Serving {
    fn abort(&mut self, task: u64)
        requires
            old(self)@.wf(),
            old(self)@.volume.room(1),
        ensures
            final(self)@.wf(),
            final(self)@ == old(self)@.aborted(task),
    {
        let _ = self.volume.cancel(task);
        if self.admitted >= 1 {
            self.admitted = self.admitted - 1;
        }
    }

    fn finish(
        &mut self,
        h: &UploadHandle,
        spool: String,
        len: u64,
        metadata: Option<FileMetadata>,
        now: u64,
    ) -> (r: Result<(), ServiceError>)
        requires
            old(self)@.wf(),
            old(self)@.volume.room(1),
            old(self)@.queue_bytes + len <= u64::MAX,
        ensures
            final(self)@.wf(),
            ({
                let (s, e) = old(self)@.finished(
                    h@,
                    spool@,
                    len,
                    metadata_view(metadata),
                    now,
                );
                final(self)@ == s && answered(r, e)
            }),
    {
        if self.draining {
            self.abort(h.task);
            return Err(ServiceError::NotServing("正在停机，请重新上传".to_owned()));
        }
        match self.volume.complete(h.path.as_str()) {
            Ok(_) => {},
            Err(e) => {
                return Err(paths::map_state(e));
            },
        }
        let mut u = bare_upload(h.task, h.path.clone());
        u.spool = spool;
        u.len = len;
        u.metadata = metadata;
        self.queue_bytes = self.queue_bytes + len;
        self.enqueue(u, now);
        Ok(())
    }
}

impl FileService {
    /// Counts content of an upload that has come in against what was set aside for it.
    pub fn ingest(&mut self, h: &UploadHandle, bytes: u64) -> (r: Result<(), ServiceError>)
        requires
            old(self)@.wf(),
            old(self)@.takes(h@, bytes),
        ensures
            final(self)@.wf(),
            match old(self)@.serving_of(h@.round) {
                None => {
                    &&& final(self)@ == old(self)@
                    &&& r is Err
                    &&& r->Err_0@ == ServiceErrorView::NotServing(old(self)@.why_not)
                },
                Some(s) => match s.volume.ingest_refusal(h@.path, bytes) {
                    Some(e) => {
                        &&& final(self)@ == old(self)@
                        &&& r is Err
                        &&& r->Err_0@ == paths::mapped(e)
                    },
                    None => {
                        &&& r is Ok
                        &&& final(self)@ == old(self)@.with_serving(
                            ServingView { volume: s.volume.ingested(h@.path, bytes), ..s },
                        )
                    },
                },
            },
    {
        let why = self.why_not.clone();
        match &mut self.serving {
            Some(s) => {
                if s.round != h.round {
                    return Err(ServiceError::NotServing(why));
                }
                match s.volume.ingest(h.path.as_str(), bytes) {
                    Ok(_) => Ok(()),
                    Err(e) => Err(paths::map_state(e)),
                }
            },
            None => Err(ServiceError::NotServing(why)),
        }
    }

    /// Ends an upload whose content is wholly staged at `spool`: it keeps the attributes of the
    /// present version, which is `current`. Where these cannot be had the upload is given up.
    pub fn finish(
        &mut self,
        h: UploadHandle,
        spool: String,
        len: u64,
        current: Result<Option<Stat>, ServiceError>,
        now: u64,
    ) -> (r: Result<u64, ServiceError>)
        requires
            old(self)@.wf(),
            old(self)@.ends(len),
        ensures
            final(self)@.wf(),
            match current {
                Err(e) => final(self)@ == old(self)@.aborted(h@) && r is Err && r->Err_0 == e,
                Ok(st) => match carried_over(stat_view(st)) {
                    Err(e) => final(self)@ == old(self)@.aborted(h@) && r is Err && r->Err_0@
                        == e,
                    Ok(m) => {
                        let (v, t) = old(self)@.finished(h@, spool@, len, m, now);
                        final(self)@ == v && numbered(r, t)
                    },
                },
            },
    {
        let st = match current {
            Ok(st) => st,
            Err(e) => {
                self.abort(h);
                return Err(e);
            },
        };
        match carry_over(&st) {
            Ok(m) => self.finish_with_metadata(h, spool, len, m, now),
            Err(e) => {
                self.abort(h);
                Err(e)
            },
        }
    }

    /// Ends an upload: its change is ready, queued, and its task staged.
    pub fn finish_with_metadata(
        &mut self,
        h: UploadHandle,
        spool: String,
        len: u64,
        metadata: Option<FileMetadata>,
        now: u64,
    ) -> (r: Result<u64, ServiceError>)
        requires
            old(self)@.wf(),
            old(self)@.ends(len),
        ensures
            final(self)@.wf(),
            ({
                let (v, t) = old(self)@.finished(
                    h@,
                    spool@,
                    len,
                    metadata_view(metadata),
                    now,
                );
                final(self)@ == v && numbered(r, t)
            }),
    {
        let why = self.why_not.clone();
        match &mut self.serving {
            Some(s) => {
                if s.round != h.round {
                    return Err(ServiceError::NotServing(why));
                }
                match s.finish(&h, spool, len, metadata, now) {
                    Ok(_) => {
                        self.tasks.insert(h.task, TaskStatus::Staged);
                        Ok(h.task)
                    },
                    Err(e) => Err(e),
                }
            },
            None => Err(ServiceError::NotServing(why)),
        }
    }

    /// Gives an upload up.
    pub fn abort(&mut self, h: UploadHandle)
        requires
            old(self)@.wf(),
            old(self)@.serving is Some ==> old(self)@.serving->0.volume.room(1),
        ensures
            final(self)@.wf(),
            final(self)@ == old(self)@.aborted(h@),
    {
        match &mut self.serving {
            Some(s) => {
                if s.round == h.round {
                    s.abort(h.task);
                }
            },
            None => {},
        }
    }
}

/// A change on a path that is not committed, and the length that has come in.
#[derive(Debug, Clone, Copy, PartialEq, Eq, Structural)]
pub struct Flight {
    pub kind: InFlight,
    pub len: u64,
}

/// All there is on a path: the committed version, and the change under way.
#[derive(Debug)]
pub struct PathState {
    pub committed: Option<Stat>,
    pub in_flight: Option<Flight>,
}

/// A direct child of a directory.
#[derive(Debug, Clone, Copy, PartialEq, Eq, Structural)]
pub enum DirEntry {
    /// The length of the committed version, and the change under way.
    File { committed: Option<u64>, in_flight: Option<Flight> },
    Dir,
}

impl View for DirEntry {
    type V = DirEntry;

    open spec fn view(&self) -> DirEntry {
        *self
    }
}

/// A live node: its length and its kind.
#[derive(Debug, Clone, Copy, PartialEq, Eq, Structural)]
pub struct NodeInfo {
    pub len: u64,
    pub directory: bool,
}

impl View for NodeInfo {
    type V = NodeInfo;

    open spec fn view(&self) -> NodeInfo {
        *self
    }
}

/// A live node as the directory lists it.
#[derive(Debug, Clone, PartialEq, Eq)]
pub struct NodeRow {
    pub path: String,
    pub info: NodeInfo,
}

pub type Infos = Map<Seq<char>, NodeInfo>;

/// `base` with the directory's rows: what the served tape says of a path counts first.
pub open spec fn with_rows(
    base: Infos,
    recent: Map<Seq<char>, StatView>,
    rows: Seq<NodeRow>,
) -> Infos
    decreases rows.len(),
{
    if rows.len() == 0 {
        base
    } else {
        let m = with_rows(base, recent, rows.drop_last());
        let p = rows.last().path@;
        if (recent.contains_key(p) && recent[p].deleted) || m.contains_key(p) {
            m
        } else {
            m.insert(p, rows.last().info)
        }
    }
}

/// The live nodes of the served tape.
pub open spec fn live_here(recent: Map<Seq<char>, StatView>) -> Infos {
    Map::new(
        |p: Seq<char>| recent.contains_key(p) && !recent[p].deleted,
        |p: Seq<char>|
            NodeInfo { len: recent[p].len, directory: nodes::dir_kind(recent[p].metadata) },
    )
}

impl ServiceView {
    /// Every live node.
    pub open spec fn all_nodes(self, rows: Seq<NodeRow>) -> Infos {
        match self.serving {
            Some(s) => with_rows(live_here(s.recent), s.recent, rows),
            None => with_rows(Map::empty(), Map::empty(), rows),
        }
    }

    /// The live files with their lengths.
    pub open spec fn file_lengths(self, rows: Seq<NodeRow>) -> Map<Seq<char>, u64> {
        let all = self.all_nodes(rows);
        Map::new(
            |p: Seq<char>| all.contains_key(p) && !all[p].directory,
            |p: Seq<char>| all[p].len,
        )
    }

    /// The change under way on `path`, where it is an upload or the removal of a file.
    pub open spec fn in_flight(self, path: Seq<char>) -> Option<Flight> {
        match self.serving {
            None => None,
            Some(s) => if s.namespace_pending.contains(path)
                || !s.volume.current.pending.contains_key(path) {
                None
            } else {
                Some(flight_of(s.volume.current.pending[path]))
            },
        }
    }
}

pub open spec fn flight_of(e: PendingEntry) -> Flight {
    Flight { kind: paths::flight(e), len: e.staged_len }
}

fn flight_of_entry(e: &PendingEntry) -> (r: Flight)
    ensures
        r == flight_of(*e),
{
    Flight { kind: paths::in_flight_of(e), len: e.staged_len }
}

fn first_of<T: Copy>(a: Option<T>, b: Option<T>) -> (r: Option<T>)
    ensures
        r == (if a is Some {
            a
        } else {
            b
        }),
{
    match a {
        Some(_) => a,
        None => b,
    }
}

/// The children of a directory by name.
pub type Children = Map<Seq<char>, DirEntry>;

/// `out` with the node at `path` entered under the directory whose path and slash are `prefix`:
/// as a directory if it lies deeper, else as a file. Neither takes the other's place.
pub open spec fn entered(
    out: Children,
    prefix: Seq<char>,
    path: Seq<char>,
    committed: Option<u64>,
    flight: Option<Flight>,
) -> Children {
    let rest = path.skip(prefix.len() as int);
    let i = text::first(rest, '/') as int;
    if !text::has_prefix(path, prefix) || rest.len() == 0 {
        out
    } else if i < rest.len() {
        if out.contains_key(rest.take(i)) {
            out
        } else {
            out.insert(rest.take(i), DirEntry::Dir)
        }
    } else if !out.contains_key(rest) {
        out.insert(rest, DirEntry::File { committed, in_flight: flight })
    } else {
        match out[rest] {
            DirEntry::Dir => out,
            DirEntry::File { committed: c, in_flight: f } => out.insert(
                rest,
                DirEntry::File {
                    committed: if c is Some {
                        c
                    } else {
                        committed
                    },
                    in_flight: if f is Some {
                        f
                    } else {
                        flight
                    },
                },
            ),
        }
    }
}

fn enter(
    out: &mut StrMap<DirEntry>,
    prefix: &str,
    path: &str,
    committed: Option<u64>,
    flight: Option<Flight>,
)
    ensures
        final(out)@ == entered(old(out)@, prefix@, path@, committed, flight),
{
    if !text::starts_with(path, prefix) {
        return;
    }
    let v = text::chars(path);
    let n = text::chars(prefix).len();
    let rest = text::text_of(v.as_slice(), n, v.len());
    assert(rest@ =~= path@.skip(n as int));
    if n == v.len() {
        return;
    }
    let i = text::find(rest.as_str(), '/');
    if i < v.len() - n {
        let w = text::chars(rest.as_str());
        let sub = text::text_of(w.as_slice(), 0, i);
        assert(sub@ =~= rest@.take(i as int));
        if !out.contains_key(sub.as_str()) {
            out.insert(sub, DirEntry::Dir);
        }
        return;
    }
    let now = match out.get(rest.as_str()) {
        Some(e) => *e,
        None => DirEntry::File { committed: None, in_flight: None },
    };
    match now {
        DirEntry::Dir => {},
        DirEntry::File { committed: c, in_flight: f } => {
            out.insert(
                rest,
                DirEntry::File {
                    committed: first_of(c, committed),
                    in_flight: first_of(f, flight),
                },
            );
        },
    }
}

/// The children that the nodes at `keys` make.
pub open spec fn children_of(prefix: Seq<char>, keys: Seq<Seq<char>>, infos: Infos) -> Children
    decreases keys.len(),
{
    if keys.len() == 0 {
        Map::empty()
    } else {
        let out = children_of(prefix, keys.drop_last(), infos);
        let p = keys.last();
        if infos[p].directory {
            entered(out, prefix, p + "/"@, None, None)
        } else {
            entered(out, prefix, p, Some(infos[p].len), None)
        }
    }
}

/// `out` with the change `f` on `path` marked, where a committed child is what it changes.
pub open spec fn marked(out: Children, prefix: Seq<char>, path: Seq<char>, f: Flight) -> Children {
    let name = path.skip(prefix.len() as int);
    if text::has_prefix(path, prefix) && out.contains_key(name) {
        match out[name] {
            DirEntry::Dir => out,
            DirEntry::File { committed, in_flight: _ } => out.insert(
                name,
                DirEntry::File { committed, in_flight: Some(f) },
            ),
        }
    } else {
        out
    }
}

fn mark(out: &mut StrMap<DirEntry>, prefix: &str, path: &str, f: Flight)
    ensures
        final(out)@ == marked(old(out)@, prefix@, path@, f),
{
    if !text::starts_with(path, prefix) {
        return;
    }
    let n = text::chars(prefix).len();
    let name = text::skip_chars(path, n);
    let now = match out.get(name.as_str()) {
        Some(e) => *e,
        None => {
            return;
        },
    };
    match now {
        DirEntry::Dir => {},
        DirEntry::File { committed, in_flight: _ } => {
            out.insert(name, DirEntry::File { committed, in_flight: Some(f) });
        },
    }
}

/// `out` with the changes under way at `keys`: entered as children where `pending` is set, else
/// marked on committed ones.
pub open spec fn with_flights(
    out: Children,
    s: ServingView,
    prefix: Seq<char>,
    keys: Seq<Seq<char>>,
    pending: bool,
) -> Children
    decreases keys.len(),
{
    if keys.len() == 0 {
        out
    } else {
        let m = with_flights(out, s, prefix, keys.drop_last(), pending);
        let p = keys.last();
        let f = flight_of(s.volume.current.pending[p]);
        if s.namespace_pending.contains(p) {
            m
        } else if pending {
            entered(m, prefix, p, None, Some(f))
        } else {
            marked(m, prefix, p, f)
        }
    }
}

/// The text is nothing but slashes.
pub open spec fn is_root(dir: Seq<char>) -> bool {
    forall|i: int| 0 <= i < dir.len() ==> #[trigger] dir[i] == '/'
}

impl ServiceView {
    /// The direct children of `dir`; none where there is no such directory.
    pub open spec fn dir_listing(self, dir: Seq<char>, pending: bool, rows: Seq<NodeRow>) -> Result<
        Option<Children>,
        ServiceErrorView,
    > {
        let key = if is_root(dir) {
            Seq::empty()
        } else {
            paths::normal(dir)
        };
        let prefix = key + "/"@;
        let infos = self.all_nodes(rows);
        if !is_root(dir) && !paths::good_path(dir) {
            Err(ServiceErrorView::BadPath(dir))
        } else if self.reading() is Err {
            Err(self.reading()->Err_0)
        } else if infos.contains_key(key) && !infos[key].directory {
            Err(ServiceErrorView::NotDirectory(dir))
        } else {
            let committed = children_of(prefix, strmap::sorted_keys(infos), infos);
            let out = match self.serving {
                Some(s) => with_flights(
                    committed,
                    s,
                    prefix,
                    strmap::sorted_keys(s.volume.current.pending),
                    pending,
                ),
                None => committed,
            };
            if out == Map::<Seq<char>, DirEntry>::empty() && !is_root(dir) && !infos.contains_key(
                key,
            ) {
                Ok(None)
            } else {
                Ok(Some(out))
            }
        }
    }
}

fn all_slashes(dir: &str) -> (r: bool)
    ensures
        r == is_root(dir@),
{
    let v = text::chars(dir);
    let mut i: usize = 0;
    while i < v.len()
        invariant
            v@ == dir@,
            i <= v@.len(),
            forall|j: int| 0 <= j < i ==> #[trigger] v@[j] == '/',
        decreases v@.len() - i,
    {
        if v[i] != '/' {
            assert(dir@[i as int] != '/');
            return false;
        }
        i += 1;
    }
    true
}

impl FileService {
    /// Every live node: what the served tape holds, and what the directory has beyond it.
    pub fn list_nodes(&self, rows: &Vec<NodeRow>) -> (r: Result<StrMap<NodeInfo>, ServiceError>)
        ensures
            match self@.reading() {
                Err(e) => r is Err && r->Err_0@ == e,
                Ok(_) => r is Ok && r->Ok_0@ == self@.all_nodes(rows@),
            },
    {
        match self.reading() {
            Err(e) => {
                return Err(e);
            },
            Ok(_) => {},
        }
        let empty: StrMap<Stat> = StrMap::new();
        let recent = match &self.serving {
            Some(s) => &s.recent,
            None => &empty,
        };
        let mut out: StrMap<NodeInfo> = StrMap::new();
        let n = recent.len();
        let ghost ks = strmap::sorted_keys(recent@);
        let ghost base = live_here(recent@);
        let mut i: usize = 0;
        while i < n
            invariant
                i <= n == ks.len(),
                ks == strmap::sorted_keys(recent@),
                ks.no_duplicates(),
                base == live_here(recent@),
                forall|j: int| 0 <= j < n ==> recent@.contains_key(#[trigger] ks[j]),
                forall|p: Seq<char>| #[trigger]
                    out@.contains_key(p) <==> base.contains_key(p) && exists|j: int|
                        0 <= j < i && ks[j] == p,
                forall|p: Seq<char>| #[trigger] out@.contains_key(p) ==> out@[p] == base[p],
            decreases n - i,
        {
            let st = recent.value_at(i);
            if !st.deleted {
                out.insert(
                    recent.key_at(i).clone(),
                    NodeInfo { len: st.len, directory: nodes::is_directory(&st.metadata) },
                );
            }
            i += 1;
        }
        assert(out@ =~= base) by {
            assert forall|p: Seq<char>| base.contains_key(p) implies out@.contains_key(p) by {
                assert(ks.contains(p));
            }
        }
        assert(self@.serving is None ==> base =~= Map::<Seq<char>, NodeInfo>::empty());
        let mut i: usize = 0;
        assert(rows@.take(0) =~= Seq::<NodeRow>::empty());
        while i < rows.len()
            invariant
                i <= rows@.len(),
                out@ == with_rows(base, recent@, rows@.take(i as int)),
            decreases rows@.len() - i,
        {
            assert(rows@.take(i + 1).drop_last() =~= rows@.take(i as int));
            let row = &rows[i];
            let gone = match recent.get(row.path.as_str()) {
                Some(st) => st.deleted,
                None => false,
            };
            if !gone && !out.contains_key(row.path.as_str()) {
                out.insert(row.path.clone(), row.info);
            }
            i += 1;
        }
        assert(rows@.take(i as int) =~= rows@);
        Ok(out)
    }

    /// The lengths of the live files.
    pub fn list(&self, rows: &Vec<NodeRow>) -> (r: Result<StrMap<u64>, ServiceError>)
        ensures
            match self@.reading() {
                Err(e) => r is Err && r->Err_0@ == e,
                Ok(_) => r is Ok && r->Ok_0@ == self@.file_lengths(rows@),
            },
    {
        let infos = match self.list_nodes(rows) {
            Ok(m) => m,
            Err(e) => {
                return Err(e);
            },
        };
        let mut out: StrMap<u64> = StrMap::new();
        let n = infos.len();
        let ghost ks = strmap::sorted_keys(infos@);
        let ghost want = Map::new(
            |p: Seq<char>| infos@.contains_key(p) && !infos@[p].directory,
            |p: Seq<char>| infos@[p].len,
        );
        let mut i: usize = 0;
        while i < n
            invariant
                i <= n == ks.len(),
                ks == strmap::sorted_keys(infos@),
                forall|j: int| 0 <= j < n ==> infos@.contains_key(#[trigger] ks[j]),
                want == Map::new(
                    |p: Seq<char>| infos@.contains_key(p) && !infos@[p].directory,
                    |p: Seq<char>| infos@[p].len,
                ),
                forall|p: Seq<char>| #[trigger]
                    out@.contains_key(p) <==> want.contains_key(p) && exists|j: int|
                        0 <= j < i && ks[j] == p,
                forall|p: Seq<char>| #[trigger] out@.contains_key(p) ==> out@[p] == want[p],
            decreases n - i,
        {
            let info = *infos.value_at(i);
            if !info.directory {
                out.insert(infos.key_at(i).clone(), info.len);
            }
            i += 1;
        }
        assert(out@ =~= want) by {
            assert forall|p: Seq<char>| want.contains_key(p) implies out@.contains_key(p) by {
                assert(ks.contains(p));
            }
        }
        Ok(out)
    }

    fn in_flight(&self, path: &str) -> (r: Option<Flight>)
        ensures
            r == self@.in_flight(path@),
    {
        match &self.serving {
            None => None,
            Some(s) => {
                if s.namespace_pending.contains(path) {
                    return None;
                }
                let root = s.volume.load();
                match root.pending.get(path) {
                    Some(e) => Some(flight_of_entry(e)),
                    None => None,
                }
            },
        }
    }

    /// All there is on a path: the committed version, and the change under way.
    pub fn stat_full(&self, path: &str, row: Option<Stat>) -> (r: Result<PathState, ServiceError>)
        ensures
            match self@.stat(path@, stat_view(row)) {
                Err(e) => r is Err && r->Err_0@ == e,
                Ok(st) => {
                    &&& r is Ok
                    &&& stat_view(r->Ok_0.committed) == st
                    &&& r->Ok_0.in_flight == self@.in_flight(paths::normal(path@))
                },
            },
    {
        let p = match paths::norm(path) {
            Ok(p) => p,
            Err(e) => {
                return Err(e);
            },
        };
        match self.stat(path, row) {
            Err(e) => Err(e),
            Ok(committed) => Ok(PathState { committed, in_flight: self.in_flight(p.as_str()) }),
        }
    }

    /// The direct children of a directory. A directory without a record of its own is there as
    /// long as something lies below it. With `pending` the changes under way are listed too.
    pub fn list_dir(&self, dir: &str, pending: bool, rows: &Vec<NodeRow>) -> (r: Result<
        Option<StrMap<DirEntry>>,
        ServiceError,
    >)
        ensures
            match self@.dir_listing(dir@, pending, rows@) {
                Err(e) => r is Err && r->Err_0@ == e,
                Ok(None) => r is Ok && r->Ok_0 is None,
                Ok(Some(m)) => r is Ok && r->Ok_0 is Some && (r->Ok_0->0)@ == m,
            },
    {
        let root = all_slashes(dir);
        let key = if root {
            String::new()
        } else {
            match paths::norm(dir) {
                Ok(p) => p,
                Err(e) => {
                    return Err(e);
                },
            }
        };
        assert(root ==> key@ =~= Seq::<char>::empty());
        let infos = match self.list_nodes(rows) {
            Ok(m) => m,
            Err(e) => {
                return Err(e);
            },
        };
        let own = infos.get(key.as_str());
        match own {
            Some(info) => {
                if !info.directory {
                    return Err(ServiceError::NotDirectory(dir.to_owned()));
                }
            },
            None => {},
        }
        let exists = root || own.is_some();
        let prefix = text::cat2(key.as_str(), "/");
        let mut out: StrMap<DirEntry> = StrMap::new();
        let n = infos.len();
        let ghost ks = strmap::sorted_keys(infos@);
        let mut i: usize = 0;
        assert(ks.take(0) =~= Seq::<Seq<char>>::empty());
        while i < n
            invariant
                i <= n == ks.len(),
                ks == strmap::sorted_keys(infos@),
                forall|j: int| 0 <= j < n ==> infos@.contains_key(#[trigger] ks[j]),
                out@ == children_of(prefix@, ks.take(i as int), infos@),
            decreases n - i,
        {
            proof {
                assert(ks.take(i + 1).drop_last() =~= ks.take(i as int));
                assert(ks.take(i + 1).last() == ks[i as int]);
            }
            let p = infos.key_at(i);
            let info = *infos.value_at(i);
            if info.directory {
                enter(&mut out, prefix.as_str(), text::cat2(p.as_str(), "/").as_str(), None, None);
            } else {
                enter(&mut out, prefix.as_str(), p.as_str(), Some(info.len), None);
            }
            i += 1;
        }
        assert(ks.take(i as int) =~= ks);
        let ghost committed = out@;
        match &self.serving {
            Some(s) => {
                let loaded = s.volume.load();
                let waiting = &*loaded.pending;
                let n = waiting.len();
                let ghost qs = strmap::sorted_keys(waiting@);
                let mut i: usize = 0;
                assert(qs.take(0) =~= Seq::<Seq<char>>::empty());
                while i < n
                    invariant
                        i <= n == qs.len(),
                        qs == strmap::sorted_keys(waiting@),
                        waiting@ == s@.volume.current.pending,
                        forall|j: int| 0 <= j < n ==> waiting@.contains_key(#[trigger] qs[j]),
                        out@ == with_flights(
                            committed,
                            s@,
                            prefix@,
                            qs.take(i as int),
                            pending,
                        ),
                    decreases n - i,
                {
                    proof {
                        assert(qs.take(i + 1).drop_last() =~= qs.take(i as int));
                        assert(qs.take(i + 1).last() == qs[i as int]);
                    }
                    let p = waiting.key_at(i);
                    if !s.namespace_pending.contains(p.as_str()) {
                        let f = flight_of_entry(waiting.value_at(i));
                        if pending {
                            enter(&mut out, prefix.as_str(), p.as_str(), None, Some(f));
                        } else {
                            mark(&mut out, prefix.as_str(), p.as_str(), f);
                        }
                    }
                    i += 1;
                }
                assert(qs.take(i as int) =~= qs);
            },
            None => {},
        }
        if !exists && out.is_empty() {
            return Ok(None);
        }
        Ok(Some(out))
    }
}

} // verus!
