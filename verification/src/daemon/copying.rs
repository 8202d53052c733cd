//! Moving one path of a tape that is reclaimed: its node is queued for another tape as it is, and
//! the content of a file is checked against the index on the way.
use vstd::prelude::*;

use crate::daemon::files;
use crate::daemon::files::{FileService, HandleView, Nodes, ServiceView, ServingView, UploadHandle};
use crate::daemon::net;
use crate::daemon::nodes;
use crate::daemon::nodes::{FileMetadata, FileMetadataView};
use crate::daemon::paths;
use crate::daemon::paths::{ServiceError, ServiceErrorView};
use crate::daemon::reclaim;
use crate::daemon::reclaim::{
    check_hash, on_refusal, plan_copy, Copied, CopiedView, CopyPlan, CopyPlanView, Located, Moving,
    OnTape, OnTapeView,
};
use crate::error::{TapeError, TapeErrorView};
use crate::strmap::StrMap;

verus! {

/// What the tape has at a path, with what goes along when it is moved.
#[derive(Debug)]
pub enum TapeNode {
    Nothing,
    Directory { metadata: FileMetadata },
    /// A tombstone, with the path that was deleted.
    Tombstone { target: Option<String>, directory: bool },
    Symlink { target: String, metadata: FileMetadata },
    /// A file; the hash is empty where the index has none.
    File { len: u64, sha256: String, metadata: FileMetadata },
}

#[verifier::ext_equal]
pub enum TapeNodeView {
    Nothing,
    Directory { metadata: FileMetadataView },
    Tombstone { target: Option<Seq<char>>, directory: bool },
    Symlink { target: Seq<char>, metadata: FileMetadataView },
    File { len: u64, sha256: Seq<char>, metadata: FileMetadataView },
}

impl View for TapeNode {
    type V = TapeNodeView;

    open spec fn view(&self) -> TapeNodeView {
        match *self {
            TapeNode::Nothing => TapeNodeView::Nothing,
            TapeNode::Directory { metadata } => TapeNodeView::Directory { metadata: metadata@ },
            TapeNode::Tombstone { target, directory } => {
                TapeNodeView::Tombstone { target: nodes::text_view(target), directory }
            },
            TapeNode::Symlink { target, metadata } => {
                TapeNodeView::Symlink { target: target@, metadata: metadata@ }
            },
            TapeNode::File { len, sha256, metadata } => {
                TapeNodeView::File { len, sha256: sha256@, metadata: metadata@ }
            },
        }
    }
}

impl TapeNodeView {
    /// The kind of node.
    pub open spec fn kind(self) -> OnTapeView {
        match self {
            TapeNodeView::Nothing => OnTapeView::Nothing,
            TapeNodeView::Directory { .. } => OnTapeView::Directory,
            TapeNodeView::Tombstone { target, directory } => {
                OnTapeView::Tombstone { target, directory }
            },
            TapeNodeView::Symlink { .. } => OnTapeView::Symlink,
            TapeNodeView::File { .. } => OnTapeView::File,
        }
    }
}

impl TapeNode {
    fn kind(&self) -> (r: OnTape)
        ensures
            r@ == self@.kind(),
    {
        match self {
            TapeNode::Nothing => OnTape::Nothing,
            TapeNode::Directory { .. } => OnTape::Directory,
            TapeNode::Tombstone { target, directory } => {
                OnTape::Tombstone { target: nodes::dup_text(target), directory: *directory }
            },
            TapeNode::Symlink { .. } => OnTape::Symlink,
            TapeNode::File { .. } => OnTape::File,
        }
    }
}

/// A file that the service has let in and whose content is to be read from the tape.
#[derive(Debug)]
pub struct FileCopy {
    pub handle: UploadHandle,
    pub source: String,
    pub path: String,
    pub len: u64,
    /// The hash that the index has, empty where it has none.
    pub want: String,
    pub metadata: FileMetadata,
}

#[verifier::ext_equal]
pub struct FileCopyView {
    pub handle: HandleView,
    pub source: Seq<char>,
    pub path: Seq<char>,
    pub len: u64,
    pub want: Seq<char>,
    pub metadata: FileMetadataView,
}

impl View for FileCopy {
    type V = FileCopyView;

    open spec fn view(&self) -> FileCopyView {
        FileCopyView {
            handle: self.handle@,
            source: self.source@,
            path: self.path@,
            len: self.len,
            want: self.want@,
            metadata: self.metadata@,
        }
    }
}

/// What becomes of a path at first.
#[derive(Debug)]
pub enum CopyStart {
    /// It is settled.
    Settled(Result<Copied, TapeError>),
    /// Its content is read.
    Read(FileCopy),
}

#[verifier::ext_equal]
pub enum CopyStartView {
    Settled(Result<CopiedView, TapeErrorView>),
    Read(FileCopyView),
}

/// What a result says.
pub open spec fn outcome(r: Result<Copied, TapeError>) -> Result<CopiedView, TapeErrorView> {
    match r {
        Ok(c) => Ok(c@),
        Err(e) => Err(e@),
    }
}

impl View for CopyStart {
    type V = CopyStartView;

    open spec fn view(&self) -> CopyStartView {
        match *self {
            CopyStart::Settled(r) => CopyStartView::Settled(outcome(r)),
            CopyStart::Read(c) => CopyStartView::Read(c@),
        }
    }
}

/// What came of queueing a node without content.
pub open spec fn moved(m: Moving, path: Seq<char>, t: Result<u64, ServiceErrorView>) -> Result<
    CopiedView,
    TapeErrorView,
> {
    match t {
        Ok(_) => Ok(CopiedView::Moved(0)),
        Err(e) => reclaim::after_refusal(m, path, e),
    }
}

/// The first step with a path: the service after it and what becomes of the path.
pub open spec fn copy_begun(
    svc: ServiceView,
    source: Seq<char>,
    path: Seq<char>,
    node: TapeNodeView,
    current: Result<Option<Located>, ServiceError>,
    seen: u64,
    live: Nodes,
    now: u64,
) -> (ServiceView, CopyStartView) {
    match reclaim::copy_plan(source, node.kind(), current) {
        CopyPlanView::Superseded => (svc, CopyStartView::Settled(Ok(CopiedView::Superseded))),
        CopyPlanView::Fail(e) => (svc, CopyStartView::Settled(Err(e))),
        CopyPlanView::MoveDirectory => {
            let (v, t) = svc.node_changed(
                path,
                false,
                Some(node->Directory_metadata),
                None,
                seen,
                live,
                now,
            );
            (v, CopyStartView::Settled(moved(Moving::Directory, path, t)))
        },
        CopyPlanView::MoveTombstone { target, directory } => {
            let (v, t) = svc.removed(target, false, directory, seen, live, now);
            (v, CopyStartView::Settled(moved(Moving::Tombstone, target, t)))
        },
        CopyPlanView::MoveSymlink => {
            let (v, t) = svc.node_changed(
                path,
                false,
                Some(node->Symlink_metadata),
                Some(node->Symlink_target),
                seen,
                live,
                now,
            );
            (v, CopyStartView::Settled(moved(Moving::Symlink, path, t)))
        },
        CopyPlanView::CopyFile => {
            let (v, h) = svc.begun(path, node->File_len, false, seen, live, now);
            match h {
                Ok(handle) => (
                    v,
                    CopyStartView::Read(
                        FileCopyView {
                            handle,
                            source,
                            path,
                            len: node->File_len,
                            want: node->File_sha256,
                            metadata: node->File_metadata,
                        },
                    ),
                ),
                Err(e) => (
                    v,
                    CopyStartView::Settled(reclaim::after_refusal(Moving::File, path, e)),
                ),
            }
        },
    }
}

fn settle(m: Moving, path: &str, t: Result<u64, ServiceError>) -> (r: CopyStart)
    ensures
        forall|v: Result<u64, ServiceErrorView>| #[trigger]
            files::numbered(t, v) ==> r@ == CopyStartView::Settled(moved(m, path@, v)),
{
    match t {
        Ok(_) => CopyStart::Settled(Ok(Copied::Moved(0))),
        Err(e) => CopyStart::Settled(on_refusal(m, path, &e)),
    }
}

/// Begins to move a path. What is not current on the tape any more is left; a node without content
/// is queued at once; a file is let in like an upload, and its content is to be read.
pub fn begin_copy(
    svc: &mut FileService,
    source: &str,
    path: &str,
    node: TapeNode,
    current: &Result<Option<Located>, ServiceError>,
    seen: u64,
    live: &StrMap<bool>,
    now: u64,
) -> (r: CopyStart)
    requires
        old(svc)@.wf(),
        old(svc)@.room(3),
    ensures
        final(svc)@.wf(),
        (final(svc)@, r@) == copy_begun(
            old(svc)@,
            source@,
            path@,
            node@,
            *current,
            seen,
            live@,
            now,
        ),
{
    let kind = node.kind();
    match plan_copy(source, &kind, current) {
        CopyPlan::Superseded => CopyStart::Settled(Ok(Copied::Superseded)),
        CopyPlan::Fail(e) => CopyStart::Settled(Err(e)),
        CopyPlan::MoveTombstone { target, directory } => {
            let t = svc.relocate_tombstone_kind(target.as_str(), directory, seen, live, now);
            settle(Moving::Tombstone, target.as_str(), t)
        },
        _ => match node {
            TapeNode::Directory { metadata } => {
                let t = svc.relocate_directory(path, metadata, seen, live, now);
                settle(Moving::Directory, path, t)
            },
            TapeNode::Symlink { target, metadata } => {
                let t = svc.relocate_symlink(path, target.as_str(), metadata, seen, live, now);
                settle(Moving::Symlink, path, t)
            },
            TapeNode::File { len, sha256, metadata } => {
                match svc.begin(path, len, seen, live, now) {
                    Ok(handle) => CopyStart::Read(
                        FileCopy {
                            handle,
                            source: source.to_owned(),
                            path: path.to_owned(),
                            len,
                            want: sha256,
                            metadata,
                        },
                    ),
                    Err(e) => CopyStart::Settled(on_refusal(Moving::File, path, &e)),
                }
            },
            _ => CopyStart::Settled(Ok(Copied::Superseded)),
        },
    }
}

/// With content of an upload counted in, or why it cannot be.
pub open spec fn taken_in(svc: ServiceView, h: HandleView, bytes: u64) -> Result<
    ServiceView,
    ServiceErrorView,
> {
    match svc.serving_of(h.round) {
        None => Err(ServiceErrorView::NotServing(svc.why_not)),
        Some(s) => match s.volume.ingest_refusal(h.path, bytes) {
            Some(e) => Err(paths::mapped(e)),
            None => Ok(
                svc.with_serving(ServingView { volume: s.volume.ingested(h.path, bytes), ..s }),
            ),
        },
    }
}

/// What is said where the content does not have the hash that the index has.
pub open spec fn damage(c: FileCopyView, got: Seq<char>) -> TapeErrorView {
    TapeErrorView::Ltfs(
        c.source + " 上的 "@ + c.path + " 读出来是 "@ + got + "，索引里记的是 "@ + c.want,
    )
}

/// The second step with a file: the service after it and what came of the copy. It is given up
/// where reading failed or the content does not have the hash that the index has; else it is
/// finished as an upload that takes the node's attributes along.
pub open spec fn copy_read(
    svc: ServiceView,
    c: FileCopyView,
    spool: Seq<char>,
    read: Result<Seq<u8>, TapeErrorView>,
    now: u64,
) -> (ServiceView, Result<CopiedView, TapeErrorView>) {
    match read {
        Err(e) => (svc.aborted(c.handle), Err(e)),
        Ok(data) => {
            let got = net::sha256_hex_of(data);
            if !reclaim::hash_holds(c.want, got) {
                (svc.aborted(c.handle), Err(damage(c, got)))
            } else {
                match taken_in(svc, c.handle, c.len) {
                    Err(e) => (svc, Err(TapeErrorView::Ltfs(e.message()))),
                    Ok(s) => {
                        let (v, t) = s.finished(c.handle, spool, c.len, Some(c.metadata), now);
                        (
                            v,
                            match t {
                                Ok(_) => Ok(CopiedView::Moved(c.len)),
                                Err(e) => Err(TapeErrorView::Ltfs(e.message())),
                            },
                        )
                    },
                }
            }
        },
    }
}

/// What a read brought.
pub open spec fn read_view(r: Result<Vec<u8>, TapeError>) -> Result<Seq<u8>, TapeErrorView> {
    match r {
        Ok(d) => Ok(d@),
        Err(e) => Err(e@),
    }
}

/// The counters can take a copy.
pub open spec fn takes_copy(svc: ServiceView, c: FileCopyView) -> bool {
    &&& svc.room(2)
    &&& svc.takes(c.handle, c.len)
    &&& svc.ends(c.len)
}

/// Whether the counters can take a copy.
pub fn can_copy(svc: &FileService, c: &FileCopy) -> (r: bool)
    ensures
        r == takes_copy(svc@, c@),
{
    svc.has_room(2) && svc.can_take(&c.handle, c.len) && svc.can_end(c.len)
}

/// Ends the copy of a file whose content was read to `spool`. What was read is checked against the
/// index before the copy is let go: nothing else has checked it when the tape is formatted.
pub fn finish_copy(
    svc: &mut FileService,
    c: FileCopy,
    spool: String,
    read: Result<Vec<u8>, TapeError>,
    now: u64,
) -> (r: Result<Copied, TapeError>)
    requires
        old(svc)@.wf(),
        takes_copy(old(svc)@, c@),
    ensures
        final(svc)@.wf(),
        (final(svc)@, outcome(r)) == copy_read(old(svc)@, c@, spool@, read_view(read), now),
{
    let ghost cv = c@;
    let data = match read {
        Ok(d) => d,
        Err(e) => {
            svc.abort(c.handle);
            return Err(e);
        },
    };
    let got = net::sha256_hex(data.as_slice());
    match check_hash(c.source.as_str(), c.path.as_str(), c.want.as_str(), got.as_str()) {
        Ok(_) => {},
        Err(e) => {
            svc.abort(c.handle);
            return Err(e);
        },
    }
    match svc.ingest(&c.handle, c.len) {
        Ok(_) => {},
        Err(e) => {
            return Err(TapeError::Ltfs(e.message()));
        },
    }
    match svc.finish_with_metadata(c.handle, spool, c.len, Some(c.metadata), now) {
        Ok(_) => Ok(Copied::Moved(c.len)),
        Err(e) => Err(TapeError::Ltfs(e.message())),
    }
}

/// A copy whose content does not have the hash that the index has is given up and never finished:
/// nothing of it is queued, no task becomes staged, and the reclamation is told.
pub proof fn law_damaged_copy_is_given_up(
    svc: ServiceView,
    c: FileCopyView,
    spool: Seq<char>,
    data: Seq<u8>,
    now: u64,
)
    requires
        c.want.len() > 0,
        net::sha256_hex_of(data) != c.want,
    ensures
        ({
            let (v, r) = copy_read(svc, c, spool, Ok(data), now);
            &&& v == svc.aborted(c.handle)
            &&& r == Err::<CopiedView, TapeErrorView>(damage(c, net::sha256_hex_of(data)))
            &&& v.tasks == svc.tasks
            &&& svc.serving is Some ==> v.serving is Some && v.serving->0.queue
                == svc.serving->0.queue
        }),
{
}

/// A copy that counts as moved was read with the hash that the index has, if it has one, and is
/// queued to be written.
pub proof fn law_moved_copy_has_its_hash(
    svc: ServiceView,
    c: FileCopyView,
    spool: Seq<char>,
    read: Result<Seq<u8>, TapeErrorView>,
    now: u64,
)
    requires
        copy_read(svc, c, spool, read, now).1 is Ok,
    ensures
        read is Ok,
        c.want.len() > 0 ==> net::sha256_hex_of(read->Ok_0) == c.want,
        copy_read(svc, c, spool, read, now).1 == Ok::<CopiedView, TapeErrorView>(
            CopiedView::Moved(c.len),
        ),
        copy_read(svc, c, spool, read, now).0.serving is Some,
        copy_read(svc, c, spool, read, now).0.serving->0.queue.len()
            == svc.serving->0.queue.len() + 1,
{
}

} // verus!
