//! What holds of the file service as a whole.
use vstd::prelude::*;

use crate::daemon::files;
use crate::daemon::files::{
    BatchPolicy, BatchResult, CommitView, HandleView, Nodes, ServiceView, ServingView, StatView,
    TaskView, UploadView,
};
use crate::daemon::nodes;
use crate::daemon::nodes::FileMetadataView;
use crate::daemon::paths;
use crate::daemon::paths::ServiceErrorView;
use crate::engine::volume_state::{
    BatchView, CoverEntry, Draft, PendingEntry, PendingState, VolumeView,
};
use crate::strmap;

verus! {

/// A change on `p` waits for a batch.
pub open spec fn ready(v: VolumeView, p: Seq<char>) -> bool {
    v.current.pending.contains_key(p) && v.current.pending[p].state == PendingState::Ready
}

/// A change on `p` is queued.
pub open spec fn in_queue(s: ServingView, p: Seq<char>) -> bool {
    exists|i: int| 0 <= i < s.queue.len() && (#[trigger] s.queue[i]).path == p
}

/// The batch under way covers `p`.
pub open spec fn in_slot(v: VolumeView, p: Seq<char>) -> bool {
    v.current.commit_slot is Some && v.current.commit_slot->0.cover.contains_key(p)
}

/// The changes that are ready are those in the queue and those of the batch under way, which holds
/// each of them as it is.
pub open spec fn tidy(s: ServingView) -> bool {
    &&& forall|p: Seq<char>| #[trigger]
        ready(s.volume, p) <==> in_queue(s, p) || in_slot(s.volume, p)
    &&& forall|p: Seq<char>| #[trigger] in_slot(s.volume, p) ==> !in_queue(s, p)
    &&& s.volume.current.commit_slot is Some ==> forall|p: Seq<char>| #[trigger]
        s.volume.current.commit_slot->0.cover.contains_key(p) ==> {
            let c = s.volume.current.commit_slot->0.cover[p];
            let e = s.volume.current.pending[p];
            c.complete && e.version == c.version && e.staged_len == c.len
        }
}

proof fn lemma_same_ready(a: ServingView, b: ServingView)
    requires
        tidy(a),
        b.queue == a.queue,
        b.volume.current.commit_slot == a.volume.current.commit_slot,
        forall|p: Seq<char>| #[trigger] ready(a.volume, p) <==> ready(b.volume, p),
        forall|p: Seq<char>| #[trigger]
            ready(a.volume, p) ==> b.volume.current.pending[p] == a.volume.current.pending[p],
    ensures
        tidy(b),
{
    assert forall|p: Seq<char>| #[trigger] ready(b.volume, p) <==> in_queue(b, p) || in_slot(
        b.volume,
        p,
    ) by {
        assert(in_queue(b, p) == in_queue(a, p));
        assert(in_slot(b.volume, p) == in_slot(a.volume, p));
        assert(ready(a.volume, p) == ready(b.volume, p));
    }
    assert forall|p: Seq<char>| #[trigger] in_slot(b.volume, p) implies !in_queue(b, p) by {
        assert(in_slot(a.volume, p));
        assert(in_queue(b, p) == in_queue(a, p));
    }
    if b.volume.current.commit_slot is Some {
        assert forall|p: Seq<char>| #[trigger]
            b.volume.current.commit_slot->0.cover.contains_key(p) implies {
            let c = b.volume.current.commit_slot->0.cover[p];
            let e = b.volume.current.pending[p];
            c.complete && e.version == c.version && e.staged_len == c.len
        } by {
            assert(in_slot(a.volume, p));
            assert(ready(a.volume, p));
        }
    }
}

/// `b` is `a` with the change `u` queued, which became ready by that.
proof fn lemma_one_more(a: ServingView, b: ServingView, u: UploadView)
    requires
        tidy(a),
        b.queue == a.queue.push(u),
        b.volume.current.commit_slot == a.volume.current.commit_slot,
        !ready(a.volume, u.path),
        ready(b.volume, u.path),
        forall|p: Seq<char>|
            p != u.path ==> (#[trigger] ready(b.volume, p) <==> ready(a.volume, p)),
        forall|p: Seq<char>| #[trigger]
            ready(a.volume, p) ==> b.volume.current.pending[p] == a.volume.current.pending[p],
    ensures
        tidy(b),
{
    assert forall|p: Seq<char>| #[trigger] in_queue(b, p) == (in_queue(a, p) || p == u.path) by {
        if in_queue(a, p) {
            let i = choose|i: int| 0 <= i < a.queue.len() && (#[trigger] a.queue[i]).path == p;
            assert(b.queue[i].path == p);
        }
        if p == u.path {
            assert(b.queue[a.queue.len() as int].path == p);
        }
        if in_queue(b, p) && p != u.path {
            let i = choose|i: int| 0 <= i < b.queue.len() && (#[trigger] b.queue[i]).path == p;
            assert(a.queue[i].path == p);
        }
    }
    assert forall|p: Seq<char>| #[trigger] ready(b.volume, p) <==> in_queue(b, p) || in_slot(
        b.volume,
        p,
    ) by {
        assert(in_queue(b, p) == (in_queue(a, p) || p == u.path));
        assert(in_slot(b.volume, p) == in_slot(a.volume, p));
        if p != u.path {
            assert(ready(a.volume, p) == ready(b.volume, p));
        }
    }
    assert forall|p: Seq<char>| #[trigger] in_slot(b.volume, p) implies !in_queue(b, p) by {
        assert(in_slot(a.volume, p));
        assert(ready(a.volume, p));
        assert(in_queue(b, p) == (in_queue(a, p) || p == u.path));
    }
    if b.volume.current.commit_slot is Some {
        assert forall|p: Seq<char>| #[trigger]
            b.volume.current.commit_slot->0.cover.contains_key(p) implies {
            let c = b.volume.current.commit_slot->0.cover[p];
            let e = b.volume.current.pending[p];
            c.complete && e.version == c.version && e.staged_len == c.len
        } by {
            assert(in_slot(a.volume, p));
            assert(ready(a.volume, p));
        }
    }
}

/// A path on which nothing near is pending has no ready change.
proof fn lemma_idle(s: ServingView, path: Seq<char>)
    requires
        !s.busy(path),
    ensures
        !s.volume.current.pending.contains_key(path),
        !ready(s.volume, path),
{
    if s.volume.current.pending.contains_key(path) {
        assert(paths::related(path, path));
    }
}

/// A serving that has just been opened is tidy.
pub proof fn law_opened_is_tidy(s: ServingView)
    requires
        s.queue.len() == 0,
        s.volume.current.pending == Map::<Seq<char>, PendingEntry>::empty(),
        s.volume.current.commit_slot is None,
    ensures
        tidy(s),
{
}

/// Letting an upload in keeps the serving tidy, whether it is refused or not.
pub proof fn law_begin_keeps_tidy(
    s: ServingView,
    task: u64,
    path: Seq<char>,
    len: u64,
    create_only: bool,
    seen: u64,
    live: Nodes,
    now: u64,
)
    requires
        tidy(s),
    ensures
        tidy(s.begun(task, path, len, create_only, seen, live, now).0),
{
    let (t, e) = s.begun(task, path, len, create_only, seen, live, now);
    if e is None {
        lemma_idle(s, path);
    }
    assert forall|p: Seq<char>| #[trigger] ready(s.volume, p) <==> ready(t.volume, p) by {
    }
    lemma_same_ready(s, t);
}

/// Queueing a removal keeps the serving tidy, whether it is refused or not.
pub proof fn law_remove_keeps_tidy(
    s: ServingView,
    task: u64,
    path: Seq<char>,
    must_exist: bool,
    directory: bool,
    seen: u64,
    live: Nodes,
    now: u64,
)
    requires
        tidy(s),
    ensures
        tidy(s.removed(task, path, must_exist, directory, seen, live, now).0),
{
    let (t, e) = s.removed(task, path, must_exist, directory, seen, live, now);
    if e is None {
        lemma_idle(s, path);
        let u = UploadView { delete: true, directory, ..files::bare(task, path) };
        assert forall|p: Seq<char>| p != path implies (#[trigger] ready(t.volume, p) <==> ready(
            s.volume,
            p,
        )) by {
        }
        lemma_one_more(s, t, u);
    } else {
        lemma_same_ready(s, t);
    }
}

/// Queueing a change of a directory or a link keeps the serving tidy, whether it is refused or
/// not.
pub proof fn law_node_change_keeps_tidy(
    s: ServingView,
    task: u64,
    path: Seq<char>,
    remove: bool,
    metadata: Option<FileMetadataView>,
    link: Option<Seq<char>>,
    seen: u64,
    live: Nodes,
    now: u64,
)
    requires
        tidy(s),
    ensures
        tidy(s.node_changed(task, path, remove, metadata, link, seen, live, now).0),
{
    let (t, e) = s.node_changed(task, path, remove, metadata, link, seen, live, now);
    if e is None {
        lemma_idle(s, path);
        let u = UploadView {
            delete: remove,
            directory: link is None,
            symlink_target: link,
            metadata,
            ..files::bare(task, path)
        };
        lemma_one_more(s, t, u);
    } else {
        lemma_same_ready(s, t);
    }
}

/// Ending a session drops no change that is ready.
proof fn lemma_ended_ready(v: VolumeView, task: u64)
    ensures
        forall|p: Seq<char>| #[trigger]
            ready(v, p) <==> ready(files::session_ended(v, task), p),
        forall|p: Seq<char>| #[trigger]
            ready(v, p) ==> files::session_ended(v, task).current.pending[p]
                == v.current.pending[p],
        files::session_ended(v, task).current.commit_slot == v.current.commit_slot,
{
}

/// Queueing the change of an attribute keeps the serving tidy, whether it is refused or not.
pub proof fn law_xattr_change_keeps_tidy(
    s: ServingView,
    task: u64,
    path: Seq<char>,
    name: Seq<char>,
    key: Seq<char>,
    value: Option<Seq<u8>>,
    flags: u32,
    seen: u64,
    live: Nodes,
    now: u64,
)
    requires
        tidy(s),
    ensures
        tidy(s.xattr_changed(task, path, name, key, value, flags, seen, live, now).0),
{
    let (t, e) = s.xattr_changed(task, path, name, key, value, flags, seen, live, now);
    if e is None {
        lemma_idle(s, path);
        lemma_one_more(s, t, t.queue.last());
    } else {
        lemma_ended_ready(files::session_opened(s.volume, task), task);
        assert forall|p: Seq<char>| #[trigger] ready(s.volume, p) <==> ready(t.volume, p) by {
            assert(ready(s.volume, p) == ready(files::session_opened(s.volume, task), p));
        }
        assert forall|p: Seq<char>| #[trigger] ready(s.volume, p) implies t.volume.current.pending[p]
            == s.volume.current.pending[p] by {
            assert(ready(files::session_opened(s.volume, task), p));
        }
        lemma_same_ready(s, t);
    }
}

/// Giving an upload up keeps the serving tidy.
pub proof fn law_abort_keeps_tidy(s: ServingView, task: u64)
    requires
        tidy(s),
    ensures
        tidy(s.aborted(task)),
{
    lemma_ended_ready(s.volume, task);
    lemma_same_ready(s, s.aborted(task));
}

/// Ending an upload that is still open keeps the serving tidy.
pub proof fn law_finish_keeps_tidy(
    s: ServingView,
    h: HandleView,
    spool: Seq<char>,
    len: u64,
    metadata: Option<FileMetadataView>,
    now: u64,
)
    requires
        tidy(s),
        !ready(s.volume, h.path),
    ensures
        tidy(s.finished(h, spool, len, metadata, now).0),
{
    let (t, e) = s.finished(h, spool, len, metadata, now);
    if s.draining {
        law_abort_keeps_tidy(s, h.task);
    } else if e is None {
        lemma_one_more(s, t, t.queue.last());
    }
}

/// The batch that is taken covers exactly the paths that were queued.
pub proof fn law_batch_is_the_queue(s: ServingView, p: Seq<char>)
    requires
        tidy(s),
        s.volume.freeze_refusal() is None,
    ensures
        s.volume.next_frozen(Set::empty()).cover.contains_key(p) <==> in_queue(s, p),
{
    assert(ready(s.volume, p) <==> in_queue(s, p) || in_slot(s.volume, p));
}

/// Taking a batch keeps the serving tidy.
pub proof fn law_take_keeps_tidy(s: ServingView)
    requires
        tidy(s),
        s.volume.freeze_refusal() is None,
    ensures
        tidy(s.taken()),
{
    let t = s.taken();
    let b = s.volume.next_frozen(Set::empty());
    assert forall|p: Seq<char>| #[trigger] ready(t.volume, p) <==> in_queue(t, p) || in_slot(
        t.volume,
        p,
    ) by {
        assert(t.volume.current.commit_slot == Some(b));
        assert(ready(s.volume, p) == b.cover.contains_key(p));
    }
}

/// `us` names `p`.
spec fn names(us: Seq<UploadView>, p: Seq<char>) -> bool {
    exists|i: int| 0 <= i < us.len() && (#[trigger] us[i]).path == p
}

proof fn lemma_names_last(us: Seq<UploadView>, p: Seq<char>)
    requires
        us.len() > 0,
    ensures
        names(us, p) <==> names(us.drop_last(), p) || us.last().path == p,
{
    if names(us.drop_last(), p) {
        let i = choose|i: int|
            0 <= i < us.drop_last().len() && (#[trigger] us.drop_last()[i]).path == p;
        assert(us[i].path == p);
    }
    if us.last().path == p {
        assert(us[us.len() - 1].path == p);
    }
    if names(us, p) && us.last().path != p {
        let i = choose|i: int| 0 <= i < us.len() && (#[trigger] us[i]).path == p;
        assert(us.drop_last()[i].path == p);
    }
}

/// Letting changes in touches nothing but their paths, which had no change pending.
proof fn lemma_admitted(v: VolumeView, us: Seq<UploadView>, task: u64, seconds: u64)
    ensures
        ({
            let (w, e) = files::all_admitted(v, us, task, seconds);
            let a = v.current.pending;
            let b = w.current.pending;
            &&& w.current.commit_slot == v.current.commit_slot
            &&& forall|p: Seq<char>| #[trigger] a.contains_key(p) ==> b.contains_key(p) && b[p] == a[p]
            &&& forall|p: Seq<char>| #[trigger]
                b.contains_key(p) && !a.contains_key(p) ==> names(us, p) && b[p].state
                    == PendingState::InProgress
            &&& e is None ==> forall|i: int|
                0 <= i < us.len() ==> {
                    let p = (#[trigger] us[i]).path;
                    &&& b.contains_key(p)
                    &&& !a.contains_key(p)
                    &&& b[p].removal == us[i].delete
                }
            &&& e is None ==> forall|i: int, j: int|
                0 <= i < j < us.len() ==> (#[trigger] us[i]).path != (#[trigger] us[j]).path
        }),
    decreases us.len(),
{
    if us.len() > 0 {
        let prev = us.drop_last();
        lemma_admitted(v, prev, task, seconds);
        let (w0, e0) = files::all_admitted(v, prev, task, seconds);
        let (w, e) = files::all_admitted(v, us, task, seconds);
        let a = v.current.pending;
        let b0 = w0.current.pending;
        let b = w.current.pending;
        assert forall|p: Seq<char>| #[trigger] b.contains_key(p) && !a.contains_key(p) implies names(
            us,
            p,
        ) && b[p].state == PendingState::InProgress by {
            lemma_names_last(us, p);
            if e is None && p == us.last().path {
            } else {
                assert(b0.contains_key(p));
            }
        }
        if e is None {
            assert(e0 is None);
            assert(!b0.contains_key(us.last().path));
            assert forall|i: int| 0 <= i < us.len() implies {
                let p = (#[trigger] us[i]).path;
                &&& b.contains_key(p)
                &&& !a.contains_key(p)
                &&& b[p].removal == us[i].delete
            } by {
                if i < us.len() - 1 {
                    assert(prev[i] == us[i]);
                    assert(b0.contains_key(prev[i].path));
                } else {
                    if a.contains_key(us[i].path) {
                        assert(b0.contains_key(us[i].path));
                    }
                }
            }
            assert forall|i: int, j: int| 0 <= i < j < us.len() implies (#[trigger] us[i]).path != (
            #[trigger] us[j]).path by {
                if j < us.len() - 1 {
                    assert(prev[i].path != prev[j].path);
                } else {
                    assert(prev[i] == us[i]);
                    assert(b0.contains_key(prev[i].path));
                }
            }
        }
    }
}

/// Making the changes ready that were just let in cannot fail, and touches nothing but them.
proof fn lemma_all_ready(v: VolumeView, pending: Set<Seq<char>>, us: Seq<UploadView>)
    requires
        forall|i: int|
            0 <= i < us.len() ==> {
                let p = (#[trigger] us[i]).path;
                &&& v.current.pending.contains_key(p)
                &&& v.current.pending[p].state == PendingState::InProgress
                &&& v.current.pending[p].removal == us[i].delete
            },
        forall|i: int, j: int|
            0 <= i < j < us.len() ==> (#[trigger] us[i]).path != (#[trigger] us[j]).path,
    ensures
        ({
            let (w, done, e) = files::all_ready(v, pending, us);
            let a = v.current.pending;
            let b = w.current.pending;
            &&& e is None
            &&& w.current.commit_slot == v.current.commit_slot
            &&& forall|p: Seq<char>| #[trigger] b.contains_key(p) <==> a.contains_key(p)
            &&& forall|p: Seq<char>| #[trigger]
                b.contains_key(p) ==> (names(us, p) ==> b[p].state == PendingState::Ready) && (
                !names(us, p) ==> b[p] == a[p])
        }),
    decreases us.len(),
{
    if us.len() > 0 {
        let prev = us.drop_last();
        assert forall|i: int| 0 <= i < prev.len() implies {
            let p = (#[trigger] prev[i]).path;
            &&& v.current.pending.contains_key(p)
            &&& v.current.pending[p].state == PendingState::InProgress
            &&& v.current.pending[p].removal == prev[i].delete
        } by {
            assert(prev[i] == us[i]);
        }
        assert forall|i: int, j: int| 0 <= i < j < prev.len() implies (#[trigger] prev[i]).path != (
        #[trigger] prev[j]).path by {
            assert(us[i].path != us[j].path);
        }
        lemma_all_ready(v, pending, prev);
        let u = us.last();
        assert(us[us.len() - 1] == u);
        let (w0, d0, e0) = files::all_ready(v, pending, prev);
        assert(!names(prev, u.path)) by {
            if names(prev, u.path) {
                let i = choose|i: int| 0 <= i < prev.len() && (#[trigger] prev[i]).path == u.path;
                assert(us[i].path != us[us.len() - 1].path);
            }
        }
        assert(v.current.pending.contains_key(u.path));
        assert(w0.current.pending.contains_key(u.path));
        assert(w0.current.pending[u.path] == v.current.pending[u.path]);
        let (w, done, e) = files::all_ready(v, pending, us);
        assert forall|p: Seq<char>| #[trigger] w.current.pending.contains_key(p) implies (names(
            us,
            p,
        ) ==> w.current.pending[p].state == PendingState::Ready) && (!names(us, p)
            ==> w.current.pending[p] == v.current.pending[p]) by {
            lemma_names_last(us, p);
            assert(w0.current.pending.contains_key(p));
        }
    }
}

/// Renaming keeps the serving tidy, and it is all or nothing: where it is refused the queue is as
/// it was, else all of its changes are queued.
pub proof fn law_rename_keeps_tidy(s: ServingView, task: u64, us: Seq<UploadView>, now: u64)
    requires
        tidy(s),
    ensures
        tidy(s.renamed(task, us, now).0),
        s.renamed(task, us, now).1 is Some ==> s.renamed(task, us, now).0.queue == s.queue,
        s.renamed(task, us, now).1 is None ==> s.renamed(task, us, now).0.queue == s.queue + us,
{
    let (t, e) = s.renamed(task, us, now);
    let o = files::session_opened(s.volume, task);
    let seconds = s.seconds(now);
    let (v, refused) = files::all_admitted(o, us, task, seconds);
    lemma_admitted(o, us, task, seconds);
    if refused is Some {
        lemma_ended_ready(v, task);
        assert forall|p: Seq<char>| #[trigger] ready(s.volume, p) <==> ready(t.volume, p) by {
            assert(ready(v, p) <==> ready(t.volume, p));
            if o.current.pending.contains_key(p) {
                assert(v.current.pending[p] == o.current.pending[p]);
            } else if v.current.pending.contains_key(p) {
            }
        }
        assert forall|p: Seq<char>| #[trigger] ready(s.volume, p) implies t.volume.current.pending[p]
            == s.volume.current.pending[p] by {
            assert(o.current.pending.contains_key(p));
            assert(ready(v, p));
        }
        lemma_same_ready(s, t);
    } else {
        assert forall|i: int| 0 <= i < us.len() implies {
            let p = (#[trigger] us[i]).path;
            &&& v.current.pending.contains_key(p)
            &&& v.current.pending[p].state == PendingState::InProgress
            &&& v.current.pending[p].removal == us[i].delete
        } by {
        }
        lemma_all_ready(v, s.namespace_pending, us);
        assert forall|p: Seq<char>| #[trigger] in_queue(t, p) <==> in_queue(s, p) || names(us, p) by {
            if in_queue(s, p) {
                let i = choose|i: int| 0 <= i < s.queue.len() && (#[trigger] s.queue[i]).path == p;
                assert(t.queue[i].path == p);
            }
            if names(us, p) {
                let i = choose|i: int| 0 <= i < us.len() && (#[trigger] us[i]).path == p;
                assert(t.queue[s.queue.len() + i].path == p);
            }
            if in_queue(t, p) {
                let i = choose|i: int| 0 <= i < t.queue.len() && (#[trigger] t.queue[i]).path == p;
                if i < s.queue.len() {
                    assert(s.queue[i].path == p);
                } else {
                    assert(us[i - s.queue.len()].path == p);
                }
            }
        }
        assert forall|p: Seq<char>| names(us, p) implies !s.volume.current.pending.contains_key(
            p,
        ) by {
            let i = choose|i: int| 0 <= i < us.len() && (#[trigger] us[i]).path == p;
            assert(!o.current.pending.contains_key(us[i].path));
        }
        assert forall|p: Seq<char>| #[trigger] ready(t.volume, p) <==> ready(s.volume, p) || names(
            us,
            p,
        ) by {
            if names(us, p) {
                let i = choose|i: int| 0 <= i < us.len() && (#[trigger] us[i]).path == p;
                assert(v.current.pending.contains_key(us[i].path));
                assert(t.volume.current.pending.contains_key(p));
            } else if t.volume.current.pending.contains_key(p) {
                assert(v.current.pending.contains_key(p));
                if !o.current.pending.contains_key(p) {
                    assert(names(us, p));
                }
            } else if s.volume.current.pending.contains_key(p) {
                assert(o.current.pending.contains_key(p));
                assert(v.current.pending.contains_key(p));
                assert(t.volume.current.pending.contains_key(p));
            }
        }
        assert forall|p: Seq<char>| #[trigger] ready(t.volume, p) <==> in_queue(t, p) || in_slot(
            t.volume,
            p,
        ) by {
            assert(in_slot(t.volume, p) == in_slot(s.volume, p));
            assert(ready(s.volume, p) <==> in_queue(s, p) || in_slot(s.volume, p));
            assert(in_queue(t, p) <==> in_queue(s, p) || names(us, p));
        }
        assert forall|p: Seq<char>| #[trigger] in_slot(t.volume, p) implies !in_queue(t, p) by {
            assert(in_slot(s.volume, p));
            assert(ready(s.volume, p));
            assert(in_queue(t, p) <==> in_queue(s, p) || names(us, p));
        }
        if t.volume.current.commit_slot is Some {
            assert forall|p: Seq<char>| #[trigger]
                t.volume.current.commit_slot->0.cover.contains_key(p) implies {
                let c = t.volume.current.commit_slot->0.cover[p];
                let e = t.volume.current.pending[p];
                c.complete && e.version == c.version && e.staged_len == c.len
            } by {
                assert(in_slot(s.volume, p));
                assert(ready(s.volume, p));
                assert(o.current.pending.contains_key(p));
                assert(v.current.pending.contains_key(p));
                assert(t.volume.current.pending.contains_key(p));
            }
        }
    }
}

/// Publishing takes the settled changes out and leaves the others.
proof fn lemma_run(
    d: Draft,
    keys: Seq<Seq<char>>,
    cover: Map<Seq<char>, CoverEntry>,
    directories: Set<Seq<char>>,
)
    requires
        forall|i: int| 0 <= i < keys.len() ==> paths::good_path(#[trigger] keys[i]),
        forall|i: int|
            0 <= i < keys.len() ==> {
                let c = cover[#[trigger] keys[i]];
                &&& d.pending.contains_key(keys[i])
                &&& d.pending[keys[i]].version == c.version
                &&& d.pending[keys[i]].staged_len == c.len
                &&& c.complete
            },
        keys.no_duplicates(),
    ensures
        ({
            let r = d.run(keys, cover, directories).pending;
            &&& forall|p: Seq<char>| #[trigger]
                r.contains_key(p) <==> d.pending.contains_key(p) && !keys.contains(p)
            &&& forall|p: Seq<char>| #[trigger] r.contains_key(p) ==> r[p] == d.pending[p]
        }),
    decreases keys.len(),
{
    if keys.len() > 0 {
        let prev = keys.drop_last();
        assert forall|i: int| 0 <= i < prev.len() implies paths::good_path(#[trigger] prev[i]) by {
            assert(keys[i] == prev[i]);
        }
        assert forall|i: int| 0 <= i < prev.len() implies {
            let c = cover[#[trigger] prev[i]];
            &&& d.pending.contains_key(prev[i])
            &&& d.pending[prev[i]].version == c.version
            &&& d.pending[prev[i]].staged_len == c.len
            &&& c.complete
        } by {
            assert(keys[i] == prev[i]);
        }
        lemma_run(d, prev, cover, directories);
        let q = keys.last();
        assert(keys[keys.len() - 1] == q);
        assert(!prev.contains(q)) by {
            if prev.contains(q) {
                let i = choose|i: int| 0 <= i < prev.len() && prev[i] == q;
                assert(keys[i] == keys[keys.len() - 1]);
            }
        }
        let before = d.run(prev, cover, directories);
        assert(before.pending.contains_key(q));
        assert(before.settled(q, cover[q]));
        assert forall|p: Seq<char>| keys.contains(p) == (prev.contains(p) || p == q) by {
            if prev.contains(p) {
                let i = choose|i: int| 0 <= i < prev.len() && prev[i] == p;
                assert(keys[i] == p);
            }
            if keys.contains(p) && p != q {
                let i = choose|i: int| 0 <= i < keys.len() && keys[i] == p;
                assert(prev[i] == p);
            }
        }
    }
}

/// Settling the batch under way keeps the serving tidy, on tape or not.
pub proof fn law_batch_done_keeps_tidy(
    s: ServingView,
    b: BatchView,
    us: Seq<UploadView>,
    result: BatchResult,
    keys: Seq<Seq<char>>,
)
    requires
        tidy(s),
        s.volume.current.commit_slot == Some(b),
        strmap::listing(keys, b.cover.dom()),
        forall|p: Seq<char>| #[trigger] b.cover.contains_key(p) ==> paths::good_path(p),
        s.volume.wf(),
    ensures
        tidy(s.batch_done(b, us, result).0),
{
    let (t, st) = s.batch_done(b, us, result);
    if result is Err {
        lemma_same_ready(s, t);
    } else {
        let directories = files::directory_paths(us);
        let (v, e) = files::publish_result(s.volume, b, directories);
        assert(t.volume == v);
        if e is Some {
            lemma_same_ready(s, t);
        } else {
            strmap::lemma_sorted_keys(b.cover, keys);
            strmap::lemma_listing_finite(keys, b.cover.dom());
            let d = Draft {
                committed: s.volume.current.committed,
                pending: s.volume.current.pending,
                reservations: s.volume.current.ledger.reservations,
                copied: 0,
            };
            assert forall|i: int| 0 <= i < keys.len() implies b.cover.contains_key(
                #[trigger] keys[i],
            ) by {
                assert(keys.contains(keys[i]));
            }
            assert forall|i: int| 0 <= i < keys.len() implies {
                let c = b.cover[#[trigger] keys[i]];
                &&& d.pending.contains_key(keys[i])
                &&& d.pending[keys[i]].version == c.version
                &&& d.pending[keys[i]].staged_len == c.len
                &&& c.complete
            } by {
                assert(in_slot(s.volume, keys[i]));
                assert(ready(s.volume, keys[i]));
            }
            lemma_run(d, keys, b.cover, directories);
            assert(t.volume.current.pending == d.run(keys, b.cover, directories).pending);
            assert forall|p: Seq<char>| #[trigger] ready(t.volume, p) <==> in_queue(t, p) || in_slot(
                t.volume,
                p,
            ) by {
                assert(in_queue(t, p) == in_queue(s, p));
                assert(ready(s.volume, p) <==> in_queue(s, p) || in_slot(s.volume, p));
                assert(in_slot(s.volume, p) == keys.contains(p));
                if t.volume.current.pending.contains_key(p) {
                }
                if ready(s.volume, p) && !keys.contains(p) {
                    assert(t.volume.current.pending.contains_key(p));
                }
            }
        }
    }
}

/// A read never tells of a tombstone.
pub proof fn law_stat_tells_no_tombstone(v: ServiceView, path: Seq<char>, row: Option<StatView>)
    ensures
        v.stat(path, row) matches Ok(Some(st)) ==> !st.deleted,
{
}

/// Once a change is let in, no other change near its path is, until it is settled.
pub proof fn law_near_paths_exclude_each_other(
    s: ServingView,
    task: u64,
    path: Seq<char>,
    len: u64,
    create_only: bool,
    seen: u64,
    live: Nodes,
    now: u64,
    near: Seq<char>,
)
    requires
        s.begun(task, path, len, create_only, seen, live, now).1 is None,
        paths::related(path, near),
    ensures
        ({
            let t = s.begun(task, path, len, create_only, seen, live, now).0;
            &&& t.busy(near)
            &&& forall|n: Nodes| t.file_refusal(near, n) == Some(ServiceErrorView::PathBusy(near))
            &&& forall|r: bool, m: bool, l: bool, n: Nodes|
                t.node_refusal(near, r, m, l, n) == Some(ServiceErrorView::PathBusy(near))
        }),
{
    let t = s.begun(task, path, len, create_only, seen, live, now).0;
    assert(t.volume.current.pending.contains_key(path));
}

/// While the tape is to be switched, or the service drains, no change is let in.
pub proof fn law_no_change_while_stopping(
    s: ServingView,
    task: u64,
    path: Seq<char>,
    seen: u64,
    live: Nodes,
    now: u64,
)
    requires
        s.switch is Some || s.draining,
    ensures
        forall|len: u64, c: bool| #[trigger]
            s.begun(task, path, len, c, seen, live, now).1 is Some && s.begun(
                task,
                path,
                len,
                c,
                seen,
                live,
                now,
            ).0 == s,
        forall|m: bool, d: bool| #[trigger]
            s.removed(task, path, m, d, seen, live, now).1 is Some && s.removed(
                task,
                path,
                m,
                d,
                seen,
                live,
                now,
            ).0 == s,
        forall|r: bool, m: Option<FileMetadataView>, l: Option<Seq<char>>| #[trigger]
            s.node_changed(task, path, r, m, l, seen, live, now).1 is Some && s.node_changed(
                task,
                path,
                r,
                m,
                l,
                seen,
                live,
                now,
            ).0 == s,
{
}

proof fn lemma_with_tasks(m: Map<u64, TaskView>, us: Seq<UploadView>, st: TaskView)
    ensures
        forall|i: int| 0 <= i < us.len() ==> {
            let t = (#[trigger] us[i]).task;
            files::with_tasks(m, us, st).contains_key(t) && files::with_tasks(m, us, st)[t] == st
        },
    decreases us.len(),
{
    if us.len() > 0 {
        lemma_with_tasks(m, us.drop_last(), st);
        assert forall|i: int| 0 <= i < us.len() implies {
            let t = (#[trigger] us[i]).task;
            files::with_tasks(m, us, st).contains_key(t) && files::with_tasks(m, us, st)[t] == st
        } by {
            if i < us.len() - 1 {
                assert(us.drop_last()[i] == us[i]);
            }
        }
    }
}

proof fn lemma_with_ids(m: Map<u64, TaskView>, ids: Seq<u64>, st: TaskView)
    ensures
        forall|t: u64| #[trigger] ids.contains(t) ==> files::with_ids(m, ids, st).contains_key(t)
            && files::with_ids(m, ids, st)[t] == st,
        forall|t: u64| !#[trigger] ids.contains(t) ==> (files::with_ids(m, ids, st).contains_key(t)
            <==> m.contains_key(t)) && files::with_ids(m, ids, st)[t] == m[t],
    decreases ids.len(),
{
    if ids.len() > 0 {
        let prev = ids.drop_last();
        lemma_with_ids(m, prev, st);
        assert forall|t: u64| ids.contains(t) == (prev.contains(t) || t == ids.last()) by {
            if prev.contains(t) {
                let i = choose|i: int| 0 <= i < prev.len() && prev[i] == t;
                assert(ids[i] == t);
            }
            if t == ids.last() {
                assert(ids[ids.len() - 1] == t);
            }
            if ids.contains(t) && t != ids.last() {
                let i = choose|i: int| 0 <= i < ids.len() && ids[i] == t;
                assert(prev[i] == t);
            }
        }
    }
}

/// When the service closes, a task of the batch under way is left open, and a task that is only
/// queued has failed.
pub proof fn law_closing_settles_every_task(
    v: ServiceView,
    reason: Seq<char>,
    i: int,
)
    requires
        v.serving is Some,
    ensures
        ({
            let s = v.serving->0;
            let tasks = v.closed(reason).tasks;
            &&& 0 <= i < s.in_batch.len() ==> tasks.contains_key(s.in_batch[i])
                && tasks[s.in_batch[i]] == (TaskView::Indeterminate {
                reason: files::not_confirmed(reason),
            })
            &&& 0 <= i < s.queue.len() && !s.in_batch.contains(s.queue[i].task)
                ==> tasks.contains_key(s.queue[i].task) && tasks[s.queue[i].task] == (
            TaskView::Failed { reason: files::not_on_tape(reason) })
        }),
{
    let s = v.serving->0;
    let failed = TaskView::Failed { reason: files::not_on_tape(reason) };
    let open_ended = TaskView::Indeterminate { reason: files::not_confirmed(reason) };
    lemma_with_tasks(v.tasks, s.queue, failed);
    lemma_with_ids(files::with_tasks(v.tasks, s.queue, failed), s.in_batch, open_ended);
    if 0 <= i < s.in_batch.len() {
        assert(s.in_batch.contains(s.in_batch[i]));
    }
}

/// When a batch is settled, all its tasks get the same status.
pub proof fn law_batch_tasks_share_their_fate(
    v: ServiceView,
    round: u64,
    b: BatchView,
    us: Seq<UploadView>,
    result: BatchResult,
    i: int,
)
    requires
        v.serving_of(round) is Some,
        0 <= i < us.len(),
    ensures
        ({
            let after = v.batch_done(round, b, us, result);
            &&& after.tasks.contains_key(us[i].task)
            &&& after.tasks[us[i].task] == (v.serving->0).batch_done(b, us, result).1
            &&& result is Err ==> after.tasks[us[i].task] is Indeterminate
        }),
{
    let st = (v.serving->0).batch_done(b, us, result).1;
    lemma_with_tasks(v.tasks, us, st);
}

proof fn lemma_with_records(
    m: Map<Seq<char>, StatView>,
    c: CommitView,
    keys: Seq<Seq<char>>,
    found: nodes::Records,
)
    requires
        forall|i: int| 0 <= i < keys.len() ==> (found[#[trigger] keys[i]]).path == keys[i],
    ensures
        forall|p: Seq<char>| #[trigger]
            keys.contains(p) ==> files::with_records(m, c, keys, found).contains_key(p)
                && files::with_records(m, c, keys, found)[p] == files::record_stat(c, found[p]),
        forall|p: Seq<char>| !#[trigger]
            keys.contains(p) ==> (files::with_records(m, c, keys, found).contains_key(p)
            <==> m.contains_key(p)) && files::with_records(m, c, keys, found)[p] == m[p],
    decreases keys.len(),
{
    if keys.len() > 0 {
        let prev = keys.drop_last();
        assert forall|i: int| 0 <= i < prev.len() implies (found[#[trigger] prev[i]]).path
            == prev[i] by {
            assert(keys[i] == prev[i]);
        }
        lemma_with_records(m, c, prev, found);
        assert(keys[keys.len() - 1] == keys.last());
        assert forall|p: Seq<char>| keys.contains(p) == (prev.contains(p) || p == keys.last()) by {
            if prev.contains(p) {
                let i = choose|i: int| 0 <= i < prev.len() && prev[i] == p;
                assert(keys[i] == p);
            }
            if keys.contains(p) && p != keys.last() {
                let i = choose|i: int| 0 <= i < keys.len() && keys[i] == p;
                assert(prev[i] == p);
            }
        }
    }
}

/// What was committed is read back: once a batch is on tape and published, the record of a path
/// in the new index is what a read of that path tells, whatever the directory still has.
pub proof fn law_committed_is_read_back(
    v: ServiceView,
    round: u64,
    b: BatchView,
    us: Seq<UploadView>,
    generation: u64,
    found: nodes::Records,
    path: Seq<char>,
    row: Option<StatView>,
)
    requires
        v.serving_of(round) is Some,
        (v.serving->0).batch_done(b, us, Ok((generation, found))).1 is Committed,
        strmap::listing(strmap::sorted_keys(found), found.dom()),
        forall|p: Seq<char>| #[trigger] found.contains_key(p) ==> found[p].path == p,
        paths::good_path(path),
        found.contains_key(paths::normal(path)),
    ensures
        ({
            let s = v.serving->0;
            let after = v.batch_done(round, b, us, Ok((generation, found)));
            let c = CommitView { generation, round: s.round, barcode: s.tape.barcode };
            let st = files::record_stat(c, found[paths::normal(path)]);
            after.stat(path, row) == Ok::<Option<StatView>, ServiceErrorView>(
                if st.deleted {
                    None
                } else {
                    Some(st)
                },
            )
        }),
{
    let s = v.serving->0;
    let c = CommitView { generation, round: s.round, barcode: s.tape.barcode };
    let keys = strmap::sorted_keys(found);
    assert forall|i: int| 0 <= i < keys.len() implies (found[#[trigger] keys[i]]).path
        == keys[i] by {
        assert(keys.contains(keys[i]));
    }
    lemma_with_records(files::with_uploads(s.recent, c, us, found), c, keys, found);
    assert(keys.contains(paths::normal(path)));
}

/// Without a tape to write to, the pool's directory is still read, and a change is told that
/// there is no tape.
pub proof fn law_reading_goes_on_without_a_tape(
    v: ServiceView,
    round: u64,
    pool: Seq<char>,
    reason: Seq<char>,
)
    ensures
        ({
            let w = ServiceView {
                no_tape: true,
                read_only: Some((round, pool)),
                ..v.closed(reason)
            };
            &&& w.reading() == Ok::<(u64, Seq<char>), ServiceErrorView>((round, pool))
            &&& w.closed_error() == ServiceErrorView::NoTape(reason)
        }),
{
}

/// Once the longest wait has passed for the oldest queued file, or the queue has grown to its
/// bounds, the next batch is taken at once, unless one is under way or the volume cannot freeze.
pub proof fn law_no_file_waits_longer(s: ServingView, p: BatchPolicy, t: u64, now: u64)
    requires
        s.queue.len() > 0,
        s.in_batch.len() == 0,
        s.volume.freeze_refusal() is None,
        s.oldest == Some(t),
        t + p.max_wait <= now || s.queue_bytes >= p.max_bytes || s.queue.len() >= p.max_files,
    ensures
        s.due(p, now) == Some(0u64),
        s.takes(p, false, now),
{
}

} // verus!
