//! What renames, batches and listings come to in the file service.
use vstd::prelude::*;

use crate::daemon::files;
use crate::daemon::files::{
    BatchPolicy, CommitView, Nodes, Opened, ServiceView, ServingView, StatView, TaskView,
    UploadView,
};
use crate::daemon::nodes;
use crate::daemon::paths;
use crate::engine::volume_state::{BatchView, PendingState, VolumeView};
use crate::strmap;

verus! {

/// The path itself or something under it.
pub open spec fn within(p: Seq<char>, top: Seq<char>) -> bool {
    p == top || paths::below(p, top)
}

/// The change that moves the node at `p` along when `from` becomes `to`.
pub open spec fn moves_node(
    u: UploadView,
    s: ServingView,
    task: u64,
    source: Nodes,
    from: Seq<char>,
    to: Seq<char>,
    p: Seq<char>,
) -> bool {
    &&& u.task == task
    &&& u.path == to + p.skip(from.len() as int)
    &&& u.rename_from == Some((p, p == from))
    &&& u.directory == source[p]
    &&& u.len == s.recent[p].len
    &&& !u.delete && u.symlink_target is None && u.xattr_change is None && u.metadata is None
}

/// One of the changes moves the node at `p`.
pub open spec fn has_move(
    us: Seq<UploadView>,
    s: ServingView,
    task: u64,
    source: Nodes,
    from: Seq<char>,
    to: Seq<char>,
    p: Seq<char>,
) -> bool {
    exists|i: int| 0 <= i < us.len() && moves_node(#[trigger] us[i], s, task, source, from, to, p)
}

proof fn lemma_moves(
    s: ServingView,
    task: u64,
    keys: Seq<Seq<char>>,
    source: Nodes,
    from: Seq<char>,
    to: Seq<char>,
    p: Seq<char>,
)
    requires
        files::moves(s, task, keys, source, from, to) is Ok,
        keys.contains(p),
        within(p, from),
    ensures
        has_move(
            files::moves(s, task, keys, source, from, to)->Ok_0,
            s,
            task,
            source,
            from,
            to,
            p,
        ),
        s.recent.contains_key(p),
        !s.recent[p].deleted,
        s.recent[p].barcode == s.tape.barcode,
    decreases keys.len(),
{
    let rest = keys.drop_last();
    let was = files::moves(s, task, rest, source, from, to)->Ok_0;
    let us = files::moves(s, task, keys, source, from, to)->Ok_0;
    if keys.last() == p {
        assert(moves_node(us[was.len() as int], s, task, source, from, to, p));
    } else {
        let j = choose|j: int| 0 <= j < keys.len() && keys[j] == p;
        assert(rest[j] == p);
        lemma_moves(s, task, rest, source, from, to, p);
        let i = choose|i: int|
            0 <= i < was.len() && moves_node(#[trigger] was[i], s, task, source, from, to, p);
        assert(us[i] == was[i]);
    }
}

proof fn lemma_moves_only(
    s: ServingView,
    task: u64,
    keys: Seq<Seq<char>>,
    source: Nodes,
    from: Seq<char>,
    to: Seq<char>,
    i: int,
)
    requires
        files::moves(s, task, keys, source, from, to) is Ok,
        0 <= i < files::moves(s, task, keys, source, from, to)->Ok_0.len(),
    ensures
        ({
            let u = files::moves(s, task, keys, source, from, to)->Ok_0[i];
            let p = (u.rename_from->0).0;
            &&& keys.contains(p)
            &&& within(p, from)
            &&& moves_node(u, s, task, source, from, to, p)
        }),
    decreases keys.len(),
{
    let rest = keys.drop_last();
    let was = files::moves(s, task, rest, source, from, to)->Ok_0;
    if i < was.len() {
        lemma_moves_only(s, task, rest, source, from, to, i);
        let p = (was[i].rename_from->0).0;
        let j = choose|j: int| 0 <= j < rest.len() && rest[j] == p;
        assert(keys[j] == p);
    } else {
        assert(keys[keys.len() - 1] == keys.last());
    }
}

/// The removal of the node at `p`.
pub open spec fn removes_node(u: UploadView, task: u64, source: Nodes, p: Seq<char>) -> bool {
    &&& u.task == task && u.path == p && u.delete && u.directory == source[p]
    &&& u.symlink_target is None && u.rename_from is None && u.xattr_change is None
    &&& u.metadata is None && u.len == 0
}

/// One of the changes removes the node at `p`.
pub open spec fn has_removal(us: Seq<UploadView>, task: u64, source: Nodes, p: Seq<char>) -> bool {
    exists|i: int| 0 <= i < us.len() && removes_node(#[trigger] us[i], task, source, p)
}

/// A rename is made of one move and one removal for each live node at its source and under it, and
/// of nothing else: each node goes to the same place under the target, keeps its kind and its
/// length, and is taken away where it was. First come all moves, then the removals. All these nodes
/// are on the served tape.
pub proof fn law_rename_is_moves_and_removals(
    s: ServingView,
    task: u64,
    from: Seq<char>,
    to: Seq<char>,
    no_replace: bool,
    seen_from: u64,
    source: Nodes,
    seen_to: u64,
    target: Nodes,
    p: Seq<char>,
    i: int,
)
    requires
        s.near(from, source).dom().finite(),
        s.rename_plan(task, from, to, no_replace, seen_from, source, seen_to, target) matches Ok(
            Some(_),
        ),
    ensures
        ({
            let near = s.near(from, source);
            let us = (s.rename_plan(
                task,
                from,
                to,
                no_replace,
                seen_from,
                source,
                seen_to,
                target,
            )->Ok_0)->0;
            let n = us.len() / 2;
            &&& us.len() == 2 * n
            &&& near.contains_key(p) && within(p, from) ==> has_move(
                us.take(n as int),
                s,
                task,
                near,
                from,
                to,
                p,
            ) && has_removal(us.skip(n as int), task, near, p)
            &&& 0 <= i < n ==> {
                let q = (us[i].rename_from->0).0;
                &&& near.contains_key(q) && within(q, from)
                &&& moves_node(us[i], s, task, near, from, to, q)
            }
            &&& n <= i < 2 * n ==> {
                let q = us[i].path;
                &&& near.contains_key(q) && within(q, from)
                &&& removes_node(us[i], task, near, q)
            }
            &&& near.contains_key(p) && within(p, from) ==> s.recent.contains_key(p)
                && !s.recent[p].deleted && s.recent[p].barcode == s.tape.barcode
        }),
{
    let near = s.near(from, source);
    let keys = strmap::sorted_keys(near);
    let moved = files::moves(s, task, keys, near, from, to)->Ok_0;
    let us = files::with_removals(moved);
    let n = moved.len() as int;
    strmap::lemma_sorted_keys_list(near);
    assert(us.len() == 2 * n);
    assert(us.len() / 2 == n as nat);
    assert(us.take(n) =~= moved);
    if near.contains_key(p) && within(p, from) {
        assert(keys.contains(p));
        lemma_moves(s, task, keys, near, from, to, p);
        let k = choose|k: int|
            0 <= k < n && moves_node(#[trigger] moved[k], s, task, near, from, to, p);
        assert(removes_node(us.skip(n)[n - 1 - k], task, near, p));
    }
    if 0 <= i < n {
        lemma_moves_only(s, task, keys, near, from, to, i);
        assert(us[i] == moved[i]);
        assert(keys.contains((us[i].rename_from->0).0));
    }
    if n <= i < 2 * n {
        let k = 2 * n - 1 - i;
        lemma_moves_only(s, task, keys, near, from, to, k);
        assert(keys.contains((moved[k].rename_from->0).0));
    }
}

/// A rename is planned only where the source is there, nothing is under way near either path,
/// neither lies under the other and no file lies above the target, whose parent is a live directory.
/// What stands at the target is replaced only where that is allowed, it is of the same kind, empty
/// and on the served tape.
pub proof fn law_when_a_rename_is_planned(
    s: ServingView,
    task: u64,
    from: Seq<char>,
    to: Seq<char>,
    no_replace: bool,
    seen_from: u64,
    source: Nodes,
    seen_to: u64,
    target: Nodes,
    p: Seq<char>,
)
    requires
        s.near(to, target).dom().finite(),
        s.rename_plan(task, from, to, no_replace, seen_from, source, seen_to, target) matches Ok(
            Some(_),
        ),
    ensures
        ({
            let near = s.near(from, source);
            let there = s.near(to, target);
            let parent = paths::parent_path(to);
            &&& !s.draining && s.switch is None && seen_from == s.serial && seen_to == s.serial
            &&& near.contains_key(from)
            &&& !paths::related(from, to)
            &&& s.volume.current.pending.contains_key(p) ==> !paths::related(p, from)
                && !paths::related(p, to)
            &&& there.contains_key(p) && !there[p] ==> !paths::below(to, p)
            &&& parent.len() > 0 ==> there.contains_key(parent) && there[parent]
            &&& there.contains_key(to) ==> {
                &&& !no_replace && there[to] == near[from]
                &&& there.contains_key(p) ==> !paths::below(p, to)
                &&& s.recent.contains_key(to) && !s.recent[to].deleted && s.recent[to].barcode
                    == s.tape.barcode
            }
        }),
{
    crate::daemon::service_laws::law_file_above_blocks(s.near(to, target), to);
}

proof fn lemma_all_admitted(v: VolumeView, us: Seq<UploadView>, task: u64, seconds: u64)
    requires
        files::all_admitted(v, us, task, seconds).1 is None,
    ensures
        ({
            let w = files::all_admitted(v, us, task, seconds).0;
            &&& forall|i: int|
                0 <= i < us.len() ==> {
                    &&& w.current.pending.contains_key((#[trigger] us[i]).path)
                    &&& w.current.pending[us[i].path].state == PendingState::InProgress
                    &&& w.current.pending[us[i].path].removal == us[i].delete
                    &&& w.current.pending[us[i].path].session == task
                    &&& !v.current.pending.contains_key(us[i].path)
                }
            &&& forall|i: int, j: int|
                0 <= i < j < us.len() ==> (#[trigger] us[i]).path != (#[trigger] us[j]).path
            &&& forall|p: Seq<char>| #[trigger]
                v.current.pending.contains_key(p) ==> w.current.pending.contains_key(p)
                    && w.current.pending[p] == v.current.pending[p]
            &&& forall|p: Seq<char>| #[trigger]
                w.current.pending.contains_key(p) ==> v.current.pending.contains_key(p) || exists|
                    i: int,
                |
                    0 <= i < us.len() && (#[trigger] us[i]).path == p
            &&& w.current.committed == v.current.committed
        }),
    decreases us.len(),
{
    if us.len() > 0 {
        let rest = us.drop_last();
        let u = us.last();
        lemma_all_admitted(v, rest, task, seconds);
        let x = files::all_admitted(v, rest, task, seconds).0;
        let w = files::all_admitted(v, us, task, seconds).0;
        assert(us[us.len() - 1] == u);
        assert(forall|i: int| 0 <= i < rest.len() ==> #[trigger] rest[i] == us[i]);
        assert(!x.current.pending.contains_key(u.path));
        assert forall|i: int| 0 <= i < us.len() implies {
            &&& w.current.pending.contains_key((#[trigger] us[i]).path)
            &&& w.current.pending[us[i].path].state == PendingState::InProgress
            &&& w.current.pending[us[i].path].removal == us[i].delete
            &&& w.current.pending[us[i].path].session == task
            &&& !v.current.pending.contains_key(us[i].path)
        } by {
            if i < rest.len() {
                assert(rest[i] == us[i]);
            } else if v.current.pending.contains_key(u.path) {
                assert(x.current.pending.contains_key(u.path));
            }
        }
        assert forall|i: int, j: int| 0 <= i < j < us.len() implies (#[trigger] us[i]).path != (
        #[trigger] us[j]).path by {
            assert(rest[i] == us[i]);
            if j < rest.len() {
                assert(rest[j] == us[j]);
            } else {
                assert(x.current.pending.contains_key(rest[i].path));
            }
        }
        assert forall|p: Seq<char>| #[trigger] w.current.pending.contains_key(
            p,
        ) implies v.current.pending.contains_key(p) || exists|i: int|
            0 <= i < us.len() && (#[trigger] us[i]).path == p by {
            if p == u.path {
                assert(us[us.len() - 1].path == p);
            } else if !v.current.pending.contains_key(p) {
                let i = choose|i: int| 0 <= i < rest.len() && (#[trigger] rest[i]).path == p;
                assert(us[i].path == p);
            }
        }
    }
}

proof fn lemma_all_ready(v: VolumeView, set: Set<Seq<char>>, us: Seq<UploadView>)
    requires
        files::all_ready(v, set, us).2 is None,
        forall|i: int, j: int|
            0 <= i < j < us.len() ==> (#[trigger] us[i]).path != (#[trigger] us[j]).path,
    ensures
        ({
            let (w, done, _) = files::all_ready(v, set, us);
            &&& forall|i: int|
                0 <= i < us.len() ==> {
                    let e = w.current.pending[us[i].path];
                    &&& w.current.pending.contains_key((#[trigger] us[i]).path)
                    &&& done.contains(us[i].path)
                    &&& e.state == PendingState::Ready
                    &&& e.removal == v.current.pending[us[i].path].removal
                    &&& e.session == v.current.pending[us[i].path].session
                    &&& !us[i].delete ==> e.staged_len == us[i].len
                }
            &&& forall|p: Seq<char>|
                (forall|i: int| 0 <= i < us.len() ==> (#[trigger] us[i]).path != p) ==> {
                    &&& #[trigger] w.current.pending.contains_key(p)
                        == v.current.pending.contains_key(p)
                    &&& w.current.pending[p] == v.current.pending[p]
                }
            &&& w.current.committed == v.current.committed
        }),
    decreases us.len(),
{
    if us.len() > 0 {
        let rest = us.drop_last();
        let u = us.last();
        assert(us[us.len() - 1] == u);
        assert(forall|i: int| 0 <= i < rest.len() ==> #[trigger] rest[i] == us[i]);
        assert forall|i: int, j: int| 0 <= i < j < rest.len() implies (#[trigger] rest[i]).path != (
        #[trigger] rest[j]).path by {
            assert(us[i].path != us[j].path);
        }
        lemma_all_ready(v, set, rest);
        let (x, d, _) = files::all_ready(v, set, rest);
        let (w, done, _) = files::all_ready(v, set, us);
        assert forall|i: int| 0 <= i < rest.len() implies (#[trigger] rest[i]).path != u.path by {
            assert(us[i].path != us[us.len() - 1].path);
        }
        assert(x.current.pending.contains_key(u.path) == v.current.pending.contains_key(u.path));
        assert forall|i: int| 0 <= i < us.len() implies {
            let e = w.current.pending[us[i].path];
            &&& w.current.pending.contains_key((#[trigger] us[i]).path)
            &&& done.contains(us[i].path)
            &&& e.state == PendingState::Ready
            &&& e.removal == v.current.pending[us[i].path].removal
            &&& e.session == v.current.pending[us[i].path].session
            &&& !us[i].delete ==> e.staged_len == us[i].len
        } by {
            if i < rest.len() {
                assert(rest[i] == us[i]);
            }
        }
        assert forall|p: Seq<char>|
            (forall|i: int| 0 <= i < us.len() ==> (#[trigger] us[i]).path != p) implies {
            &&& #[trigger] w.current.pending.contains_key(p) == v.current.pending.contains_key(p)
            &&& w.current.pending[p] == v.current.pending[p]
        } by {
            assert(us[us.len() - 1].path != p);
            assert forall|i: int| 0 <= i < rest.len() implies (#[trigger] rest[i]).path != p by {
                assert(us[i].path != p);
            }
            assert(x.current.pending.contains_key(p) == v.current.pending.contains_key(p));
        }
    }
}

/// A rename that is taken on is queued whole, behind what is queued, under one task that is staged.
/// Each of its changes is ready for the next batch, a removal as a removal and a move with the
/// length of what it moves; no other change is touched. One that is refused queues nothing.
pub proof fn law_rename_is_queued_whole(
    v: ServiceView,
    us: Seq<UploadView>,
    now: u64,
    i: int,
    p: Seq<char>,
)
    requires
        v.serving is Some,
        v.room(2),
        v.serving->0.admitted + us.len() <= u64::MAX,
        0 <= i < us.len(),
        forall|j: int| 0 <= j < us.len() ==> (#[trigger] us[j]).path != p,
    ensures
        ({
            let s = v.serving->0;
            let (w, r) = v.settled(s.renamed(v.next_task, us, now));
            let t = w.serving->0;
            let e = t.volume.current.pending[us[i].path];
            &&& w.serving is Some
            &&& r is Ok ==> {
                &&& r->Ok_0 == v.next_task && w.next_task == v.next_task + 1
                &&& w.tasks == v.tasks.insert(v.next_task, TaskView::Staged)
                &&& t.queue == s.queue + us
                &&& t.admitted == s.admitted + us.len()
                &&& t.volume.current.pending.contains_key(us[i].path)
                &&& e.state == PendingState::Ready && e.session == v.next_task
                &&& e.removal == us[i].delete
                &&& !us[i].delete ==> e.staged_len == us[i].len
                &&& t.namespace_pending.contains(us[i].path)
                &&& !s.volume.current.pending.contains_key(us[i].path)
                &&& t.volume.current.pending.contains_key(p)
                    == s.volume.current.pending.contains_key(p)
                &&& s.volume.current.pending.contains_key(p) ==> t.volume.current.pending[p]
                    == s.volume.current.pending[p]
                &&& t.volume.current.committed == s.volume.current.committed
            }
            &&& r is Err ==> t.queue == s.queue && w.tasks == v.tasks && w.next_task
                == v.next_task && t.admitted == s.admitted
            &&& t.recent == s.recent && t.in_batch == s.in_batch
        }),
{
    let s = v.serving->0;
    let task = v.next_task;
    let o = files::session_opened(s.volume, task);
    let (x, e) = files::all_admitted(o, us, task, s.seconds(now));
    let (y, done, f) = files::all_ready(x, s.namespace_pending, us);
    if e is None && f is None {
        lemma_all_admitted(o, us, task, s.seconds(now));
        lemma_all_ready(x, s.namespace_pending, us);
        assert(y.current.pending.contains_key(p) == x.current.pending.contains_key(p));
        if x.current.pending.contains_key(p) && !o.current.pending.contains_key(p) {
            let j = choose|j: int| 0 <= j < us.len() && (#[trigger] us[j]).path == p;
            assert(us[j].path != p);
        }
    }
}

/// When the next batch is due: not while nothing is queued or a batch is under way, at once when
/// the queue has grown to its limit in bytes or in changes, and else as soon as the oldest change
/// has waited its longest or the newest has been followed by none for the idle time.
pub proof fn law_when_a_batch_is_due(s: ServingView, p: BatchPolicy, now: u64, a: u64, b: u64)
    requires
        s.oldest == Some(a),
        s.newest == Some(b),
    ensures
        ({
            let idle = s.queue.len() == 0 || s.in_batch.len() > 0;
            let d = s.due(p, now);
            let grown = s.queue_bytes >= p.max_bytes || s.queue.len() >= p.max_files;
            &&& d is None <==> idle
            &&& !idle ==> (d->0 == 0 <==> grown || now >= a + p.max_wait || now >= b + p.idle)
            &&& !idle && !grown && d->0 < u64::MAX ==> (now + d->0 >= a + p.max_wait || now + d->0
                >= b + p.idle)
            &&& !idle && !grown && d->0 > 0 && now + d->0 <= u64::MAX ==> now + d->0 <= a + p.max_wait
                && now + d->0 <= b + p.idle
            &&& s.takes(p, false, now) && s.switch is None ==> grown || now >= a + p.max_wait || now
                >= b + p.idle
            &&& !idle && s.volume.freeze_refusal() is None ==> s.takes(p, true, now)
        }),
{
}

/// A batch that is taken is the whole queue, and leaves an empty one; it takes up the ready changes.
pub proof fn law_batch_takes_the_queue(s: ServingView, i: int)
    requires
        0 <= i < s.queue.len(),
    ensures
        ({
            let t = s.taken();
            &&& t.in_batch.len() == s.queue.len()
            &&& t.in_batch[i] == s.queue[i].task
            &&& t.queue.len() == 0 && t.queue_bytes == 0 && t.oldest is None && t.newest is None
            &&& t.recent == s.recent && t.admitted == s.admitted
            &&& t.volume.current.pending == s.volume.current.pending
            &&& t.volume.current.commit_slot == Some(s.volume.next_frozen(Set::empty()))
        }),
{
}

proof fn lemma_with_uploads(
    m: Map<Seq<char>, StatView>,
    c: CommitView,
    us: Seq<UploadView>,
    found: nodes::Records,
    p: Seq<char>,
)
    ensures
        ({
            let r = files::with_uploads(m, c, us, found);
            &&& (forall|i: int| 0 <= i < us.len() ==> (#[trigger] us[i]).path != p) ==> {
                &&& r.contains_key(p) == m.contains_key(p)
                &&& m.contains_key(p) ==> r[p] == m[p]
            }
            &&& !(forall|i: int| 0 <= i < us.len() ==> (#[trigger] us[i]).path != p)
                ==> r.contains_key(p) && exists|i: int|
                0 <= i < us.len() && (#[trigger] us[i]).path == p && r[p] == files::upload_stat(
                    c,
                    us[i],
                    found,
                )
        }),
    decreases us.len(),
{
    if us.len() > 0 {
        let rest = us.drop_last();
        lemma_with_uploads(m, c, rest, found, p);
        assert(us[us.len() - 1] == us.last());
        assert(forall|i: int| 0 <= i < rest.len() ==> #[trigger] rest[i] == us[i]);
        if us.last().path != p {
            if forall|i: int| 0 <= i < us.len() ==> (#[trigger] us[i]).path != p {
                assert forall|i: int| 0 <= i < rest.len() implies (#[trigger] rest[i]).path != p by {
                    assert(us[i].path != p);
                }
            } else {
                let j = choose|j: int| 0 <= j < us.len() && (#[trigger] us[j]).path == p;
                assert(rest[j].path == p);
                let r = files::with_uploads(m, c, rest, found);
                let i = choose|i: int|
                    0 <= i < rest.len() && (#[trigger] rest[i]).path == p && r[p]
                        == files::upload_stat(c, rest[i], found);
                assert(us[i].path == p);
            }
        }
    }
}

proof fn lemma_with_records(
    m: Map<Seq<char>, StatView>,
    c: CommitView,
    keys: Seq<Seq<char>>,
    found: nodes::Records,
    p: Seq<char>,
)
    requires
        forall|i: int| 0 <= i < keys.len() ==> found[#[trigger] keys[i]].path == keys[i],
    ensures
        ({
            let r = files::with_records(m, c, keys, found);
            if keys.contains(p) {
                r.contains_key(p) && r[p] == files::record_stat(c, found[p])
            } else {
                &&& r.contains_key(p) == m.contains_key(p)
                &&& m.contains_key(p) ==> r[p] == m[p]
            }
        }),
    decreases keys.len(),
{
    if keys.len() > 0 {
        let rest = keys.drop_last();
        assert forall|i: int| 0 <= i < rest.len() implies found[#[trigger] rest[i]].path
            == rest[i] by {
            assert(keys[i] == rest[i]);
        }
        lemma_with_records(m, c, rest, found, p);
        assert(keys[keys.len() - 1] == keys.last());
        if keys.last() != p {
            assert(keys.contains(p) <==> rest.contains(p)) by {
                if keys.contains(p) {
                    let i = choose|i: int| 0 <= i < keys.len() && keys[i] == p;
                    assert(rest[i] == p);
                }
                if rest.contains(p) {
                    let i = choose|i: int| 0 <= i < rest.len() && rest[i] == p;
                    assert(keys[i] == p);
                }
            }
        } else {
            assert(keys.contains(p));
        }
    }
}

/// What the served tape is known to hold after a batch was committed. A path of which the new index
/// has a record is as that record says, on this tape and in the new generation. A path that the
/// batch changed without a record in it has the length and the fate of its change. Every other path
/// is as it was, and so is the queue.
pub proof fn law_commit_is_known(
    s: ServingView,
    b: BatchView,
    us: Seq<UploadView>,
    generation: u64,
    found: nodes::Records,
    p: Seq<char>,
)
    requires
        found.dom().finite(),
        forall|q: Seq<char>| #[trigger] found.contains_key(q) ==> found[q].path == q,
        s.batch_done(b, us, Ok((generation, found))).1 is Committed,
    ensures
        ({
            let (t, st) = s.batch_done(b, us, Ok((generation, found)));
            let x = t.recent[p];
            let changed = exists|i: int| 0 <= i < us.len() && (#[trigger] us[i]).path == p;
            &&& st == (TaskView::Committed { generation })
            &&& found.contains_key(p) ==> {
                &&& t.recent.contains_key(p)
                &&& x.len == found[p].length && x.sha256 == found[p].sha256
                &&& x.version == found[p].version && x.deleted == found[p].deleted
                &&& x.metadata == found[p].metadata
                &&& x.generation == generation && x.barcode == s.tape.barcode && x.round == s.round
            }
            &&& !found.contains_key(p) && changed ==> {
                &&& t.recent.contains_key(p)
                &&& x.generation == generation && x.barcode == s.tape.barcode && x.round == s.round
                &&& exists|i: int|
                    0 <= i < us.len() && (#[trigger] us[i]).path == p && x.len == us[i].len
                        && x.deleted == us[i].delete
            }
            &&& !found.contains_key(p) && !changed ==> {
                &&& t.recent.contains_key(p) == s.recent.contains_key(p)
                &&& s.recent.contains_key(p) ==> x == s.recent[p]
            }
            &&& t.queue == s.queue && t.queue_bytes == s.queue_bytes
            &&& t.in_batch.len() == 0
            &&& t.tape == s.tape && t.round == s.round
        }),
{
    let c = CommitView { generation, round: s.round, barcode: s.tape.barcode };
    let keys = strmap::sorted_keys(found);
    let m = files::with_uploads(s.recent, c, us, found);
    strmap::lemma_sorted_keys_list(found);
    assert forall|i: int| 0 <= i < keys.len() implies found[#[trigger] keys[i]].path == keys[i] by {
        assert(keys.contains(keys[i]));
    }
    assert(keys.contains(p) <==> found.contains_key(p));
    lemma_with_uploads(s.recent, c, us, found, p);
    lemma_with_records(m, c, keys, found, p);
    if exists|i: int| 0 <= i < us.len() && (#[trigger] us[i]).path == p {
        let j = choose|j: int| 0 <= j < us.len() && (#[trigger] us[j]).path == p;
        let i = choose|i: int|
            0 <= i < us.len() && (#[trigger] us[i]).path == p && m[p] == files::upload_stat(
                c,
                us[i],
                found,
            );
        assert(us[i].path == p);
    }
}

/// A batch that failed changes nothing of what is known or published, and leaves its tasks open. The
/// tasks that are not in it stay as they are.
pub proof fn law_failed_batch_tells_nothing(
    v: ServiceView,
    round: u64,
    b: BatchView,
    us: Seq<UploadView>,
    why: Seq<char>,
    id: u64,
)
    requires
        v.serving_of(round) is Some,
    ensures
        ({
            let w = v.batch_done(round, b, us, Err(why));
            let s = v.serving->0;
            let t = w.serving->0;
            let named = exists|i: int| 0 <= i < us.len() && (#[trigger] us[i]).task == id;
            &&& w.serving is Some
            &&& t.recent == s.recent && t.volume == s.volume && t.queue == s.queue
            &&& named ==> w.tasks.contains_key(id) && w.tasks[id] == (TaskView::Indeterminate {
                reason: why,
            })
            &&& !named ==> w.tasks.contains_key(id) == v.tasks.contains_key(id) && (
            v.tasks.contains_key(id) ==> w.tasks[id] == v.tasks[id])
        }),
{
    lemma_with_tasks(v.tasks, us, TaskView::Indeterminate { reason: why }, id);
}

proof fn lemma_with_tasks(m: Map<u64, TaskView>, us: Seq<UploadView>, st: TaskView, id: u64)
    ensures
        ({
            let r = files::with_tasks(m, us, st);
            let named = exists|i: int| 0 <= i < us.len() && (#[trigger] us[i]).task == id;
            &&& named ==> r.contains_key(id) && r[id] == st
            &&& !named ==> r.contains_key(id) == m.contains_key(id) && (m.contains_key(id) ==> r[id]
                == m[id])
        }),
    decreases us.len(),
{
    if us.len() > 0 {
        let rest = us.drop_last();
        lemma_with_tasks(m, rest, st, id);
        assert(us[us.len() - 1] == us.last());
        if exists|i: int| 0 <= i < rest.len() && (#[trigger] rest[i]).task == id {
            let i = choose|i: int| 0 <= i < rest.len() && (#[trigger] rest[i]).task == id;
            assert(us[i].task == id);
        } else if us.last().task != id {
            assert forall|i: int| 0 <= i < us.len() implies (#[trigger] us[i]).task != id by {
                if i < rest.len() {
                    assert(rest[i] == us[i]);
                }
            }
        }
    }
}

/// A tape that is opened is taken to hold a record just where no other tape has the path in the same
/// or a newer version; each record stands as it is.
pub proof fn law_opened_tape_holds_its_records(v: Seq<Opened>, c: CommitView, i: int)
    requires
        0 <= i < v.len(),
        forall|a: int, b: int|
            0 <= a < b < v.len() ==> (#[trigger] v[a]).record.path@ != (#[trigger] v[b]).record.path@,
    ensures
        ({
            let m = files::opened_map(v, c);
            let r = v[i].record@;
            let other = v[i].indexed is Some && (v[i].indexed->0).0@ != c.barcode && ((
            v[i].indexed->0).1.0 > r.version.0 || ((v[i].indexed->0).1.0 == r.version.0 && (
            v[i].indexed->0).1.1 >= r.version.1));
            let x = m[r.path];
            &&& m.contains_key(r.path) <==> !other
            &&& !other ==> {
                &&& x.len == r.length && x.sha256 == r.sha256 && x.version == r.version
                &&& x.deleted == r.deleted && x.metadata == r.metadata
                &&& x.generation == c.generation && x.barcode == c.barcode && x.round == c.round
            }
        }),
{
    lemma_opened(v, c, i);
}

proof fn lemma_opened_keys(v: Seq<Opened>, c: CommitView, p: Seq<char>)
    ensures
        files::opened_map(v, c).contains_key(p) ==> exists|i: int|
            0 <= i < v.len() && (#[trigger] v[i]).record.path@ == p,
    decreases v.len(),
{
    if v.len() > 0 {
        let rest = v.drop_last();
        lemma_opened_keys(rest, c, p);
        assert(v[v.len() - 1] == v.last());
        if files::opened_map(rest, c).contains_key(p) {
            let i = choose|i: int| 0 <= i < rest.len() && (#[trigger] rest[i]).record.path@ == p;
            assert(v[i].record.path@ == p);
        }
    }
}

proof fn lemma_opened(v: Seq<Opened>, c: CommitView, i: int)
    requires
        0 <= i < v.len(),
        forall|a: int, b: int|
            0 <= a < b < v.len() ==> (#[trigger] v[a]).record.path@ != (#[trigger] v[b]).record.path@,
    ensures
        ({
            let m = files::opened_map(v, c);
            let o = v[i];
            let gone = files::superseded(files::indexed_view(o), c.barcode, o.record.version);
            &&& m.contains_key(o.record.path@) <==> !gone
            &&& !gone ==> m[o.record.path@] == files::record_stat(c, o.record@)
        }),
    decreases v.len(),
{
    let rest = v.drop_last();
    assert(v[v.len() - 1] == v.last());
    assert(forall|a: int| 0 <= a < rest.len() ==> #[trigger] rest[a] == v[a]);
    if i < rest.len() {
        assert forall|a: int, b: int| 0 <= a < b < rest.len() implies (
        #[trigger] rest[a]).record.path@ != (#[trigger] rest[b]).record.path@ by {
            assert(v[a].record.path@ != v[b].record.path@);
        }
        lemma_opened(rest, c, i);
        assert(v[i].record.path@ != v[v.len() - 1].record.path@);
    } else {
        lemma_opened_keys(rest, c, v[i].record.path@);
        if files::opened_map(rest, c).contains_key(v[i].record.path@) {
            let j = choose|j: int|
                0 <= j < rest.len() && (#[trigger] rest[j]).record.path@ == v[i].record.path@;
            assert(v[j].record.path@ != v[i].record.path@);
        }
    }
}

} // verus!
