//! What the requests to the file service come to.
use vstd::prelude::*;

use crate::daemon::encoding;
use crate::daemon::files;
use crate::daemon::files::{HandleView, Nodes, ServiceView, ServingView, StatView, TaskView};
use crate::daemon::nodes;
use crate::daemon::nodes::{FileMetadataView, XattrView};
use crate::daemon::paths;
use crate::daemon::paths::ServiceErrorView;
use crate::engine::volume_state::{PendingState, VolumeView};
use crate::strmap;

verus! {

/// What a change near a path takes to be there: what the served tape says of the path, above it and
/// below it, and elsewhere what the directory says.
pub proof fn law_served_tape_corrects_the_directory(
    s: ServingView,
    path: Seq<char>,
    live: Nodes,
    p: Seq<char>,
)
    ensures
        ({
            let near = s.near(path, live);
            if s.recent.contains_key(p) && (p == path || paths::below(p, path) || paths::below(
                path,
                p,
            )) {
                &&& near.contains_key(p) <==> !s.recent[p].deleted
                &&& near.contains_key(p) ==> near[p] == nodes::dir_kind(s.recent[p].metadata)
            } else {
                &&& near.contains_key(p) <==> live.contains_key(p)
                &&& near.contains_key(p) ==> near[p] == live[p]
            }
        }),
{
}

proof fn lemma_file_above(keys: Seq<Seq<char>>, live: Nodes, path: Seq<char>)
    ensures
        match files::file_above(keys, live, path) {
            None => forall|i: int|
                0 <= i < keys.len() ==> live[#[trigger] keys[i]] || !paths::below(path, keys[i]),
            Some(p) => keys.contains(p) && !live[p] && paths::below(path, p),
        },
    decreases keys.len(),
{
    if keys.len() > 0 {
        let rest = keys.drop_first();
        lemma_file_above(rest, live, path);
        if files::file_above(rest, live, path) is None {
            assert forall|i: int| 0 < i < keys.len() implies live[#[trigger] keys[i]]
                || !paths::below(path, keys[i]) by {
                assert(rest[i - 1] == keys[i]);
            }
        } else {
            let p = files::file_above(rest, live, path)->0;
            let i = choose|i: int| 0 <= i < rest.len() && rest[i] == p;
            assert(keys[i + 1] == p);
        }
        assert(keys[0] == keys.first());
        assert(keys.contains(keys[0]));
    }
}

/// A path is blocked by a file just where a live file lies above it, and it is such a file that is
/// named.
pub proof fn law_file_above_blocks(live: Nodes, path: Seq<char>)
    requires
        live.dom().finite(),
    ensures
        match files::blocking_file(live, path) {
            None => forall|p: Seq<char>| #[trigger]
                live.contains_key(p) && !live[p] ==> !paths::below(path, p),
            Some(p) => live.contains_key(p) && !live[p] && paths::below(path, p),
        },
{
    let keys = strmap::sorted_keys(live);
    strmap::lemma_sorted_keys_list(live);
    lemma_file_above(keys, live, path);
    match files::blocking_file(live, path) {
        None => {
            assert forall|p: Seq<char>| #[trigger]
                live.contains_key(p) && !live[p] implies !paths::below(path, p) by {
                assert(keys.contains(p));
                let i = choose|i: int| 0 <= i < keys.len() && keys[i] == p;
                assert(live[keys[i]] || !paths::below(path, keys[i]));
            }
        },
        Some(p) => {
            assert(keys.contains(p));
        },
    }
}

/// A file can stand at the path: no file lies above it, nothing below it, and it is no directory.
pub open spec fn open_to_files(near: Nodes, path: Seq<char>) -> bool {
    &&& !(near.contains_key(path) && near[path])
    &&& forall|p: Seq<char>| #[trigger]
        near.contains_key(p) ==> !paths::below(p, path) && (near[p] || !paths::below(path, p))
}

/// No change is under way on the path, above it or below it.
pub open spec fn quiet(s: ServingView, path: Seq<char>) -> bool {
    forall|p: Seq<char>| #[trigger]
        s.volume.current.pending.contains_key(p) ==> p != path && !paths::below(p, path)
            && !paths::below(path, p)
}

proof fn lemma_file_refusal(s: ServingView, path: Seq<char>, near: Nodes)
    requires
        near.dom().finite(),
    ensures
        s.file_refusal(path, near) is None <==> quiet(s, path) && open_to_files(near, path),
{
    law_file_above_blocks(near, path);
    assert(s.busy(path) <==> !quiet(s, path)) by {
        if s.busy(path) {
            let p = choose|p: Seq<char>| #[trigger]
                s.volume.current.pending.contains_key(p) && paths::related(p, path);
            assert(s.volume.current.pending.contains_key(p));
        }
    }
    if files::has_children(near, path) {
        let p = choose|p: Seq<char>| #[trigger] near.contains_key(p) && paths::below(p, path);
        assert(near.contains_key(p));
    }
    if open_to_files(near, path) {
        match files::blocking_file(near, path) {
            Some(p) => {
                assert(near.contains_key(p));
            },
            None => {},
        }
    }
}

/// Two volumes differ in no change but the one on this path, and in nothing that is published.
pub open spec fn only_this_change(v: VolumeView, w: VolumeView, path: Seq<char>) -> bool {
    &&& w.current.pending.remove(path) == v.current.pending.remove(path)
    &&& w.current.committed == v.current.committed
    &&& w.current.generation == v.current.generation
    &&& w.current.commit_slot == v.current.commit_slot
}

/// An upload is let in just where the service takes changes, the caller has seen its present tape,
/// the path can hold a file and nothing is under way near it, a file that must be new is not there,
/// the tape is not being changed, and the file fits: into a tape at all, under the file limit and
/// into what may still be promised.
pub proof fn law_when_an_upload_is_let_in(
    s: ServingView,
    task: u64,
    path: Seq<char>,
    len: u64,
    create_only: bool,
    seen: u64,
    live: Nodes,
    now: u64,
)
    requires
        s.near(path, live).dom().finite(),
    ensures
        s.begun(task, path, len, create_only, seen, live, now).1 is None <==> {
            let near = s.near(path, live);
            &&& !s.draining
            &&& seen == s.serial
            &&& !(create_only && near.contains_key(path))
            &&& quiet(s, path)
            &&& open_to_files(near, path)
            &&& len <= s.limits.usable_capacity
            &&& s.switch is None
            &&& s.file_count() + s.admitted < s.limits.file_limit
            &&& s.volume.current.capability.writable
            &&& len <= s.volume.current.ledger.available()
        },
{
    let near = s.near(path, live);
    lemma_file_refusal(s, path, near);
    if quiet(s, path) && s.volume.current.pending.contains_key(path) {
        assert(false);
    }
}

/// An upload that is let in has a handle of its own, for the normal form of its path and the present
/// round. It has reserved its length and is open, with nothing staged; nothing is queued, and no
/// other change is touched. What is refused leaves every change, the queue and every task as they
/// were.
pub proof fn law_upload_is_begun(
    v: ServiceView,
    path: Seq<char>,
    len: u64,
    create_only: bool,
    seen: u64,
    live: Nodes,
    now: u64,
)
    requires
        v.wf(),
        v.room(2),
    ensures
        ({
            let (w, r) = v.begun(path, len, create_only, seen, live, now);
            let p = paths::normal(path);
            let s = v.serving->0;
            let t = w.serving->0;
            let e = t.volume.current.pending[p];
            let h = t.volume.current.ledger.reservations[e.reservation];
            &&& r is Ok ==> {
                &&& paths::good_path(path) && v.serving is Some && w.serving is Some
                &&& r->Ok_0.path == p && r->Ok_0.task == v.next_task && r->Ok_0.round == s.round
                &&& w.next_task == v.next_task + 1
                &&& !s.volume.current.pending.contains_key(p)
                &&& t.volume.current.pending.contains_key(p)
                &&& e.session == v.next_task && e.state == PendingState::InProgress
                &&& e.staged_len == 0 && !e.removal
                &&& h.reserved == len && h.consumed == 0 && !h.released && h.path == p
                &&& t.volume.current.active(v.next_task)
                &&& t.admitted == s.admitted + 1
                &&& only_this_change(s.volume, t.volume, p)
            }
            &&& r is Err ==> w.next_task == v.next_task && (v.serving is Some ==> {
                &&& t.volume.current.pending == s.volume.current.pending
                &&& t.volume.current.ledger == s.volume.current.ledger
                &&& t.volume.current.committed == s.volume.current.committed
                &&& t.admitted == s.admitted
            })
            &&& w.tasks == v.tasks
            &&& v.serving is Some ==> w.serving is Some && t.queue == s.queue && t.recent
                == s.recent && t.tape == s.tape && t.in_batch == s.in_batch && t.queue_bytes
                == s.queue_bytes
        }),
{
    let p = paths::normal(path);
    let (w, r) = v.begun(path, len, create_only, seen, live, now);
    if r is Ok {
        let s = v.serving->0;
        let t = w.serving->0;
        assert(t.volume.current.pending.remove(p) =~= s.volume.current.pending.remove(p));
        if s.volume.current.pending.contains_key(p) {
            assert(paths::related(p, p));
            assert(s.busy(p));
        }
    }
}

/// An upload that is finished is queued last, with its content, its length and its metadata under
/// its path and task, as a plain file. It is ready for the next batch and its task is staged. Its
/// length as staged and all other changes stay.
pub proof fn law_finished_upload_is_queued(
    v: ServiceView,
    h: HandleView,
    spool: Seq<char>,
    len: u64,
    metadata: Option<FileMetadataView>,
    now: u64,
)
    requires
        v.ends(len),
    ensures
        ({
            let (w, r) = v.finished(h, spool, len, metadata, now);
            let s = v.serving->0;
            let t = w.serving->0;
            let u = t.queue.last();
            let served = v.serving is Some && s.round == h.round;
            &&& r is Ok <==> served && !s.draining && s.volume.current.pending.contains_key(h.path)
            &&& r is Ok ==> {
                &&& r->Ok_0 == h.task
                &&& w.tasks == v.tasks.insert(h.task, TaskView::Staged)
                &&& w.serving is Some
                &&& t.queue.len() == s.queue.len() + 1
                &&& t.queue.drop_last() == s.queue
                &&& u.path == h.path && u.task == h.task
                &&& u.spool == spool && u.len == len && u.metadata == metadata
                &&& !u.delete && !u.directory
                &&& u.symlink_target is None && u.rename_from is None && u.xattr_change is None
                &&& t.queue_bytes == s.queue_bytes + len
                &&& t.volume.current.pending.contains_key(h.path)
                &&& t.volume.current.pending[h.path].state == PendingState::Ready
                &&& t.volume.current.pending[h.path].staged_len
                    == s.volume.current.pending[h.path].staged_len
                &&& only_this_change(s.volume, t.volume, h.path)
                &&& t.recent == s.recent
            }
            &&& r is Err ==> w.tasks == v.tasks && (v.serving is Some ==> w.serving is Some
                && t.queue == s.queue && t.queue_bytes == s.queue_bytes)
            &&& !served ==> w == v
        }),
{
    let (w, r) = v.finished(h, spool, len, metadata, now);
    if r is Ok {
        let s = v.serving->0;
        let t = w.serving->0;
        assert(t.queue.drop_last() =~= s.queue);
        assert(t.volume.current.pending.remove(h.path) =~= s.volume.current.pending.remove(h.path));
    }
}

/// What an accepted request leaves: it is queued last under its path and a task of its own, which is
/// staged, it is ready for the next batch as a removal or a write, and it touches no other change.
/// What is refused leaves the changes, the queue and the tasks as they were.
pub open spec fn taken_on(
    v: ServiceView,
    w: ServiceView,
    r: Result<u64, ServiceErrorView>,
    p: Seq<char>,
    delete: bool,
) -> bool {
    let s = v.serving->0;
    let t = w.serving->0;
    let u = t.queue.last();
    let e = t.volume.current.pending[p];
    &&& r is Ok ==> {
        &&& r->Ok_0 == v.next_task && w.next_task == v.next_task + 1
        &&& w.tasks == v.tasks.insert(v.next_task, TaskView::Staged)
        &&& w.serving is Some
        &&& t.queue.len() == s.queue.len() + 1 && t.queue.drop_last() == s.queue
        &&& u.path == p && u.task == v.next_task && u.delete == delete
        &&& u.rename_from is None
        &&& t.volume.current.pending.contains_key(p)
        &&& e.state == PendingState::Ready && e.removal == delete && e.session == v.next_task
        &&& t.admitted == s.admitted + 1
        &&& only_this_change(s.volume, t.volume, p)
        &&& t.recent == s.recent
        &&& !s.draining && s.switch is None
        &&& quiet(s, p)
    }
    &&& r is Err ==> {
        &&& w.tasks == v.tasks && w.next_task == v.next_task
        &&& v.serving is Some ==> w.serving is Some && t.queue == s.queue && t.admitted
            == s.admitted && t.recent == s.recent && t.volume.current.committed
            == s.volume.current.committed
    }
}

proof fn lemma_quiet(s: ServingView, p: Seq<char>)
    requires
        !s.busy(p),
    ensures
        quiet(s, p),
        !s.volume.current.pending.contains_key(p),
{
    assert forall|q: Seq<char>| #[trigger] s.volume.current.pending.contains_key(q) implies q != p
        && !paths::below(q, p) && !paths::below(p, q) by {
        assert(!paths::related(q, p));
    }
    if s.volume.current.pending.contains_key(p) {
        assert(paths::related(p, p));
    }
}

/// A removal that a client asks for is taken on just of a file that is there, with nothing below it
/// and no file above it; one that moves a tombstone just of a path of which the tape says nothing.
/// It is queued as a removal of that kind of node, without content.
pub proof fn law_removal_is_queued(
    v: ServiceView,
    path: Seq<char>,
    must_exist: bool,
    directory: bool,
    seen: u64,
    live: Nodes,
    now: u64,
)
    requires
        v.wf(),
        v.room(2),
        v.serving is Some ==> v.serving->0.near(paths::normal(path), live).dom().finite(),
    ensures
        ({
            let (w, r) = v.removed(path, must_exist, directory, seen, live, now);
            let p = paths::normal(path);
            let s = v.serving->0;
            let near = s.near(p, live);
            let u = w.serving->0.queue.last();
            &&& taken_on(v, w, r, p, true)
            &&& r is Ok ==> {
                &&& u.directory == directory && u.symlink_target is None && u.xattr_change is None
                &&& u.len == 0
                &&& must_exist ==> near.contains_key(p) && !near[p] && open_to_files(near, p)
                &&& !must_exist ==> !s.recent.contains_key(p)
                &&& seen == s.serial
            }
            &&& paths::good_path(path) && v.serving is Some && must_exist && seen == s.serial
                && !s.draining && s.switch is None && quiet(s, p) && near.contains_key(p)
                && !near[p] && open_to_files(near, p) && s.file_count() + s.admitted
                < s.limits.file_limit && s.volume.current.capability.writable ==> r is Ok
        }),
{
    let (w, r) = v.removed(path, must_exist, directory, seen, live, now);
    let p = paths::normal(path);
    if v.serving is Some {
        let s = v.serving->0;
        let near = s.near(p, live);
        lemma_file_refusal(s, p, near);
        if !s.busy(p) {
            lemma_quiet(s, p);
        }
        if r is Ok {
            let t = w.serving->0;
            assert(t.queue.drop_last() =~= s.queue);
            assert(t.volume.current.pending.remove(p) =~= s.volume.current.pending.remove(p));
        }
        if quiet(s, p) && s.volume.current.pending.contains_key(p) {
            assert(false);
        }
    }
}

/// A directory or a link that is made is queued as such: with its target, and with the metadata that
/// came with it. It is made just where nothing is and its parent is a live directory, or, when it
/// is moved here, where the tape says nothing of the path. A directory is removed just where it is
/// there and empty.
pub proof fn law_node_change_is_queued(
    v: ServiceView,
    path: Seq<char>,
    remove: bool,
    metadata: Option<FileMetadataView>,
    link: Option<Seq<char>>,
    seen: u64,
    live: Nodes,
    now: u64,
)
    requires
        v.wf(),
        v.room(2),
    ensures
        ({
            let (w, r) = v.node_changed(path, remove, metadata, link, seen, live, now);
            let p = paths::normal(path);
            let parent = paths::parent_path(p);
            let s = v.serving->0;
            let near = s.near(p, live);
            let u = w.serving->0.queue.last();
            &&& taken_on(v, w, r, p, remove)
            &&& r is Ok ==> {
                &&& u.symlink_target == link && u.directory == (link is None)
                &&& u.metadata == metadata && u.xattr_change is None && u.len == 0
                &&& remove && metadata is None ==> near.contains_key(p) && near[p]
                &&& remove || metadata is None ==> forall|q: Seq<char>| #[trigger]
                    near.contains_key(q) ==> !paths::below(q, p)
                &&& !remove && metadata is None ==> !near.contains_key(p) && (parent.len() > 0 ==> (
                near.contains_key(parent) && near[parent]))
                &&& metadata is Some ==> !s.recent.contains_key(p)
                &&& seen == s.serial
            }
        }),
{
    let (w, r) = v.node_changed(path, remove, metadata, link, seen, live, now);
    let p = paths::normal(path);
    if r is Ok {
        let s = v.serving->0;
        let t = w.serving->0;
        lemma_quiet(s, p);
        assert(t.queue.drop_last() =~= s.queue);
        assert(t.volume.current.pending.remove(p) =~= s.volume.current.pending.remove(p));
    }
}

/// An attribute change that is taken on is of a node that is on the served tape. It is queued with
/// the name under which the attribute is kept and the encoded value, or none where it is removed;
/// the node keeps its length and its kind.
pub proof fn law_attribute_change_is_queued(
    v: ServiceView,
    path: Seq<char>,
    name: Seq<char>,
    value: Option<Seq<u8>>,
    flags: u32,
    seen: u64,
    live: Nodes,
    now: u64,
)
    requires
        v.wf(),
        v.room(3),
    ensures
        ({
            let (w, r) = v.xattr_changed(path, name, value, flags, seen, live, now);
            let p = paths::normal(path);
            let s = v.serving->0;
            let near = s.near(p, live);
            let u = w.serving->0.queue.last();
            let st = s.recent[p];
            let kept = (u.xattr_change->0).0;
            &&& taken_on(v, w, r, p, false)
            &&& r is Ok ==> {
                &&& near.contains_key(p)
                &&& s.recent.contains_key(p) && !st.deleted && st.barcode == s.tape.barcode
                &&& u.len == st.len && u.directory == near[p]
                &&& u.symlink_target is None && u.metadata is None
                &&& u.xattr_change is Some
                &&& (u.xattr_change->0).1 == (match value {
                    Some(b) => Some(
                        XattrView { key: kept, value: encoding::base64_text(b), base64: true },
                    ),
                    None => None,
                })
                &&& Ok::<Seq<char>, ServiceErrorView>(kept) == paths::xattr_key(name) || kept
                    == name
                &&& w.serving->0.volume.current.pending[p].staged_len == st.len
                &&& value matches Some(b) ==> b.len() <= 65536
            }
        }),
{
    let (w, r) = v.xattr_changed(path, name, value, flags, seen, live, now);
    let p = paths::normal(path);
    if r is Ok {
        let s = v.serving->0;
        let t = w.serving->0;
        lemma_quiet(s, p);
        assert(t.queue.drop_last() =~= s.queue);
        assert(t.volume.current.pending.remove(p) =~= s.volume.current.pending.remove(p));
        let key = paths::xattr_key(name)->Ok_0;
        lemma_existing_key(s.recent[p].metadata.list_in("xattrs"@)->0, key, name);
    }
}

proof fn lemma_existing_key(
    attrs: Seq<crate::json::JsonView>,
    key: Seq<char>,
    name: Seq<char>,
)
    ensures
        files::existing_key(attrs, key, name) matches Some(k) ==> k == key || k == name,
        files::existing_key(attrs, key, name) is Some <==> exists|i: int|
            0 <= i < attrs.len() && ((#[trigger] attrs[i]).text_in("key"@) == Some(key)
                || attrs[i].text_in("key"@) == Some(name)),
    decreases attrs.len(),
{
    if attrs.len() > 0 {
        let rest = attrs.drop_first();
        lemma_existing_key(rest, key, name);
        if exists|i: int|
            0 <= i < rest.len() && ((#[trigger] rest[i]).text_in("key"@) == Some(key)
                || rest[i].text_in("key"@) == Some(name)) {
            let i = choose|i: int|
                0 <= i < rest.len() && ((#[trigger] rest[i]).text_in("key"@) == Some(key)
                    || rest[i].text_in("key"@) == Some(name));
            assert(attrs[i + 1] == rest[i]);
        }
        if exists|i: int|
            0 <= i < attrs.len() && ((#[trigger] attrs[i]).text_in("key"@) == Some(key)
                || attrs[i].text_in("key"@) == Some(name)) {
            let i = choose|i: int|
                0 <= i < attrs.len() && ((#[trigger] attrs[i]).text_in("key"@) == Some(key)
                    || attrs[i].text_in("key"@) == Some(name));
            if i > 0 {
                assert(rest[i - 1] == attrs[i]);
            }
        }
    }
}

/// An attribute is set with the flag that it must be new just where the node has none of that name,
/// and with the flag that it must be there, or removed, just where it has one.
pub proof fn law_attribute_flags_are_kept(
    s: ServingView,
    path: Seq<char>,
    name: Seq<char>,
    key: Seq<char>,
    keeps: bool,
    flags: u32,
    near: Nodes,
)
    ensures
        s.xattr_target(path, name, key, keeps, flags, near) is Ok ==> {
            let attrs = s.recent[path].metadata.list_in("xattrs"@)->0;
            let there = exists|i: int|
                0 <= i < attrs.len() && ((#[trigger] attrs[i]).text_in("key"@) == Some(key)
                    || attrs[i].text_in("key"@) == Some(name));
            &&& flags == 1 ==> !there
            &&& flags == 2 || !keeps ==> there
        },
{
    let attrs = s.recent[path].metadata.list_in("xattrs"@)->0;
    lemma_existing_key(attrs, key, name);
}

/// An upload that is given up leaves nothing of its change where nothing of it is committed and it
/// is still open, gives back what it reserved, and touches no other change.
pub proof fn law_aborted_upload_is_gone(v: ServiceView, h: HandleView)
    requires
        v.serving is Some,
        v.serving->0.round == h.round,
        v.serving->0.volume.current.pending.contains_key(h.path),
        v.serving->0.volume.current.pending[h.path].session == h.task,
        v.serving->0.volume.current.pending[h.path].state == PendingState::InProgress,
        v.serving->0.volume.current.pending[h.path].committed_prefix == 0,
        v.serving->0.volume.current.active(h.task),
        v.serving->0.volume.current.sessions[h.task].refs == 0,
        v.serving->0.volume.current.commit_slot is None,
    ensures
        ({
            let w = v.aborted(h);
            let a = v.serving->0.volume.current;
            let b = w.serving->0.volume.current;
            &&& w.serving is Some
            &&& !b.pending.contains_key(h.path)
            &&& !b.active(h.task)
            &&& forall|p: Seq<char>| #[trigger]
                a.pending.contains_key(p) && a.pending[p].session != h.task
                    ==> b.pending.contains_key(p) && b.pending[p] == a.pending[p]
            &&& forall|id: u64| #[trigger]
                a.ledger.reservations.contains_key(id) ==> b.ledger.reservations.contains_key(id)
                    && (b.ledger.reservations[id].released <==> a.ledger.reservations[id].released
                    || a.ledger.reservations[id].session == h.task)
            &&& b.committed == a.committed
            &&& w.tasks == v.tasks
            &&& w.serving->0.queue == v.serving->0.queue
        }),
{
}

/// What the service tells of a path: what the served tape says of it counts first, even that it was
/// deleted; where the tape says nothing, the row of the directory counts.
pub proof fn law_what_is_told_of_a_path(
    v: ServiceView,
    path: Seq<char>,
    row: Option<StatView>,
)
    requires
        paths::good_path(path),
    ensures
        ({
            let p = paths::normal(path);
            let s = v.serving->0;
            let told = v.stat(path, row);
            let found = v.lookup(path, row);
            let round = if v.serving is Some {
                s.round
            } else {
                (v.read_only->0).0
            };
            &&& v.serving is None && v.read_only is None ==> told is Err && found is Err
            &&& v.serving is Some && s.recent.contains_key(p) ==> {
                &&& found == Ok::<Option<StatView>, ServiceErrorView>(Some(s.recent[p]))
                &&& told == Ok::<Option<StatView>, ServiceErrorView>(if s.recent[p].deleted {
                    None
                } else {
                    Some(s.recent[p])
                })
            }
            &&& (v.serving is Some && !s.recent.contains_key(p)) || (v.serving is None
                && v.read_only is Some) ==> {
                &&& found is Ok && told is Ok
                &&& found->Ok_0 is Some <==> row is Some
                &&& row is Some ==> found->Ok_0 == Some(StatView { round, ..row->0 })
                &&& told->Ok_0 == (if row is Some && !row->0.deleted {
                    found->Ok_0
                } else {
                    None
                })
            }
        }),
{
}

} // verus!
