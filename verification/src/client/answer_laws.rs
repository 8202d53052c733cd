//! What a client makes of the answers of a server, and which node it asks.
use vstd::prelude::*;

use crate::client::reply;
use crate::client::reply::{ClientErrorView, PathStatView};
use crate::client::search;
use crate::client::search::ClientView;
use crate::client::upload;
use crate::client::upload::{PutView, StepView};
use crate::daemon::directory::PoolRowView;
use crate::daemon::files::{DirEntry, TaskView};
use crate::daemon::http;
use crate::daemon::http::Live;
use crate::daemon::paths::ServiceErrorView;
use crate::daemon::status;
use crate::daemon::status::TapeRowView;
use crate::json::JsonView;
use crate::strmap;

verus! {

/// The entry of a directory that a client reads is the one that the server wrote: its name, whether
/// it is a directory, its state and both lengths.
pub proof fn law_entry_is_read_back(name: Seq<char>, e: DirEntry)
    ensures
        ({
            let i = reply::item_in(http::entry_doc(name, e));
            &&& i.name == name
            &&& i.is_dir <==> e is Dir
            &&& e matches DirEntry::File { committed, in_flight } ==> {
                &&& i.committed_length == committed
                &&& i.staged_length == (match in_flight {
                    Some(f) => Some(f.len),
                    None => None,
                })
                &&& i.state == (match in_flight {
                    Some(f) => http::flight_name(f.kind),
                    None => "committed"@,
                })
            }
        }),
{
    reveal_strlit("name");
    reveal_strlit("type");
    reveal_strlit("state");
    reveal_strlit("committed_length");
    reveal_strlit("staged_length");
    reveal_strlit("dir");
    reveal_strlit("file");
    assert("name"@[0] == 'n' && "type"@[0] == 't');
    assert("name"@.len() == 4 && "state"@.len() == 5 && "committed_length"@.len() == 16
        && "staged_length"@.len() == 13);
    let j = http::entry_doc(name, e);
    assert(j.text_in("name"@) == Some(name));
    match e {
        DirEntry::Dir => {
            assert(j.text_in("type"@) == Some("dir"@));
        },
        DirEntry::File { committed, in_flight } => {
            assert(j.text_in("type"@) == Some("file"@));
            assert("dir"@.len() != "file"@.len());
            assert(j.num_in("committed_length"@) == committed);
            match in_flight {
                Some(f) => {
                    assert(j.num_in("staged_length"@) == Some(f.len));
                    assert(j.text_in("state"@) == Some(http::flight_name(f.kind)));
                },
                None => {
                    assert(j.num_in("staged_length"@) is None);
                    assert(j.text_in("state"@) == Some("committed"@));
                },
            }
        },
    }
}

/// The listing of all files that a client reads is the one that the server wrote.
pub proof fn law_files_are_read_back(m: Map<Seq<char>, u64>)
    ensures
        http::files_doc(m).code == 200,
        reply::files_in(http::files_doc(m).body) == m,
{
    let body = http::files_doc(m).body;
    assert(reply::files_in(body) =~= m);
}

/// A directory is answered with an entry for each of its names, in their order.
pub proof fn law_directory_is_answered_whole(
    dir: Seq<char>,
    m: Map<Seq<char>, DirEntry>,
    k: Seq<char>,
)
    requires
        m.dom().finite(),
    ensures
        ({
            let a = http::dir_doc(dir, Some(m));
            let v = a.body.list_in("entries"@)->0;
            &&& a.code == 200
            &&& a.body.list_in("entries"@) is Some
            &&& v.len() == m.dom().len()
            &&& m.contains_key(k) ==> exists|i: int|
                0 <= i < v.len() && #[trigger] v[i] == http::entry_doc(k, m[k])
            &&& http::dir_doc(dir, None).code == 404
        }),
{
    reveal_strlit("dir");
    reveal_strlit("entries");
    assert("dir"@.len() != "entries"@.len());
    let keys = strmap::sorted_keys(m);
    strmap::lemma_sorted_keys_list(m);
    strmap::lemma_listing_finite(keys, m.dom());
    let v = keys.map_values(|x: Seq<char>| http::entry_doc(x, m[x]));
    let body = http::dir_doc(dir, Some(m)).body;
    assert(body.list_in("entries"@) == Some(v));
    if m.contains_key(k) {
        assert(keys.contains(k));
        let i = choose|i: int| 0 <= i < keys.len() && keys[i] == k;
        assert(v[i] == http::entry_doc(k, m[k]));
    }
}

/// What a client reads of a tape is what the server has of it, with its live files, and what a
/// reclamation would win back.
pub proof fn law_tape_is_read_back(
    barcode: Seq<char>,
    tapes: Map<Seq<char>, TapeRowView>,
    live: Map<Seq<char>, Live>,
)
    requires
        tapes.contains_key(barcode),
        live.contains_key(barcode),
    ensures
        ({
            let t = reply::tape_in(http::tape_detail(barcode, tapes, live));
            let r = tapes[barcode];
            &&& t.barcode == barcode && t.state == r.state && t.generation == r.generation
            &&& t.files == r.files && t.bytes_used == r.bytes_used
            &&& t.live_files == live[barcode].files && t.live_bytes == live[barcode].bytes
            &&& t.reclaimable == http::reclaimable(r, live[barcode].bytes)
        }),
{
    reveal_strlit("barcode");
    reveal_strlit("state");
    reveal_strlit("generation");
    reveal_strlit("files");
    reveal_strlit("bytes_used");
    reveal_strlit("bytes_written");
    reveal_strlit("live_files");
    reveal_strlit("live_bytes");
    reveal_strlit("reclaimable_bytes");
    assert("state"@[0] == 's' && "files"@[0] == 'f');
    assert("generation"@[0] == 'g' && "bytes_used"@[0] == 'b' && "live_files"@[0] == 'l'
        && "live_bytes"@[0] == 'l' && "live_files"@[5] == 'f' && "live_bytes"@[5] == 'b');
    assert("barcode"@.len() == 7 && "bytes_written"@.len() == 13 && "reclaimable_bytes"@.len()
        == 17);
    let j = http::tape_detail(barcode, tapes, live);
    assert(j.text_in("barcode"@) == Some(barcode));
    assert(j.text_in("state"@) == Some(tapes[barcode].state));
    assert(j.num_in("generation"@) == Some(tapes[barcode].generation));
    assert(j.num_in("files"@) == Some(tapes[barcode].files));
    assert(j.num_in("bytes_used"@) == Some(tapes[barcode].bytes_used));
    assert(j.num_in("live_files"@) == Some(live[barcode].files));
    assert(j.num_in("live_bytes"@) == Some(live[barcode].bytes));
    assert(j.num_in("reclaimable_bytes"@) == Some(
        http::reclaimable(tapes[barcode], live[barcode].bytes),
    ));
}

proof fn lemma_texts(v: Seq<Seq<char>>)
    ensures
        reply::texts_in(v.map_values(|s: Seq<char>| JsonView::Str(s))) == v,
    decreases v.len(),
{
    let f = |s: Seq<char>| JsonView::Str(s);
    if v.len() > 0 {
        lemma_texts(v.drop_last());
        assert(v.map_values(f).drop_last() =~= v.drop_last().map_values(f));
        assert(v.drop_last().push(v.last()) =~= v);
    } else {
        assert(v =~= Seq::empty());
    }
}

/// What a client reads of a pool is what the server has of it.
pub proof fn law_pool_is_read_back(
    p: PoolRowView,
    tapes: Map<Seq<char>, TapeRowView>,
    live: Map<Seq<char>, Live>,
)
    ensures
        ({
            let q = reply::pool_in(http::pool_detail(p, tapes, live));
            &&& q.uuid == p.uuid && q.name == p.name && q.file_limit == p.file_limit
            &&& q.tapes == p.tapes
            &&& q.tape_details.len() == p.tapes.len()
            &&& forall|i: int|
                0 <= i < p.tapes.len() ==> #[trigger] q.tape_details[i] == reply::tape_in(
                    http::tape_detail(p.tapes[i], tapes, live),
                )
        }),
{
    reveal_strlit("uuid");
    reveal_strlit("name");
    reveal_strlit("file_limit");
    reveal_strlit("tapes");
    reveal_strlit("tape_details");
    assert("uuid"@[0] == 'u' && "name"@[0] == 'n');
    assert("uuid"@.len() == 4 && "file_limit"@.len() == 10 && "tapes"@.len() == 5
        && "tape_details"@.len() == 12);
    let j = http::pool_detail(p, tapes, live);
    lemma_texts(p.tapes);
    assert(j.text_in("uuid"@) == Some(p.uuid));
    assert(j.text_in("name"@) == Some(p.name));
    assert(j.num_in("file_limit"@) == Some(p.file_limit));
    assert(j.list_in("tapes"@) == Some(p.tapes.map_values(|s: Seq<char>| JsonView::Str(s))));
    assert(j.list_in("tape_details"@) == Some(
        p.tapes.map_values(|b: Seq<char>| http::tape_detail(b, tapes, live)),
    ));
}

/// What a reclamation wins back and what is live make up what was written, or what the index has
/// where that is more; nothing is won where more is live.
pub proof fn law_reclaimable_and_live_make_the_written(t: TapeRowView, live_bytes: u64)
    ensures
        ({
            let r = http::reclaimable(t, live_bytes);
            let written = if t.bytes_written > t.bytes_used {
                t.bytes_written
            } else {
                t.bytes_used
            };
            &&& live_bytes <= written ==> r + live_bytes == written
            &&& live_bytes > written ==> r == 0
        }),
{
}

/// An upload whose task is committed succeeds at the client, with the generation of the commit; one
/// that failed is sent again, and of one whose fate is open the client asks.
pub proof fn law_task_reaches_the_client(
    p: PutView,
    id: u64,
    st: TaskView,
    said: Seq<char>,
)
    ensures
        ({
            let a = http::task_doc(id, st);
            let step = upload::after_answer(p, a.code, a.body, said, false);
            &&& st matches TaskView::Committed { generation } ==> (step matches StepView::Done(o)
                && o.committed && o.generation == generation && o.attempts == p.attempts)
            &&& st is Staged && !p.wait ==> (step matches StepView::Done(o) && !o.committed)
            &&& st is Failed ==> step is Again
            &&& st is Indeterminate ==> step is Ask
        }),
{
    reveal_strlit("task");
    reveal_strlit("status");
    reveal_strlit("generation");
    reveal_strlit("detail");
    reveal_strlit("failed");
    reveal_strlit("indeterminate");
    assert("task"@.len() == 4 && "generation"@.len() == 10);
    assert("status"@[0] == 's' && "detail"@[0] == 'd');
    assert("failed"@.len() != "indeterminate"@.len());
    let j = http::task_doc(id, st).body;
    match st {
        TaskView::Committed { generation } => {
            assert(j.num_in("generation"@) == Some(generation));
        },
        TaskView::Failed { reason } => {
            assert(j.text_in("status"@) == Some("failed"@));
        },
        TaskView::Indeterminate { reason } => {
            assert(j.text_in("status"@) == Some("indeterminate"@));
        },
        TaskView::Staged => {},
    }
}

/// A refusal because the path is there reaches the client as that, and every other as a rejection
/// with its status; a refusal that may pass is told as such, and only that.
pub proof fn law_refusal_reaches_the_client(
    p: PutView,
    e: ServiceErrorView,
    leader: u64,
    addrs: Map<u64, Seq<char>>,
    said: Seq<char>,
)
    requires
        !(e is Io),
    ensures
        ({
            let a = http::refused(e, leader, addrs);
            let step = upload::after_answer(p, a.code, a.body, said, false);
            &&& step == StepView::Fail(ClientErrorView::Exists(p.path)) <==> e is Exists
            &&& !(e is Exists) ==> step == StepView::Fail(
                ClientErrorView::Rejected { status: a.code, body: said },
            )
            &&& a.code == 503 <==> e is NotServing || e is SwitchingTape || e is NotWritable
            &&& a.code == 404 <==> e is NotFound || e is NoAttribute
            &&& a.code == 507 <==> e is NoTape || e is TooLarge || e is InsufficientCapacity
                || e is AttributeTooLarge
            &&& a.code == 400 <==> e is BadPath
        }),
{
}

/// A client that finds its upload by asking believes it committed just where the committed version
/// has its length and its hash, and takes the generation of that version; while another version is
/// under way it asks again.
pub proof fn law_upload_is_found_by_its_content(
    p: PutView,
    st: Option<PathStatView>,
    time_up: bool,
)
    ensures
        ({
            let step = upload::after_query(p, st, false, time_up);
            let waits = st is Some && st->0.state != "committed"@ && !time_up;
            let found = st is Some && st->0.current is Some && st->0.current->0.length == p.len
                && st->0.current->0.sha256 == p.digest;
            &&& step is AskAgain <==> waits
            &&& step is Done <==> !waits && found
            &&& step matches StepView::Done(o) ==> o.committed && o.resolved_by_query
                && o.generation == st->0.current->0.generation
            &&& step is Again <==> !waits && !found && !time_up
            &&& step is Fail <==> !waits && !found && time_up
        }),
{
}

proof fn lemma_others(v: Seq<Seq<char>>, a: Seq<char>, x: Seq<char>)
    ensures
        search::others(v, a).contains(x) <==> v.contains(x) && x != a,
    decreases v.len(),
{
    if v.len() > 0 {
        let rest = v.drop_last();
        let r = search::others(rest, a);
        let l = v.last();
        lemma_others(rest, a, x);
        assert(v[v.len() - 1] == l);
        assert(v.contains(x) <==> rest.contains(x) || x == l) by {
            if v.contains(x) && x != l {
                let i = choose|i: int| 0 <= i < v.len() && v[i] == x;
                assert(rest[i] == x);
            }
            if rest.contains(x) {
                let i = choose|i: int| 0 <= i < rest.len() && rest[i] == x;
                assert(v[i] == x);
            }
        }
        assert(r.push(l).contains(x) <==> r.contains(x) || x == l) by {
            assert(r.push(l)[r.len() as int] == l);
            if r.contains(x) {
                let i = choose|i: int| 0 <= i < r.len() && r[i] == x;
                assert(r.push(l)[i] == x);
            }
            if r.push(l).contains(x) && x != l {
                let i = choose|i: int| 0 <= i < r.push(l).len() && r.push(l)[i] == x;
                assert(r[i] == x);
            }
        }
    }
}

/// The node that served last is asked first, and besides it just the known ones; a node that turned
/// out not to serve is no longer taken for the one that does, and no other is forgotten.
pub proof fn law_last_server_is_asked_first(c: ClientView, x: Seq<char>)
    ensures
        c.leader matches Some(l) ==> c.order().len() > 0 && c.order()[0] == l,
        c.order().contains(x) <==> c.endpoints.contains(x) || c.leader == Some(x),
        c.without(x).leader != Some(x),
        c.leader != Some(x) ==> c.without(x) == c,
        c.without(x).endpoints == c.endpoints,
{
    match c.leader {
        None => {},
        Some(l) => {
            lemma_others(c.endpoints, l, x);
            let o = search::others(c.endpoints, l);
            let all = c.order();
            assert(all[0] == l);
            if o.contains(x) {
                let i = choose|i: int| 0 <= i < o.len() && o[i] == x;
                assert(all[i + 1] == x);
            }
            if all.contains(x) && x != l {
                let i = choose|i: int| 0 <= i < all.len() && all[i] == x;
                assert(o[i - 1] == x);
            }
            if c.endpoints.contains(x) && x == l {
                assert(all.contains(x));
            }
        },
    }
}

} // verus!
