//! What holds between a client and a server.
use vstd::prelude::*;

use crate::client::reply;
use crate::client::reply::{ClientErrorView, FileStatView};
use crate::client::wire;
use crate::daemon::files::{Flight, StatView};
use crate::daemon::http;
use crate::daemon::request;
use crate::daemon::request::RouteView;
use crate::text;
use crate::url;

verus! {

/// The committed version as a client sees it.
pub open spec fn told(s: StatView) -> FileStatView {
    FileStatView {
        length: s.len,
        generation: s.generation,
        round: s.round,
        barcode: s.barcode,
        sha256: s.sha256,
    }
}

proof fn lemma_stat_keys()
    ensures
        "length"@.len() == 6,
        "generation"@.len() == 10,
        "round"@.len() == 5,
        "barcode"@.len() == 7,
        "sha256"@.len() == 6,
        "path"@.len() == 4,
        "state"@.len() == 5,
        "committed"@.len() == 9,
        "current"@.len() == 7,
        "length"@ != "sha256"@,
        "round"@ != "state"@,
        "barcode"@ != "current"@,
        "committed"@ != "uploading"@,
        "committed"@ != "staged"@,
        "committed"@ != "deleting"@,
{
    reveal_strlit("length");
    reveal_strlit("generation");
    reveal_strlit("round");
    reveal_strlit("barcode");
    reveal_strlit("sha256");
    reveal_strlit("path");
    reveal_strlit("state");
    reveal_strlit("committed");
    reveal_strlit("current");
    reveal_strlit("uploading");
    reveal_strlit("staged");
    reveal_strlit("deleting");
    assert("length"@[0] != "sha256"@[0]);
    assert("round"@[0] != "state"@[0]);
    assert("barcode"@[0] != "current"@[0]);
    assert("committed"@[0] != "uploading"@[0]);
    assert("committed"@.len() != "staged"@.len());
    assert("committed"@.len() != "deleting"@.len());
}

/// A client reads of a path what the server has there: the committed version, whether or not a
/// new one is under way, and the state and the length of the new one.
pub proof fn law_client_sees_what_the_server_has(
    path: Seq<char>,
    committed: Option<StatView>,
    in_flight: Option<Flight>,
)
    requires
        committed is Some || in_flight is Some,
    ensures
        http::stat_doc(path, committed, in_flight).code == 200,
        ({
            let p = reply::path_in(http::stat_doc(path, committed, in_flight).body);
            &&& p.current == (match committed {
                Some(s) => Some(told(s)),
                None => None,
            })
            &&& p.state == (match in_flight {
                Some(f) => http::flight_name(f.kind),
                None => "committed"@,
            })
            &&& p.length == (match in_flight {
                Some(f) => f.len,
                None => committed->0.len,
            })
        }),
{
    lemma_stat_keys();
    let doc = http::stat_doc(path, committed, in_flight).body;
    let m = doc->Obj_0;
    match in_flight {
        None => {
            let s = committed->0;
            assert(doc.text_in("state"@) == Some("committed"@));
            assert(doc.num_in("length"@) == Some(s.len));
            assert(doc.num_in("generation"@) == Some(s.generation));
            assert(doc.num_in("round"@) == Some(s.round));
            assert(doc.text_in("barcode"@) == Some(s.barcode));
            assert(doc.text_in("sha256"@) == Some(s.sha256));
        },
        Some(f) => {
            assert(doc.text_in("state"@) == Some(http::flight_name(f.kind)));
            assert(http::flight_name(f.kind) != "committed"@);
            assert(doc.num_in("length"@) == Some(f.len));
            match committed {
                Some(s) => {
                    let c = doc.field("current"@)->0;
                    assert(c.num_in("length"@) == Some(s.len));
                    assert(c.num_in("generation"@) == Some(s.generation));
                    assert(c.num_in("round"@) == Some(s.round));
                    assert(c.text_in("barcode"@) == Some(s.barcode));
                    assert(c.text_in("sha256"@) == Some(s.sha256));
                },
                None => {
                    assert(doc.field("current"@) is None);
                },
            }
        },
    }
}

/// The routes that a client uses for a path lead to that path.
pub proof fn law_routes_reach_the_path(path: Seq<char>, query: Seq<char>)
    ensures
        request::route_of("GET"@, "/stat/"@ + wire::relative(path), query) == (RouteView::Stat {
            path: "/"@ + wire::relative(path),
        }),
        request::route_of("GET"@, "/files/"@ + wire::relative(path), query) == (RouteView::Read {
            path: "/"@ + wire::relative(path),
        }),
        request::route_of("PUT"@, "/files/"@ + wire::relative(path), query) == (RouteView::Put {
            path: "/"@ + wire::relative(path),
        }),
{
    let r = wire::relative(path);
    let s = "/stat/"@ + r;
    let f = "/files/"@ + r;
    reveal_strlit("/stat/");
    reveal_strlit("/files/");
    reveal_strlit("/");
    reveal_strlit("/cluster");
    reveal_strlit("/admin/pools");
    reveal_strlit("/list");
    reveal_strlit("/tasks/");
    reveal_strlit("GET");
    reveal_strlit("PUT");
    reveal_strlit("POST");
    reveal_strlit("DELETE");
    assert("GET"@[0] != "PUT"@[0]);
    assert("PUT"@.len() == 3 && "POST"@.len() == 4 && "DELETE"@.len() == 6 && "GET"@.len() == 3);
    assert(s[1] == 's' && f[1] == 'f');
    assert("/cluster"@[1] == 'c' && "/admin/pools"@[1] == 'a' && "/list"@[1] == 'l');
    assert(s.take(6) =~= "/stat/"@);
    assert(f.take(7) =~= "/files/"@);
    assert(f.take(6)[1] == 'f' && "/stat/"@[1] == 's');
    assert(f.take(7)[1] == 'f' && "/tasks/"@[1] == 't');
    assert(s.skip(5) =~= "/"@ + r);
    assert(f.skip(6) =~= "/"@ + r);
}

proof fn lemma_split_one(s: Seq<char>, c: char)
    requires
        !s.contains(c),
    ensures
        text::split(s, c) == seq![s],
    decreases s.len(),
{
    if s.len() > 0 {
        let t = s.drop_last();
        assert forall|i: int| 0 <= i < t.len() implies t[i] != c by {
            assert(s[i] != c);
        }
        assert(!t.contains(c));
        assert(s[s.len() - 1] != c);
        lemma_split_one(t, c);
        assert(t.push(s.last()) =~= s);
        assert(seq![t].drop_last().push(s) =~= seq![s]);
    } else {
        assert(s =~= Seq::<char>::empty());
    }
}

/// A query of one parameter with an encoded value is read as that parameter.
proof fn lemma_one_parameter(key: Seq<char>, v: Seq<char>)
    requires
        !key.contains('&'),
        !key.contains('='),
    ensures
        request::param(
            key + seq!['='] + url::escaped(vstd::utf8::encode_utf8(v), false),
            key,
        ) == Some(url::escaped(vstd::utf8::encode_utf8(v), false)),
{
    let e = url::escaped(vstd::utf8::encode_utf8(v), false);
    let q = key + seq!['='] + e;
    let n = key.len() as int;
    url::law_encoded_value_is_one_parameter(v);
    assert forall|i: int| 0 <= i < q.len() implies q[i] != '&' by {
        if i < n {
            assert(q[i] == key[i]);
            assert(key.contains(key[i]));
        } else if i > n {
            assert(q[i] == e[i - n - 1]);
            assert(e.contains(e[i - n - 1]));
        }
    }
    assert(!q.contains('&'));
    lemma_split_one(q, '&');
    text::lemma_first(q, '=');
    assert(q[n] == '=');
    assert forall|i: int| 0 <= i < n implies q[i] != '=' by {
        assert(q[i] == key[i]);
        assert(key.contains(key[i]));
    }
    assert(text::first(q, '=') == n);
    assert(q.take(n) =~= key);
    assert(q.skip(n + 1) =~= e);
    assert(seq![q][0] == q);
}

/// The pool that a client names, whatever its name holds, is the pool that the server assigns the
/// tape to: the command gets the text whose bytes are those of the name.
pub proof fn law_pool_reaches_the_server(barcode: Seq<char>, pool: Seq<char>)
    requires
        !text::has_suffix("/admin/tapes/"@ + barcode, "/reclaim"@),
    ensures
        ({
            let e = url::escaped(vstd::utf8::encode_utf8(pool), false);
            let b = vstd::utf8::encode_utf8(e);
            &&& request::route_of("POST"@, "/admin/tapes/"@ + barcode, "pool="@ + e) == (
            RouteView::TapeAssign { barcode, pool: text::lossy_text(url::decoded(b)) })
            &&& url::decoded(b) == vstd::utf8::encode_utf8(pool)
        }),
{
    let e = url::escaped(vstd::utf8::encode_utf8(pool), false);
    let p = "/admin/tapes/"@ + barcode;
    reveal_strlit("pool");
    reveal_strlit("pool=");
    reveal_strlit("/admin/tapes/");
    reveal_strlit("/admin/pools/");
    reveal_strlit("POST");
    reveal_strlit("GET");
    assert("pool="@ =~= "pool"@ + seq!['=']);
    lemma_one_parameter("pool"@, pool);
    url::law_percent_coding_round_trip(pool, false);
    assert(p.take(13) =~= "/admin/tapes/"@);
    assert(p.skip(13) =~= barcode);
    assert(p.take(13)[7] == 't' && "/admin/pools/"@[7] == 'p');
    assert("POST"@.len() == 4 && "GET"@.len() == 3);
}

/// What a client asks of a directory is what the server reads in the query.
pub proof fn law_directory_query_is_read_back(dir: Seq<char>)
    ensures
        request::param(
            "dir="@ + url::escaped(vstd::utf8::encode_utf8(dir), false),
            "dir"@,
        ) == Some(url::escaped(vstd::utf8::encode_utf8(dir), false)),
{
    reveal_strlit("dir=");
    reveal_strlit("dir");
    assert("dir="@ =~= "dir"@ + seq!['=']);
    lemma_one_parameter("dir"@, dir);
}

/// The range that a client asks for is the range that the server grants: from the start on, as far
/// as the file goes. A start that is not in the file is refused, also where nothing is wanted.
pub proof fn law_range_reaches_the_server(offset: u64, len: u64, total: u64)
    requires
        len > 0 ==> offset + len <= u64::MAX,
    ensures
        request::range_of(wire::range_asked(offset, len), total) == Some(
            if offset < total {
                Ok::<(u64, u64), ()>(
                    (
                        offset,
                        if wire::last_asked(offset, len) < total {
                            (wire::last_asked(offset, len) + 1) as u64
                        } else {
                            total
                        },
                    ),
                )
            } else {
                Err::<(u64, u64), ()>(())
            },
        ),
{
    let last = wire::last_asked(offset, len);
    let a = text::decimal(offset as nat);
    let b = text::decimal(last);
    let v = wire::range_asked(offset, len);
    let rest = a + "-"@ + b;
    reveal_strlit("bytes=");
    reveal_strlit("-");
    text::lemma_decimal(offset as nat, u64::MAX as nat);
    text::lemma_decimal(last, u64::MAX as nat);
    assert(v[0] == 'b');
    assert(v.last() == b[b.len() - 1]);
    text::lemma_stripped_whole(v);
    assert(v.take(6) =~= "bytes="@);
    assert(v.skip(6) =~= rest);
    assert(!rest.contains(',')) by {
        assert forall|i: int| 0 <= i < rest.len() implies rest[i] != ',' by {
            if i < a.len() {
                assert(rest[i] == a[i]);
            } else if i > a.len() {
                assert(rest[i] == b[i - a.len() - 1]);
            }
        }
    }
    text::lemma_first(rest, '-');
    assert(rest[a.len() as int] == '-');
    assert forall|i: int| 0 <= i < a.len() implies rest[i] != '-' by {
        assert(rest[i] == a[i]);
    }
    assert(text::first(rest, '-') == a.len());
    assert(rest.take(a.len() as int) =~= a);
    assert(rest.skip(a.len() as int + 1) =~= b);
    assert(a[a.len() - 1] == a.last());
    text::lemma_stripped_whole(a);
    text::lemma_stripped_whole(b);
}

/// A client that asks for a range of a file gets that part of it, whether the server knows ranges
/// or sends the whole file; past its end both are refused alike.
pub proof fn law_range_read_is_the_part(content: Seq<u8>, offset: u64, len: u64)
    requires
        len > 0 ==> offset + len <= u64::MAX,
        content.len() <= u64::MAX,
    ensures
        match request::range_of(wire::range_asked(offset, len), content.len() as u64) {
            Some(Ok((start, end))) => {
                &&& offset < content.len()
                &&& reply::range_read(
                    206,
                    content.subrange(start as int, end as int),
                    offset,
                    len,
                ) == Ok::<Seq<u8>, ClientErrorView>(reply::part(content, offset, len))
                &&& reply::range_read(200, content, offset, len) == Ok::<Seq<u8>, ClientErrorView>(
                    reply::part(content, offset, len),
                )
            },
            Some(Err(_)) => {
                &&& offset >= content.len()
                &&& reply::range_read(200, content, offset, len) == Err::<Seq<u8>, ClientErrorView>(
                    ClientErrorView::Rejected { status: 416, body: Seq::empty() },
                )
            },
            None => false,
        },
{
    law_range_reaches_the_server(offset, len, content.len() as u64);
    if offset < content.len() {
        let last = wire::last_asked(offset, len);
        let end = if last < content.len() {
            last + 1
        } else {
            content.len()
        };
        if len == 0 {
            assert(reply::part(content, offset, len) =~= Seq::<u8>::empty());
        } else {
            assert(content.subrange(offset as int, end as int) =~= reply::part(
                content,
                offset,
                len,
            ));
        }
    }
}

} // verus!
