//! What a client asks for: the request line, the headers, the routes and the ranges.
use vstd::prelude::*;

use crate::daemon::state::{Command, CommandView, DEFAULT_FILE_LIMIT};
use crate::text;
use crate::url;

verus! {

/// What stands before the first `c`, and what after it.
pub open spec fn cut(s: Seq<char>, c: char) -> Option<(Seq<char>, Seq<char>)> {
    let at = text::first(s, c) as int;
    if at < s.len() {
        Some((s.take(at), s.skip(at + 1)))
    } else {
        None
    }
}

/// What stands before the first `c`, and what after it.
pub fn split_once(s: &str, c: char) -> (r: Option<(String, String)>)
    ensures
        r is Some <==> cut(s@, c) is Some,
        r is Some ==> (r->0).0@ == (cut(s@, c)->0).0 && (r->0).1@ == (cut(s@, c)->0).1,
{
    let at = text::find(s, c);
    let v = text::chars(s);
    if at < v.len() {
        let a = text::text_of(v.as_slice(), 0, at);
        let b = text::text_of(v.as_slice(), at + 1, v.len());
        assert(a@ =~= s@.take(at as int));
        assert(b@ =~= s@.skip(at + 1));
        Some((a, b))
    } else {
        None
    }
}

/// The number that a text holds, with white space around it.
pub open spec fn number_in(s: Seq<char>) -> Option<u64> {
    match text::parse_number(text::stripped(s), u64::MAX as nat) {
        Some(n) => Some(n as u64),
        None => None,
    }
}

/// The number that a text holds, with white space around it.
pub fn read_number(s: &str) -> (r: Option<u64>)
    ensures
        r == number_in(s@),
{
    let t = text::strip(s);
    proof {
        text::lemma_number_bound(t@, u64::MAX as nat);
    }
    text::number(t.as_str(), u64::MAX)
}

/// The bytes that a range asks for, of `total`: from the first of them to the one after the last.
/// None where it is not understood, so that everything is sent; an error where there is no such
/// byte.
pub open spec fn range_of(v: Seq<char>, total: u64) -> Option<Result<(u64, u64), ()>> {
    let t = text::stripped(v);
    if !text::has_prefix(t, "bytes="@) || t.skip("bytes="@.len() as int).contains(',') {
        None
    } else {
        match cut(t.skip("bytes="@.len() as int), '-') {
            None => None,
            Some((a, b)) => if text::stripped(a).len() == 0 {
                match number_in(b) {
                    None => None,
                    Some(n) => if n == 0 {
                        Some(Err(()))
                    } else if n > total {
                        Some(Ok((0, total)))
                    } else {
                        Some(Ok(((total - n) as u64, total)))
                    },
                }
            } else {
                match number_in(a) {
                    None => None,
                    Some(start) => if text::stripped(b).len() == 0 {
                        if start < total {
                            Some(Ok((start, total)))
                        } else {
                            Some(Err(()))
                        }
                    } else {
                        match number_in(b) {
                            None => None,
                            Some(last) => if start < total && start <= last {
                                Some(
                                    Ok(
                                        (
                                            start,
                                            if last < total {
                                                (last + 1) as u64
                                            } else {
                                                total
                                            },
                                        ),
                                    ),
                                )
                            } else {
                                Some(Err(()))
                            },
                        }
                    },
                }
            },
        }
    }
}

/// The bytes that a range asks for, of `total`. None where it is not understood; an error where
/// there is no such byte.
pub fn parse_range(v: &str, total: u64) -> (r: Option<Result<(u64, u64), ()>>)
    ensures
        r == range_of(v@, total),
{
    let t = text::strip(v);
    if !text::starts_with(t.as_str(), "bytes=") {
        return None;
    }
    proof {
        reveal_strlit("bytes=");
    }
    let spec_text = text::skip_chars(t.as_str(), 6);
    if text::has_char(spec_text.as_str(), ',') {
        return None;
    }
    let (a, b) = match split_once(spec_text.as_str(), '-') {
        Some(x) => x,
        None => {
            return None;
        },
    };
    let first = text::strip(a.as_str());
    let last = text::strip(b.as_str());
    if text::chars(first.as_str()).len() == 0 {
        return match read_number(b.as_str()) {
            None => None,
            Some(n) => if n == 0 {
                Some(Err(()))
            } else {
                Some(Ok((total.saturating_sub(n), total)))
            },
        };
    }
    let start: u64 = match read_number(a.as_str()) {
        Some(n) => n,
        None => {
            return None;
        },
    };
    let end: u64 = if text::chars(last.as_str()).len() == 0 {
        total
    } else {
        match read_number(b.as_str()) {
            Some(n) => {
                let upto: u64 = n.saturating_add(1);
                if upto < total {
                    upto
                } else {
                    total
                }
            },
            None => {
                return None;
            },
        }
    };
    if start >= total || end <= start {
        return Some(Err(()));
    }
    Some(Ok((start, end)))
}

/// A range that is granted is not empty and lies within the file.
pub proof fn law_range_lies_within_the_file(v: Seq<char>, total: u64)
    requires
        total > 0,
    ensures
        range_of(v, total) matches Some(Ok((a, b))) ==> a < b <= total,
{
}

/// The value of the first parameter of this name in a list of parameters.
pub open spec fn first_value(params: Seq<Seq<char>>, key: Seq<char>) -> Option<Seq<char>>
    decreases params.len(),
{
    if params.len() == 0 {
        None
    } else {
        match cut(params[0], '=') {
            Some((k, v)) => if k == key {
                Some(v)
            } else {
                first_value(params.skip(1), key)
            },
            None => first_value(params.skip(1), key),
        }
    }
}

/// The value of a parameter in a query.
pub open spec fn param(query: Seq<char>, key: Seq<char>) -> Option<Seq<char>> {
    first_value(text::split(query, '&'), key)
}

/// The value of a parameter in a query.
pub fn query_param(query: &str, key: &str) -> (r: Option<String>)
    ensures
        r is Some <==> param(query@, key@) is Some,
        r is Some ==> r->0@ == param(query@, key@)->0,
{
    let parts = text::split_at_each(query, '&');
    let n = parts.len();
    let ghost all = text::views(parts@);
    let mut i: usize = 0;
    assert(all.skip(0) =~= all);
    while i < n
        invariant
            i <= n == parts@.len(),
            all == text::views(parts@),
            all == text::split(query@, '&'),
            first_value(all, key@) == first_value(all.skip(i as int), key@),
        decreases n - i,
    {
        assert(all.skip(i as int)[0] == parts@[i as int]@);
        assert(all.skip(i as int).skip(1) =~= all.skip(i + 1));
        match split_once(parts[i], '=') {
            Some((k, v)) => {
                if text::same(k.as_str(), key) {
                    return Some(v);
                }
            },
            None => {},
        }
        i += 1;
    }
    None
}

/// The query asks to wait for the outcome.
pub open spec fn waits(query: Seq<char>) -> bool {
    text::split(query, '&').contains("wait=1"@)
}

fn asks_to_wait(query: &str) -> (r: bool)
    ensures
        r == waits(query@),
{
    let parts = text::split_at_each(query, '&');
    let n = parts.len();
    let ghost all = text::views(parts@);
    let mut i: usize = 0;
    while i < n
        invariant
            i <= n == parts@.len(),
            all == text::views(parts@),
            all == text::split(query@, '&'),
            forall|j: int| 0 <= j < i ==> #[trigger] all[j] != "wait=1"@,
        decreases n - i,
    {
        if text::same(parts[i], "wait=1") {
            assert(all[i as int] == "wait=1"@);
            return true;
        }
        i += 1;
    }
    false
}

/// A request line, with its target taken apart.
#[derive(Debug, Clone, PartialEq, Eq)]
pub struct RequestLine {
    pub method: String,
    /// The path, with its escapes resolved.
    pub path: String,
    pub query: String,
    pub wait: bool,
}

/// The path and the query of a request target.
pub open spec fn target_parts(target: Seq<char>) -> (Seq<char>, Seq<char>) {
    match cut(target, '?') {
        Some((p, q)) => (p, q),
        None => (target, Seq::empty()),
    }
}

/// The request line, or none where it has no method and target.
pub fn read_line(line: &str) -> (r: Option<RequestLine>)
    ensures
        r is Some <==> text::words(line@).len() >= 2,
        r is Some ==> ({
            let w = text::words(line@);
            let (p, q) = target_parts(w[1]);
            &&& r->0.method@ == w[0]
            &&& r->0.path@ == text::lossy_text(url::decoded(vstd::utf8::encode_utf8(p)))
            &&& r->0.query@ == q
            &&& r->0.wait == waits(q)
        }),
{
    let w = text::split_words(line);
    assert(text::string_views(w@).len() == w@.len());
    if w.len() < 2 {
        return None;
    }
    assert(text::string_views(w@)[0] == w@[0]@);
    assert(text::string_views(w@)[1] == w@[1]@);
    let (p, q) = match split_once(w[1].as_str(), '?') {
        Some(x) => x,
        None => (w[1].clone(), String::new()),
    };
    assert(""@ =~= Seq::<char>::empty()) by {
        reveal_strlit("");
    }
    let wait = asks_to_wait(q.as_str());
    Some(
        RequestLine {
            method: w[0].clone(),
            path: url::percent_decode(p.as_str()),
            query: q,
            wait,
        },
    )
}

/// What the headers of a request say.
#[derive(Debug, Clone, PartialEq, Eq)]
pub struct Headers {
    pub content_length: Option<u64>,
    /// The client waits for a go-ahead before it sends the content.
    pub expects_continue: bool,
    /// Only to be created: refused where there is a committed version.
    pub create_only: bool,
    pub range: Option<String>,
}

#[verifier::ext_equal]
pub struct HeadersView {
    pub content_length: Option<u64>,
    pub expects_continue: bool,
    pub create_only: bool,
    pub range: Option<Seq<char>>,
}

impl View for Headers {
    type V = HeadersView;

    open spec fn view(&self) -> HeadersView {
        HeadersView {
            content_length: self.content_length,
            expects_continue: self.expects_continue,
            create_only: self.create_only,
            range: match self.range {
                Some(s) => Some(s@),
                None => None,
            },
        }
    }
}

/// The headers after one more line.
pub open spec fn with_header(h: HeadersView, line: Seq<char>) -> HeadersView {
    match cut(line, ':') {
        None => h,
        Some((k, v)) => HeadersView {
            content_length: if text::alike(k, "content-length"@) {
                number_in(v)
            } else {
                h.content_length
            },
            expects_continue: h.expects_continue || (text::alike(k, "expect"@) && text::alike(
                text::stripped(v),
                "100-continue"@,
            )),
            create_only: h.create_only || (text::alike(k, "if-none-match"@) && text::stripped(v)
                == "*"@),
            range: if text::alike(k, "range"@) {
                Some(text::stripped(v))
            } else {
                h.range
            },
        },
    }
}

impl Headers {
    pub fn new() -> (r: Self)
        ensures
            r@ == (HeadersView {
                content_length: None,
                expects_continue: false,
                create_only: false,
                range: None,
            }),
    {
        Headers { content_length: None, expects_continue: false, create_only: false, range: None }
    }

    /// Takes a header line.
    pub fn take(&mut self, line: &str)
        ensures
            final(self)@ == with_header(old(self)@, line@),
    {
        match split_once(line, ':') {
            None => {},
            Some((k, v)) => {
                if text::same_but_case(k.as_str(), "content-length") {
                    self.content_length = read_number(v.as_str());
                }
                let value = text::strip(v.as_str());
                if text::same_but_case(k.as_str(), "expect") && text::same_but_case(
                    value.as_str(),
                    "100-continue",
                ) {
                    self.expects_continue = true;
                }
                if text::same_but_case(k.as_str(), "if-none-match") && text::same(
                    value.as_str(),
                    "*",
                ) {
                    self.create_only = true;
                }
                if text::same_but_case(k.as_str(), "range") {
                    self.range = Some(value);
                }
            },
        }
    }
}

/// What a request asks for.
#[derive(Debug, Clone, PartialEq, Eq)]
pub enum Route {
    /// What this node says of the cluster.
    Cluster,
    /// The pools and their tapes.
    Pools,
    PoolCreate { name: String, file_limit: u64 },
    TapeReclaim { barcode: String },
    TapeAssign { barcode: String, pool: String },
    /// An assignment that names no pool.
    PoolMissing,
    TapeUnassign { barcode: String },
    /// The children of a directory.
    ListDir { dir: String, pending: bool },
    /// All committed files.
    List,
    Stat { path: String },
    Task { id: u64 },
    BadTask,
    Read { path: String },
    Put { path: String },
    Unknown,
}

#[verifier::ext_equal]
pub enum RouteView {
    Cluster,
    Pools,
    PoolCreate { name: Seq<char>, file_limit: u64 },
    TapeReclaim { barcode: Seq<char> },
    TapeAssign { barcode: Seq<char>, pool: Seq<char> },
    PoolMissing,
    TapeUnassign { barcode: Seq<char> },
    ListDir { dir: Seq<char>, pending: bool },
    List,
    Stat { path: Seq<char> },
    Task { id: u64 },
    BadTask,
    Read { path: Seq<char> },
    Put { path: Seq<char> },
    Unknown,
}

impl View for Route {
    type V = RouteView;

    open spec fn view(&self) -> RouteView {
        match *self {
            Route::Cluster => RouteView::Cluster,
            Route::Pools => RouteView::Pools,
            Route::PoolCreate { name, file_limit } => {
                RouteView::PoolCreate { name: name@, file_limit }
            },
            Route::TapeReclaim { barcode } => RouteView::TapeReclaim { barcode: barcode@ },
            Route::TapeAssign { barcode, pool } => {
                RouteView::TapeAssign { barcode: barcode@, pool: pool@ }
            },
            Route::PoolMissing => RouteView::PoolMissing,
            Route::TapeUnassign { barcode } => RouteView::TapeUnassign { barcode: barcode@ },
            Route::ListDir { dir, pending } => RouteView::ListDir { dir: dir@, pending },
            Route::List => RouteView::List,
            Route::Stat { path } => RouteView::Stat { path: path@ },
            Route::Task { id } => RouteView::Task { id },
            Route::BadTask => RouteView::BadTask,
            Route::Read { path } => RouteView::Read { path: path@ },
            Route::Put { path } => RouteView::Put { path: path@ },
            Route::Unknown => RouteView::Unknown,
        }
    }
}

/// A value in a query, with its escapes resolved.
pub open spec fn plain_value(v: Seq<char>) -> Seq<char> {
    text::lossy_text(url::decoded(vstd::utf8::encode_utf8(v)))
}

/// The file limit that a query names, or the usual one.
pub open spec fn limit_in(query: Seq<char>) -> u64 {
    match param(query, "file_limit"@) {
        Some(v) => match text::parse_number(v, u64::MAX as nat) {
            Some(n) => n as u64,
            None => DEFAULT_FILE_LIMIT,
        },
        None => DEFAULT_FILE_LIMIT,
    }
}

/// A request to reclaim a tape that names none: the barcode would have less than no character.
pub open spec fn nameless_reclaim(method: Seq<char>, path: Seq<char>) -> bool {
    method == "POST"@ && path == "/admin/tapes/reclaim"@
}

/// What a request asks for.
pub open spec fn route_of(method: Seq<char>, path: Seq<char>, query: Seq<char>) -> RouteView {
    if method == "GET"@ && path == "/cluster"@ {
        RouteView::Cluster
    } else if method == "GET"@ && path == "/admin/pools"@ {
        RouteView::Pools
    } else if method == "POST"@ && text::has_prefix(path, "/admin/pools/"@) {
        RouteView::PoolCreate { name: path.skip(13), file_limit: limit_in(query) }
    } else if method == "POST"@ && text::has_prefix(path, "/admin/tapes/"@) {
        if text::has_suffix(path, "/reclaim"@) {
            RouteView::TapeReclaim { barcode: path.subrange(13, path.len() - 8) }
        } else {
            match param(query, "pool"@) {
                Some(p) => RouteView::TapeAssign { barcode: path.skip(13), pool: plain_value(p) },
                None => RouteView::PoolMissing,
            }
        }
    } else if method == "DELETE"@ && text::has_prefix(path, "/admin/tapes/"@) {
        RouteView::TapeUnassign { barcode: path.skip(13) }
    } else if method == "GET"@ && path == "/list"@ {
        match param(query, "dir"@) {
            Some(d) => RouteView::ListDir {
                dir: plain_value(d),
                pending: param(query, "pending"@) == Some("1"@),
            },
            None => RouteView::List,
        }
    } else if method == "GET"@ && text::has_prefix(path, "/stat/"@) {
        RouteView::Stat { path: path.skip(5) }
    } else if method == "GET"@ && text::has_prefix(path, "/tasks/"@) {
        match text::parse_number(path.skip(7), u64::MAX as nat) {
            Some(n) => RouteView::Task { id: n as u64 },
            None => RouteView::BadTask,
        }
    } else if method == "GET"@ && text::has_prefix(path, "/files/"@) {
        RouteView::Read { path: path.skip(6) }
    } else if method == "PUT"@ && text::has_prefix(path, "/files/"@) {
        RouteView::Put { path: path.skip(6) }
    } else {
        RouteView::Unknown
    }
}

proof fn lemma_route_names()
    ensures
        "/admin/pools/"@.len() == 13,
        "/admin/tapes/"@.len() == 13,
        "/reclaim"@.len() == 8,
        "/admin/tapes/reclaim"@ == "/admin/tapes"@ + "/reclaim"@,
        "/admin/tapes"@.len() == 12,
        "/admin/tapes/"@ == "/admin/tapes"@ + "/"@,
        "/stat/"@.len() == 6,
        "/tasks/"@.len() == 7,
        "/files/"@.len() == 7,
{
    reveal_strlit("/admin/pools/");
    reveal_strlit("/admin/tapes/");
    reveal_strlit("/admin/tapes");
    reveal_strlit("/");
    reveal_strlit("/reclaim");
    reveal_strlit("/admin/tapes/reclaim");
    reveal_strlit("/stat/");
    reveal_strlit("/tasks/");
    reveal_strlit("/files/");
    assert("/admin/tapes/reclaim"@ =~= "/admin/tapes"@ + "/reclaim"@);
    assert("/admin/tapes/"@ =~= "/admin/tapes"@ + "/"@);
}

/// Only that request lacks room for a barcode.
proof fn lemma_reclaim_room(path: Seq<char>)
    requires
        text::has_prefix(path, "/admin/tapes/"@),
        text::has_suffix(path, "/reclaim"@),
        path != "/admin/tapes/reclaim"@,
    ensures
        path.len() >= 21,
{
    lemma_route_names();
    let p = "/admin/tapes/"@;
    let q = "/reclaim"@;
    reveal_strlit("/admin/tapes/");
    reveal_strlit("/reclaim");
    if path.len() < 21 {
        let at = path.len() - 8;
        assert(path.take(13)[12] == '/');
        assert(path.skip(at) == q);
        assert(q[0] == '/' && q[1] == 'r');
        let k = 12 - at;
        assert(q[k] == path[12]);
        assert(0 <= k < 8);
        assert(k == 0);
        assert(path =~= "/admin/tapes/reclaim"@) by {
            reveal_strlit("/admin/tapes/reclaim");
            assert forall|i: int| 0 <= i < 20 implies path[i] == "/admin/tapes/reclaim"@[i] by {
                if i < 13 {
                    assert(path.take(13)[i] == p[i]);
                } else {
                    assert(path.skip(12)[i - 12] == q[i - 12]);
                }
            }
        }
    }
}

fn limit_from(query: &str) -> (r: u64)
    ensures
        r == limit_in(query@),
{
    match query_param(query, "file_limit") {
        Some(v) => match text::number(v.as_str(), u64::MAX) {
            Some(n) => n,
            None => DEFAULT_FILE_LIMIT,
        },
        None => DEFAULT_FILE_LIMIT,
    }
}

fn list_route(query: &str) -> (r: Route)
    ensures
        r@ == (match param(query@, "dir"@) {
            Some(d) => RouteView::ListDir {
                dir: plain_value(d),
                pending: param(query@, "pending"@) == Some("1"@),
            },
            None => RouteView::List,
        }),
{
    match query_param(query, "dir") {
        Some(d) => {
            let pending = match query_param(query, "pending") {
                Some(v) => text::same(v.as_str(), "1"),
                None => false,
            };
            Route::ListDir { dir: url::percent_decode(d.as_str()), pending }
        },
        None => Route::List,
    }
}

fn tape_route(path: &str, query: &str) -> (r: Route)
    requires
        text::has_prefix(path@, "/admin/tapes/"@),
        path@ != "/admin/tapes/reclaim"@,
    ensures
        r@ == (if text::has_suffix(path@, "/reclaim"@) {
            RouteView::TapeReclaim { barcode: path@.subrange(13, path@.len() - 8) }
        } else {
            match param(query@, "pool"@) {
                Some(p) => RouteView::TapeAssign { barcode: path@.skip(13), pool: plain_value(p) },
                None => RouteView::PoolMissing,
            }
        }),
{
    proof {
        lemma_route_names();
    }
    if text::ends_with(path, "/reclaim") {
        proof {
            lemma_reclaim_room(path@);
        }
        let t = text::without_last(path, 8);
        let barcode = text::skip_chars(t.as_str(), 13);
        assert(barcode@ =~= path@.subrange(13, path@.len() - 8));
        Route::TapeReclaim { barcode }
    } else {
        match query_param(query, "pool") {
            Some(p) => Route::TapeAssign {
                barcode: text::skip_chars(path, 13),
                pool: url::percent_decode(p.as_str()),
            },
            None => Route::PoolMissing,
        }
    }
}

fn get_route(path: &str, query: &str) -> (r: Route)
    ensures
        r@ == route_of("GET"@, path@, query@),
{
    proof {
        lemma_route_names();
        reveal_strlit("GET");
        reveal_strlit("POST");
        reveal_strlit("PUT");
        reveal_strlit("DELETE");
        assert("GET"@.len() == 3 && "POST"@.len() == 4 && "DELETE"@.len() == 6);
        assert("GET"@[0] != "PUT"@[0]);
        text::lemma_number_bound(path@.skip(7), u64::MAX as nat);
    }
    if text::same(path, "/cluster") {
        Route::Cluster
    } else if text::same(path, "/admin/pools") {
        Route::Pools
    } else if text::same(path, "/list") {
        list_route(query)
    } else if text::starts_with(path, "/stat/") {
        Route::Stat { path: text::skip_chars(path, 5) }
    } else if text::starts_with(path, "/tasks/") {
        let id = text::skip_chars(path, 7);
        match text::number(id.as_str(), u64::MAX) {
            Some(n) => Route::Task { id: n },
            None => Route::BadTask,
        }
    } else if text::starts_with(path, "/files/") {
        Route::Read { path: text::skip_chars(path, 6) }
    } else {
        Route::Unknown
    }
}

/// What a request asks for.
pub fn route(method: &str, path: &str, query: &str) -> (r: Route)
    requires
        !nameless_reclaim(method@, path@),
    ensures
        r@ == route_of(method@, path@, query@),
{
    proof {
        lemma_route_names();
        reveal_strlit("GET");
        reveal_strlit("POST");
        reveal_strlit("PUT");
        reveal_strlit("DELETE");
        assert("GET"@.len() == 3 && "POST"@.len() == 4 && "DELETE"@.len() == 6);
        assert("GET"@[0] != "PUT"@[0]);
    }
    if text::same(method, "GET") {
        get_route(path, query)
    } else if text::same(method, "POST") {
        if text::starts_with(path, "/admin/pools/") {
            Route::PoolCreate { name: text::skip_chars(path, 13), file_limit: limit_from(query) }
        } else if text::starts_with(path, "/admin/tapes/") {
            tape_route(path, query)
        } else {
            Route::Unknown
        }
    } else if text::same(method, "DELETE") {
        if text::starts_with(path, "/admin/tapes/") {
            Route::TapeUnassign { barcode: text::skip_chars(path, 13) }
        } else {
            Route::Unknown
        }
    } else if text::same(method, "PUT") {
        if text::starts_with(path, "/files/") {
            Route::Put { path: text::skip_chars(path, 6) }
        } else {
            Route::Unknown
        }
    } else {
        Route::Unknown
    }
}

/// `uuid::Uuid::new_v4`, written out: a random identifier of 36 characters. Which one it is, is
/// left open.
#[verifier::external_body]
fn fresh_uuid() -> (r: String)
    ensures
        r@.len() == 36,
{
    uuid::Uuid::new_v4().to_string()
}

/// The command that a request puts into the log; a new pool gets this identifier.
pub open spec fn command_of(r: RouteView, uuid: Seq<char>) -> Option<CommandView> {
    match r {
        RouteView::PoolCreate { name, file_limit } => Some(
            CommandView::PoolCreate { uuid, name, file_limit },
        ),
        RouteView::TapeReclaim { barcode } => Some(CommandView::TapeReclaim { barcode }),
        RouteView::TapeAssign { barcode, pool } => Some(CommandView::TapeAssign { barcode, pool }),
        RouteView::TapeUnassign { barcode } => Some(CommandView::TapeUnassign { barcode }),
        _ => None,
    }
}

impl Route {
    /// The command that the request puts into the log; a new pool gets this identifier.
    pub fn command_with(&self, uuid: String) -> (r: Option<Command>)
        ensures
            r is Some <==> command_of(self@, uuid@) is Some,
            r is Some ==> r->0@ == command_of(self@, uuid@)->0,
    {
        match self {
            Route::PoolCreate { name, file_limit } => Some(
                Command::PoolCreate { uuid, name: name.clone(), file_limit: *file_limit },
            ),
            Route::TapeReclaim { barcode } => Some(
                Command::TapeReclaim { barcode: barcode.clone() },
            ),
            Route::TapeAssign { barcode, pool } => Some(
                Command::TapeAssign { barcode: barcode.clone(), pool: pool.clone() },
            ),
            Route::TapeUnassign { barcode } => Some(
                Command::TapeUnassign { barcode: barcode.clone() },
            ),
            _ => None,
        }
    }

    /// The command that the request puts into the log. A new pool gets a fresh identifier.
    pub fn command(&self) -> (r: Option<Command>)
        ensures
            exists|uuid: Seq<char>| #![trigger command_of(self@, uuid)]
                uuid.len() == 36 && match r {
                    Some(c) => command_of(self@, uuid) == Some(c@),
                    None => command_of(self@, uuid) is None,
                },
    {
        let uuid = fresh_uuid();
        let ghost u = uuid@;
        let r = self.command_with(uuid);
        assert(u.len() == 36 && match r {
            Some(c) => command_of(self@, u) == Some(c@),
            None => command_of(self@, u) is None,
        });
        r
    }
}

} // verus!
