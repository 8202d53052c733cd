//! What a client sends, and how it reads the head of an answer.
use vstd::prelude::*;

use crate::daemon::request;
use crate::text;
use crate::url;

verus! {

/// A path without slashes at its start.
pub open spec fn relative(path: Seq<char>) -> Seq<char> {
    text::trim_start(path, |c: char| c == '/')
}

fn strip_slashes(path: &str) -> (r: String)
    ensures
        r@ == relative(path@),
{
    let v = text::chars(path);
    let n = v.len();
    let ghost f = |c: char| c == '/';
    let mut i: usize = 0;
    assert(path@.skip(0) =~= path@);
    while i < n && v[i] == '/'
        invariant
            i <= n == v@.len(),
            v@ == path@,
            f == (|c: char| c == '/'),
            text::trim_start(path@, f) == text::trim_start(path@.skip(i as int), f),
        decreases n - i,
    {
        let ghost rest = path@.skip(i as int);
        assert(rest[0] == path@[i as int]);
        assert(rest.drop_first() =~= path@.skip(i + 1));
        i += 1;
    }
    proof {
        let rest = path@.skip(i as int);
        if i < n {
            assert(rest[0] == path@[i as int]);
        }
    }
    let r = text::text_of(v.as_slice(), i, n);
    assert(r@ =~= path@.skip(i as int));
    r
}

/// The route to the state of a path.
pub fn stat_route(path: &str) -> (r: String)
    ensures
        r@ == "/stat/"@ + relative(path@),
{
    let p = strip_slashes(path);
    text::cat2("/stat/", p.as_str())
}

/// The route to the content of a file.
pub fn file_route(path: &str) -> (r: String)
    ensures
        r@ == "/files/"@ + relative(path@),
{
    let p = strip_slashes(path);
    text::cat2("/files/", p.as_str())
}

/// The route of an upload.
pub fn put_route(path: &str, wait: bool) -> (r: String)
    ensures
        r@ == "/files/"@ + relative(path@) + (if wait {
            "?wait=1"@
        } else {
            ""@
        }),
{
    let p = strip_slashes(path);
    text::cat3(
        "/files/",
        p.as_str(),
        if wait {
            "?wait=1"
        } else {
            ""
        },
    )
}

/// The route to the children of a directory.
pub fn dir_route(dir: &str, pending: bool) -> (r: String)
    ensures
        r@ == "/list?dir="@ + url::escaped(vstd::utf8::encode_utf8(dir@), false) + (if pending {
            "&pending=1"@
        } else {
            ""@
        }),
{
    let d = url::encode_query(dir);
    text::cat3(
        "/list?dir=",
        d.as_str(),
        if pending {
            "&pending=1"
        } else {
            ""
        },
    )
}

/// The route that creates a pool.
pub fn pool_route(name: &str, file_limit: Option<u64>) -> (r: String)
    ensures
        r@ == "/admin/pools/"@ + name@ + (match file_limit {
            Some(n) => "?file_limit="@ + text::decimal(n as nat),
            None => Seq::empty(),
        }),
{
    let mut t = text::cat2("/admin/pools/", name);
    match file_limit {
        Some(n) => {
            let q = text::cat2("?file_limit=", text::decimal_text(n).as_str());
            t.push_str(q.as_str());
        },
        None => {
            assert(t@ + Seq::<char>::empty() =~= t@);
        },
    }
    t
}

/// The route that assigns a tape to a pool, which is given by its name or its identifier.
pub fn assign_route(barcode: &str, pool: &str) -> (r: String)
    ensures
        r@ == "/admin/tapes/"@ + barcode@ + "?pool="@ + url::escaped(
            vstd::utf8::encode_utf8(pool@),
            false,
        ),
{
    let p = url::encode_query(pool);
    text::cat4("/admin/tapes/", barcode, "?pool=", p.as_str())
}

/// The route that takes a tape out of its pool.
pub fn unassign_route(barcode: &str) -> (r: String)
    ensures
        r@ == "/admin/tapes/"@ + barcode@,
{
    text::cat2("/admin/tapes/", barcode)
}

/// The route that has a tape reclaimed.
pub fn reclaim_route(barcode: &str) -> (r: String)
    ensures
        r@ == "/admin/tapes/"@ + barcode@ + "/reclaim"@,
{
    text::cat3("/admin/tapes/", barcode, "/reclaim")
}

/// The range header for `len` bytes from `offset` on.
pub fn range_header(offset: u64, len: u64) -> (r: String)
    requires
        len > 0,
        offset + len <= u64::MAX,
    ensures
        r@ == "bytes="@ + text::decimal(offset as nat) + "-"@ + text::decimal(
            (offset + len - 1) as nat,
        ),
{
    text::cat4(
        "bytes=",
        text::decimal_text(offset).as_str(),
        "-",
        text::decimal_text(offset + len - 1).as_str(),
    )
}

/// The last byte that is asked for where `len` bytes from `offset` on are wanted. Where none are
/// wanted it is the one at `offset`, so that the server tells whether the start is in the file.
pub open spec fn last_asked(offset: u64, len: u64) -> nat {
    if len == 0 {
        offset as nat
    } else {
        (offset + len - 1) as nat
    }
}

/// The header that asks for `len` bytes from `offset` on.
pub open spec fn range_asked(offset: u64, len: u64) -> Seq<char> {
    "bytes="@ + text::decimal(offset as nat) + "-"@ + text::decimal(last_asked(offset, len))
}

/// The header that asks for `len` bytes from `offset` on, or for the one at `offset` where none are
/// wanted.
pub fn plan_range(offset: u64, len: u64) -> (r: String)
    requires
        len > 0 ==> offset + len <= u64::MAX,
    ensures
        r@ == range_asked(offset, len),
{
    if len == 0 {
        text::cat4(
            "bytes=",
            text::decimal_text(offset).as_str(),
            "-",
            text::decimal_text(offset).as_str(),
        )
    } else {
        range_header(offset, len)
    }
}

/// From this size on a client asks before it sends content.
pub const ASK_FIRST: u64 = 65536;

/// A header that a client sends.
#[derive(Debug, Clone, PartialEq, Eq)]
pub struct Header {
    pub name: String,
    pub value: String,
}

/// The header lines.
pub open spec fn header_lines(h: Seq<Header>) -> Seq<char>
    decreases h.len(),
{
    if h.len() == 0 {
        Seq::empty()
    } else {
        header_lines(h.drop_last()) + h.last().name@ + ": "@ + h.last().value@ + "\r\n"@
    }
}

/// The head of a request; `length` is that of its content, where it has any.
pub open spec fn request_head(
    method: Seq<char>,
    path: Seq<char>,
    addr: Seq<char>,
    headers: Seq<Header>,
    length: Option<u64>,
) -> Seq<char> {
    method + " "@ + url::target(path) + " HTTP/1.1\r\nHost: "@ + addr
        + "\r\nConnection: close\r\n"@ + header_lines(headers) + (match length {
        Some(n) => "Content-Length: "@ + text::decimal(n as nat) + "\r\n"@ + (if n >= ASK_FIRST {
            "Expect: 100-continue\r\n"@
        } else {
            Seq::empty()
        }),
        None => Seq::empty(),
    }) + "\r\n"@
}

/// The head of a request, and whether the client asks before it sends the content.
pub fn write_head(
    method: &str,
    path: &str,
    addr: &str,
    headers: &Vec<Header>,
    length: Option<u64>,
) -> (r: (String, bool))
    ensures
        r.0@ == request_head(method@, path@, addr@, headers@, length),
        r.1 == (length is Some && length->0 >= ASK_FIRST),
{
    let target = url::encode_path(path);
    let mut t = text::cat4(method, " ", target.as_str(), " HTTP/1.1\r\nHost: ");
    t.push_str(addr);
    t.push_str("\r\nConnection: close\r\n");
    let ghost base = t@;
    let mut i: usize = 0;
    assert(t@ + Seq::<char>::empty() =~= t@);
    while i < headers.len()
        invariant
            i <= headers@.len(),
            t@ == base + header_lines(headers@.take(i as int)),
        decreases headers@.len() - i,
    {
        let ghost was = t@;
        let h = &headers[i];
        t.push_str(h.name.as_str());
        t.push_str(": ");
        t.push_str(h.value.as_str());
        t.push_str("\r\n");
        proof {
            assert(headers@.take(i + 1).drop_last() =~= headers@.take(i as int));
            let before = header_lines(headers@.take(i as int));
            assert(t@ =~= base + (before + h.name@ + ": "@ + h.value@ + "\r\n"@));
        }
        i += 1;
    }
    assert(headers@.take(i as int) =~= headers@);
    let ask = match length {
        Some(n) => {
            let ghost was = t@;
            let mut l = text::cat3(
                "Content-Length: ",
                text::decimal_text(n).as_str(),
                "\r\n",
            );
            let ghost line = l@;
            if n >= ASK_FIRST {
                l.push_str("Expect: 100-continue\r\n");
            } else {
                assert(line + Seq::<char>::empty() =~= line);
            }
            t.push_str(l.as_str());
            n >= ASK_FIRST
        },
        None => {
            assert(t@ + Seq::<char>::empty() =~= t@);
            false
        },
    };
    t.push_str("\r\n");
    (t, ask)
}

/// The status in the first line of an answer.
pub open spec fn status_in(line: Seq<char>) -> Option<u16> {
    let w = text::words(line);
    if w.len() >= 2 && text::parse_number(w[1], u16::MAX as nat) is Some {
        Some(text::parse_number(w[1], u16::MAX as nat)->0 as u16)
    } else {
        None
    }
}

/// The status in the first line of an answer; none where the connection was closed before.
pub fn read_status(line: &str) -> (r: Option<u16>)
    ensures
        r == status_in(line@),
{
    let w = text::split_words(line);
    assert(text::string_views(w@).len() == w@.len());
    if w.len() < 2 {
        return None;
    }
    assert(text::string_views(w@)[1] == w@[1]@);
    proof {
        text::lemma_number_bound(w@[1]@, u16::MAX as nat);
    }
    match text::number(w[1].as_str(), u16::MAX as u64) {
        Some(n) => Some(n as u16),
        None => None,
    }
}

/// Whether the server lets the client send its content.
pub fn is_go_ahead(line: &str) -> (r: bool)
    ensures
        r == (text::words(line@).len() >= 2 && text::words(line@)[1] == "100"@),
{
    let w = text::split_words(line);
    assert(text::string_views(w@).len() == w@.len());
    if w.len() < 2 {
        return false;
    }
    assert(text::string_views(w@)[1] == w@[1]@);
    text::same(w[1].as_str(), "100")
}

/// The length that the header lines of an answer tell, so far.
pub open spec fn length_after(known: Option<u64>, line: Seq<char>) -> Option<u64> {
    match request::cut(line, ':') {
        Some((k, v)) => if text::alike(k, "content-length"@) {
            request::number_in(v)
        } else {
            known
        },
        None => known,
    }
}

/// The length after one more header line.
pub fn take_header(known: Option<u64>, line: &str) -> (r: Option<u64>)
    ensures
        r == length_after(known, line@),
{
    match request::split_once(line, ':') {
        Some((k, v)) => {
            if text::same_but_case(k.as_str(), "content-length") {
                request::read_number(v.as_str())
            } else {
                known
            }
        },
        None => known,
    }
}

/// The range that a client asks for is what the server grants, cut at the end of the file.
pub proof fn law_range_request_is_understood(offset: u64, len: u64, total: u64)
    requires
        len > 0,
        offset + len <= u64::MAX,
        offset < total,
    ensures
        request::range_of(
            "bytes="@ + text::decimal(offset as nat) + "-"@ + text::decimal(
                (offset + len - 1) as nat,
            ),
            total,
        ) == Some(
            Ok::<(u64, u64), ()>(
                (
                    offset,
                    if offset + len < total {
                        (offset + len) as u64
                    } else {
                        total
                    },
                ),
            ),
        ),
{
    let a = text::decimal(offset as nat);
    let b = text::decimal((offset + len - 1) as nat);
    let s = "bytes="@ + a + "-"@ + b;
    reveal_strlit("bytes=");
    reveal_strlit("-");
    text::lemma_decimal(offset as nat, u64::MAX as nat);
    text::lemma_decimal((offset + len - 1) as nat, u64::MAX as nat);
    assert(s[0] == 'b');
    assert(s.last() == b.last());
    text::lemma_stripped_whole(s);
    text::lemma_stripped_whole(a);
    text::lemma_stripped_whole(b);
    let rest = s.skip(6);
    assert(rest =~= a + "-"@ + b);
    assert(s.take(6) =~= "bytes="@);
    assert(!rest.contains(','));
    text::lemma_first(rest, '-');
    let at = text::first(rest, '-') as int;
    assert(rest[a.len() as int] == '-');
    assert(at == a.len()) by {
        if at < a.len() {
            assert(rest[at] == a[at]);
        }
    }
    assert(rest.take(at) =~= a);
    assert(rest.skip(at + 1) =~= b);
}

} // verus!
