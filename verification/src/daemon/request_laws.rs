//! How requests are understood.
use vstd::prelude::*;

use crate::daemon::request;
use crate::daemon::request::{HeadersView, RouteView};
use crate::daemon::state::CommandView;
use crate::text;

verus! {

proof fn lemma_range_parts(a: Seq<char>, b: Seq<char>)
    requires
        forall|i: int| 0 <= i < a.len() ==> '0' <= #[trigger] a[i] <= '9',
        forall|i: int| 0 <= i < b.len() ==> '0' <= #[trigger] b[i] <= '9',
    ensures
        ({
            let s = "bytes="@ + a + "-"@ + b;
            &&& text::stripped(s) == s
            &&& text::has_prefix(s, "bytes="@)
            &&& !s.skip("bytes="@.len() as int).contains(',')
            &&& request::cut(s.skip("bytes="@.len() as int), '-') == Some((a, b))
        }),
{
    let s = "bytes="@ + a + "-"@ + b;
    reveal_strlit("bytes=");
    reveal_strlit("-");
    assert(s[0] == 'b');
    assert(s.last() == (if b.len() > 0 {
        b.last()
    } else {
        '-'
    }));
    text::lemma_stripped_whole(s);
    let rest = s.skip(6);
    assert(rest =~= a + "-"@ + b);
    assert(s.take(6) =~= "bytes="@);
    assert(!rest.contains(',')) by {
        if rest.contains(',') {
            let i = choose|i: int| 0 <= i < rest.len() && rest[i] == ',';
            if i < a.len() {
                assert(rest[i] == a[i]);
            } else if i > a.len() {
                assert(rest[i] == b[i - a.len() - 1]);
            }
        }
    }
    text::lemma_first(rest, '-');
    let at = text::first(rest, '-') as int;
    assert(rest[a.len() as int] == '-');
    assert(at == a.len()) by {
        if at < a.len() {
            assert(rest[at] == a[at]);
        }
    }
    assert(rest.take(at) =~= a);
    assert(rest.skip(at + 1) =~= b);
}

proof fn lemma_number(n: u64)
    ensures
        ({
            let d = text::decimal(n as nat);
            &&& request::number_in(d) == Some(n)
            &&& text::stripped(d) == d && d.len() > 0
            &&& forall|i: int| 0 <= i < d.len() ==> '0' <= #[trigger] d[i] <= '9'
        }),
{
    text::lemma_decimal(n as nat, u64::MAX as nat);
    text::lemma_stripped_whole(text::decimal(n as nat));
}

/// A range from one byte to another gives just these bytes, cut at the end of the file; one that
/// begins behind the end, or ends before it begins, gives none.
pub proof fn law_closed_range(a: u64, b: u64, total: u64)
    ensures
        request::range_of(
            "bytes="@ + text::decimal(a as nat) + "-"@ + text::decimal(b as nat),
            total,
        ) == (if a < total && a <= b {
            Some(
                Ok::<(u64, u64), ()>(
                    (
                        a,
                        if b < total {
                            (b + 1) as u64
                        } else {
                            total
                        },
                    ),
                ),
            )
        } else {
            Some(Err(()))
        }),
{
    lemma_number(a);
    lemma_number(b);
    lemma_range_parts(text::decimal(a as nat), text::decimal(b as nat));
}

/// A range without an end gives everything from its first byte on.
pub proof fn law_open_range(a: u64, total: u64)
    ensures
        request::range_of("bytes="@ + text::decimal(a as nat) + "-"@ + Seq::<char>::empty(), total)
            == (if a < total {
            Some(Ok::<(u64, u64), ()>((a, total)))
        } else {
            Some(Err(()))
        }),
{
    lemma_number(a);
    lemma_range_parts(text::decimal(a as nat), Seq::empty());
    assert(text::stripped(Seq::<char>::empty()) =~= Seq::<char>::empty());
}

/// A range without a beginning gives that many bytes at the end, all where the file has no more.
pub proof fn law_suffix_range(n: u64, total: u64)
    ensures
        request::range_of("bytes="@ + Seq::<char>::empty() + "-"@ + text::decimal(n as nat), total)
            == (if n == 0 {
            Some(Err(()))
        } else {
            Some(
                Ok::<(u64, u64), ()>(
                    (
                        if n <= total {
                            (total - n) as u64
                        } else {
                            0
                        },
                        total,
                    ),
                ),
            )
        }),
{
    lemma_number(n);
    lemma_range_parts(Seq::empty(), text::decimal(n as nat));
    assert(text::stripped(Seq::<char>::empty()) =~= Seq::<char>::empty());
}

/// Cutting a text at a character gives what stands before it and after it, where it first occurs.
pub proof fn law_cut_is_at_the_first(s: Seq<char>, c: char)
    ensures
        match request::cut(s, c) {
            Some((a, b)) => s == a + seq![c] + b && !a.contains(c),
            None => !s.contains(c),
        },
{
    text::lemma_first(s, c);
    let at = text::first(s, c) as int;
    if at < s.len() {
        assert(s =~= s.take(at) + seq![c] + s.skip(at + 1));
        if s.take(at).contains(c) {
            let i = choose|i: int| 0 <= i < at && s.take(at)[i] == c;
            assert(s[i] == c);
        }
    }
}

/// The requests to administer pools and tapes reach what they name, and become the commands for it.
pub proof fn law_admin_requests_reach_their_target(
    name: Seq<char>,
    query: Seq<char>,
    uuid: Seq<char>,
)
    ensures
        request::route_of("GET"@, "/cluster"@, query) is Cluster,
        request::route_of("GET"@, "/admin/pools"@, query) is Pools,
        ({
            let r = request::route_of("POST"@, "/admin/pools/"@ + name, query);
            &&& r matches RouteView::PoolCreate { name: n, file_limit } && n == name && file_limit
                == request::limit_in(query)
            &&& request::command_of(r, uuid) == Some(
                CommandView::PoolCreate { uuid, name, file_limit: request::limit_in(query) },
            )
        }),
        ({
            let r = request::route_of("POST"@, "/admin/tapes/"@ + name + "/reclaim"@, query);
            &&& r == (RouteView::TapeReclaim { barcode: name })
            &&& request::command_of(r, uuid) == Some(CommandView::TapeReclaim { barcode: name })
        }),
        ({
            let r = request::route_of("DELETE"@, "/admin/tapes/"@ + name, query);
            &&& r == (RouteView::TapeUnassign { barcode: name })
            &&& request::command_of(r, uuid) == Some(CommandView::TapeUnassign { barcode: name })
        }),
{
    reveal_strlit("GET");
    reveal_strlit("POST");
    reveal_strlit("DELETE");
    reveal_strlit("/cluster");
    reveal_strlit("/admin/pools");
    reveal_strlit("/admin/pools/");
    reveal_strlit("/admin/tapes/");
    reveal_strlit("/reclaim");
    let p = "/admin/pools/"@ + name;
    assert("POST"@[0] == 'P' && "GET"@[0] == 'G' && "DELETE"@[0] == 'D');
    assert(p.take(13) =~= "/admin/pools/"@);
    assert(p.skip(13) =~= name);
    let t = "/admin/tapes/"@ + name;
    assert(t.take(13) =~= "/admin/tapes/"@);
    assert(t.skip(13) =~= name);
    let u = t + "/reclaim"@;
    assert(u.take(13) =~= "/admin/tapes/"@);
    assert("/admin/tapes/"@[7] == 't' && "/admin/pools/"@[7] == 'p');
    assert(u.take(13) != "/admin/pools/"@);
    assert(u.skip(u.len() - 8) =~= "/reclaim"@);
    assert(u.subrange(13, u.len() - 8) =~= name);
    assert("/cluster"@.len() != "/admin/pools"@.len());
}

/// Each header is read from the line that bears its name; a line of another name changes nothing.
pub proof fn law_headers_are_read(h: HeadersView, k: Seq<char>, v: Seq<char>)
    requires
        !k.contains(':'),
    ensures
        ({
            let w = request::with_header(h, k + ":"@ + v);
            let length = text::alike(k, "content-length"@);
            let range = text::alike(k, "range"@);
            &&& length ==> w.content_length == request::number_in(v)
            &&& !length ==> w.content_length == h.content_length
            &&& range ==> w.range == Some(text::stripped(v))
            &&& !range ==> w.range == h.range
            &&& w.create_only <==> h.create_only || (text::alike(k, "if-none-match"@)
                && text::stripped(v) == "*"@)
            &&& w.expects_continue <==> h.expects_continue || (text::alike(k, "expect"@)
                && text::alike(text::stripped(v), "100-continue"@))
        }),
{
    reveal_strlit(":");
    let line = k + ":"@ + v;
    text::lemma_first(line, ':');
    let at = text::first(line, ':') as int;
    assert(line[k.len() as int] == ':');
    assert(at == k.len()) by {
        if at < k.len() {
            assert(line[at] == k[at]);
            assert(k.contains(':'));
        }
    }
    assert(line.take(at) =~= k);
    assert(line.skip(at + 1) =~= v);
}

} // verus!
