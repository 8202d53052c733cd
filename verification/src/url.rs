//! Percent encoding of the paths and values in a request target.
use vstd::prelude::*;

use crate::text;

verus! {

/// The value of a hexadecimal digit.
pub open spec fn unhex(b: u8) -> Option<u8> {
    if 48 <= b <= 57 {
        Some((b - 48) as u8)
    } else if 65 <= b <= 70 {
        Some((b - 55) as u8)
    } else if 97 <= b <= 102 {
        Some((b - 87) as u8)
    } else {
        None
    }
}

/// The byte that two characters after a percent sign stand for: two digits, or a plus sign and
/// one.
pub open spec fn escape(a: u8, b: u8) -> Option<u8> {
    match unhex(b) {
        None => None,
        Some(low) => if a == 43 {
            Some(low)
        } else {
            match unhex(a) {
                Some(high) => Some((16 * high + low) as u8),
                None => None,
            }
        },
    }
}

/// The bytes with the escapes resolved. A percent sign that starts none stands for itself.
pub open spec fn decoded(b: Seq<u8>) -> Seq<u8>
    decreases b.len(),
{
    if b.len() == 0 {
        Seq::empty()
    } else if b[0] == 37 && b.len() > 2 && escape(b[1], b[2]) is Some {
        seq![escape(b[1], b[2])->0] + decoded(b.skip(3))
    } else {
        seq![b[0]] + decoded(b.skip(1))
    }
}

fn value_of(b: u8) -> (r: Option<u8>)
    ensures
        r == unhex(b),
{
    if 48 <= b && b <= 57 {
        Some(b - 48)
    } else if 65 <= b && b <= 70 {
        Some(b - 55)
    } else if 97 <= b && b <= 102 {
        Some(b - 87)
    } else {
        None
    }
}

fn escaped_byte(a: u8, b: u8) -> (r: Option<u8>)
    ensures
        r == escape(a, b),
{
    match value_of(b) {
        None => None,
        Some(low) => if a == 43 {
            Some(low)
        } else {
            match value_of(a) {
                Some(high) => Some(16 * high + low),
                None => None,
            }
        },
    }
}

/// The text with the escapes resolved, with replacement characters where that is no text.
pub fn percent_decode(s: &str) -> (r: String)
    ensures
        r@ == text::lossy_text(decoded(vstd::utf8::encode_utf8(s@))),
        vstd::utf8::valid_utf8(decoded(vstd::utf8::encode_utf8(s@))) ==> r@
            == vstd::utf8::decode_utf8(decoded(vstd::utf8::encode_utf8(s@))),
{
    let b = s.as_bytes();
    let n = b.len();
    let mut out: Vec<u8> = Vec::new();
    let mut i: usize = 0;
    assert(b@.skip(0) =~= b@);
    assert(out@ + decoded(b@) =~= decoded(b@));
    while i < n
        invariant
            i <= n == b@.len(),
            decoded(b@) == out@ + decoded(b@.skip(i as int)),
        decreases n - i,
    {
        let ghost rest = b@.skip(i as int);
        let ghost was = out@;
        let e = if b[i] == 37 && n - i > 2 {
            escaped_byte(b[i + 1], b[i + 2])
        } else {
            None
        };
        match e {
            Some(v) => {
                out.push(v);
                assert(rest.skip(3) =~= b@.skip(i + 3));
                i += 3;
            },
            None => {
                out.push(b[i]);
                assert(rest.skip(1) =~= b@.skip(i + 1));
                i += 1;
            },
        }
        assert(was + decoded(rest) =~= out@ + decoded(b@.skip(i as int)));
    }
    assert(out@ + decoded(b@.skip(i as int)) =~= out@);
    text::lossy(out.as_slice())
}

/// A byte that stands for itself in a request target; a slash does so in a path only.
pub open spec fn plain(b: u8, slash: bool) -> bool {
    65 <= b <= 90 || 97 <= b <= 122 || 48 <= b <= 57 || b == 45 || b == 95 || b == 46 || b == 126
        || (slash && b == 47)
}

/// The code of a hexadecimal digit in upper case.
pub open spec fn digit_code(d: u8) -> u8 {
    if d < 10 {
        (48 + d) as u8
    } else {
        (55 + d) as u8
    }
}

/// What stands for a byte in a request target.
pub open spec fn spelled(b: u8, slash: bool) -> Seq<char> {
    if plain(b, slash) {
        seq![b as char]
    } else {
        seq!['%', digit_code(b / 16) as char, digit_code(b % 16) as char]
    }
}

/// What stands for bytes in a request target.
pub open spec fn escaped(b: Seq<u8>, slash: bool) -> Seq<char>
    decreases b.len(),
{
    if b.len() == 0 {
        Seq::empty()
    } else {
        escaped(b.drop_last(), slash) + spelled(b.last(), slash)
    }
}

fn code_of(d: u8) -> (r: u8)
    requires
        d < 16,
    ensures
        r == digit_code(d),
{
    if d < 10 {
        48 + d
    } else {
        55 + d
    }
}

fn encode(s: &str, slash: bool) -> (r: String)
    ensures
        r@ == escaped(vstd::utf8::encode_utf8(s@), slash),
{
    let b = s.as_bytes();
    let n = b.len();
    let mut out: Vec<char> = Vec::new();
    let mut i: usize = 0;
    while i < n
        invariant
            i <= n == b@.len(),
            out@ == escaped(b@.take(i as int), slash),
        decreases n - i,
    {
        let x: u8 = b[i];
        let ghost was = out@;
        assert(b@.take(i + 1).drop_last() =~= b@.take(i as int));
        if (65 <= x && x <= 90) || (97 <= x && x <= 122) || (48 <= x && x <= 57) || x == 45 || x
            == 95 || x == 46 || x == 126 || (slash && x == 47) {
            out.push(x as char);
        } else {
            out.push('%');
            out.push(code_of(x / 16) as char);
            out.push(code_of(x % 16) as char);
        }
        assert(out@ =~= was + spelled(x, slash));
        i += 1;
    }
    assert(b@.take(i as int) =~= b@);
    let r = text::text_of(out.as_slice(), 0, out.len());
    assert(r@ =~= out@);
    r
}

/// The value of a query parameter in a request target.
pub fn encode_query(v: &str) -> (r: String)
    ensures
        r@ == escaped(vstd::utf8::encode_utf8(v@), false),
{
    encode(v, false)
}

/// A request target: what comes before the first question mark is encoded as a path, the rest is
/// a query and stays as it is.
pub open spec fn target(path: Seq<char>) -> Seq<char> {
    let at = text::first(path, '?');
    if at < path.len() {
        escaped(vstd::utf8::encode_utf8(path.take(at as int)), true) + path.skip(at as int)
    } else {
        escaped(vstd::utf8::encode_utf8(path), true)
    }
}

/// A request target with its path encoded.
pub fn encode_path(path: &str) -> (r: String)
    ensures
        r@ == target(path@),
{
    let v = text::chars(path);
    let at = text::find(path, '?');
    let head = text::text_of(v.as_slice(), 0, at);
    assert(head@ =~= path@.take(at as int));
    let tail = text::text_of(v.as_slice(), at, v.len());
    assert(tail@ =~= path@.skip(at as int));
    let e = encode(head.as_str(), true);
    let r = text::cat2(e.as_str(), tail.as_str());
    proof {
        if at == path@.len() {
            assert(path@.take(at as int) =~= path@);
            assert(e@ + tail@ =~= e@);
        }
    }
    r
}

proof fn lemma_spelled(b: u8, slash: bool)
    ensures
        ({
            let c = spelled(b, slash);
            &&& plain(b, slash) ==> c.len() == 1 && c[0] as u8 == b && b != 37 && b < 128
            &&& !plain(b, slash) ==> c.len() == 3 && c[0] as u8 == 37 && escape(
                c[1] as u8,
                c[2] as u8,
            ) == Some(b)
            &&& forall|i: int| 0 <= i < c.len() ==> (#[trigger] c[i]) as nat <= 127
        }),
{
    if plain(b, slash) {
        assert((b as char) as u8 == b) by {
            assert(b < 128);
        }
    } else {
        let h: u8 = b / 16;
        let l: u8 = b % 16;
        assert(h < 16 && l < 16 && 16 * h + l == b);
        assert((digit_code(h) as char) as u8 == digit_code(h));
        assert((digit_code(l) as char) as u8 == digit_code(l));
    }
}

/// Appending resolves separately, where what comes first is made of whole escapes.
proof fn lemma_decode(b: Seq<u8>, slash: bool, s: Seq<u8>, rest: Seq<u8>)
    requires
        s.len() == escaped(b, slash).len(),
        forall|i: int| 0 <= i < s.len() ==> #[trigger] s[i] == escaped(b, slash)[i] as u8,
    ensures
        decoded(s + rest) == b + decoded(rest),
    decreases b.len(),
{
    if b.len() == 0 {
        assert(s + rest =~= rest);
        assert(b + decoded(rest) =~= decoded(rest));
    } else {
        let init = b.drop_last();
        let e = escaped(init, slash);
        let c = spelled(b.last(), slash);
        let head = s.take(e.len() as int);
        let tail = s.skip(e.len() as int);
        lemma_spelled(b.last(), slash);
        assert forall|i: int| 0 <= i < head.len() implies #[trigger] head[i] == e[i] as u8 by {
            assert(s[i] == escaped(b, slash)[i] as u8);
        }
        lemma_decode(init, slash, head, tail + rest);
        assert(s + rest =~= head + (tail + rest));
        assert forall|i: int| 0 <= i < c.len() implies #[trigger] tail[i] == c[i] as u8 by {
            assert(s[e.len() + i] == escaped(b, slash)[e.len() + i] as u8);
        }
        let t = tail + rest;
        assert(tail[0] == c[0] as u8);
        if plain(b.last(), slash) {
            assert(t.skip(1) =~= rest);
            assert(decoded(t) == seq![b.last()] + decoded(rest));
        } else {
            assert(tail[1] == c[1] as u8 && tail[2] == c[2] as u8);
            assert(t.skip(3) =~= rest);
            assert(decoded(t) == seq![b.last()] + decoded(rest));
        }
        assert(init + (seq![b.last()] + decoded(rest)) =~= b + decoded(rest));
    }
}

proof fn lemma_escaped_is_ascii(b: Seq<u8>, slash: bool)
    ensures
        vstd::utf8::is_ascii_chars(escaped(b, slash)),
    decreases b.len(),
{
    if b.len() > 0 {
        lemma_escaped_is_ascii(b.drop_last(), slash);
        lemma_spelled(b.last(), slash);
    }
}

/// What is encoded for a request target is decoded to the same text, as a value and as a path.
pub proof fn law_percent_coding_round_trip(v: Seq<char>, slash: bool)
    ensures
        decoded(
            vstd::utf8::encode_utf8(escaped(vstd::utf8::encode_utf8(v), slash)),
        ) == vstd::utf8::encode_utf8(v),
        vstd::utf8::valid_utf8(vstd::utf8::encode_utf8(v)),
        vstd::utf8::decode_utf8(vstd::utf8::encode_utf8(v)) == v,
{
    let b = vstd::utf8::encode_utf8(v);
    let e = escaped(b, slash);
    lemma_escaped_is_ascii(b, slash);
    vstd::utf8::is_ascii_chars_encode_utf8(e);
    let s = vstd::utf8::encode_utf8(e);
    assert forall|i: int| 0 <= i < s.len() implies #[trigger] s[i] == e[i] as u8 by {
        assert(e[i] as u8 == s[i]);
    }
    lemma_decode(b, slash, s, Seq::empty());
    assert(s + Seq::<u8>::empty() =~= s);
    assert(b + decoded(Seq::<u8>::empty()) =~= b);
    vstd::utf8::encode_utf8_valid_utf8(v);
    vstd::utf8::encode_utf8_decode_utf8(v);
}

/// A path without a question mark reaches the other side unchanged.
pub proof fn law_path_round_trip(path: Seq<char>)
    requires
        !path.contains('?'),
    ensures
        decoded(vstd::utf8::encode_utf8(target(path))) == vstd::utf8::encode_utf8(path),
{
    text::lemma_first(path, '?');
    law_percent_coding_round_trip(path, true);
}

/// An encoded value holds no character that has a meaning in a query.
pub proof fn law_encoded_value_is_one_parameter(v: Seq<char>)
    ensures
        ({
            let e = escaped(vstd::utf8::encode_utf8(v), false);
            !e.contains('&') && !e.contains('=') && !e.contains('?') && !e.contains('/')
                && !e.contains(' ')
        }),
{
    lemma_plain_chars(vstd::utf8::encode_utf8(v));
}

proof fn lemma_plain_chars(b: Seq<u8>)
    ensures
        forall|i: int|
            0 <= i < escaped(b, false).len() ==> {
                let c = #[trigger] escaped(b, false)[i];
                c != '&' && c != '=' && c != '?' && c != '/' && c != ' '
            },
    decreases b.len(),
{
    if b.len() > 0 {
        lemma_plain_chars(b.drop_last());
        let x = b.last();
        lemma_spelled(x, false);
        let e = escaped(b.drop_last(), false);
        let c = spelled(x, false);
        assert forall|i: int| 0 <= i < escaped(b, false).len() implies {
            let c = #[trigger] escaped(b, false)[i];
            c != '&' && c != '=' && c != '?' && c != '/' && c != ' '
        } by {
            if i < e.len() {
                assert(escaped(b, false)[i] == e[i]);
            } else {
                assert(escaped(b, false)[i] == c[i - e.len()]);
            }
        }
    }
}

proof fn lemma_no_escape(b: Seq<u8>)
    requires
        forall|i: int| 0 <= i < b.len() ==> #[trigger] b[i] != 37,
    ensures
        decoded(b) == b,
    decreases b.len(),
{
    if b.len() > 0 {
        assert(b[0] != 37);
        assert forall|i: int| 0 <= i < b.skip(1).len() implies #[trigger] b.skip(1)[i] != 37 by {
            assert(b[i + 1] != 37);
        }
        lemma_no_escape(b.skip(1));
        assert(seq![b[0]] + b.skip(1) =~= b);
    } else {
        assert(decoded(b) =~= b);
    }
}

/// Only the percent sign is written with the byte of a percent sign.
proof fn lemma_percent_byte(v: Seq<char>)
    requires
        !v.contains('%'),
    ensures
        forall|i: int|
            0 <= i < vstd::utf8::encode_utf8(v).len() ==> #[trigger] vstd::utf8::encode_utf8(v)[i]
                != 37,
    decreases v.len(),
{
    if v.len() > 0 {
        let rest = v.drop_first();
        assert(!rest.contains('%')) by {
            if rest.contains('%') {
                let i = choose|i: int| 0 <= i < rest.len() && rest[i] == '%';
                assert(v[i + 1] == '%');
            }
        }
        lemma_percent_byte(rest);
        let c = v[0] as u32;
        assert(v[0] != '%');
        assert(c != 37) by {
            vstd::utf8::char_u32_cast(v[0], c);
        }
        lemma_scalar_percent(c);
        let head = vstd::utf8::encode_scalar(c);
        let tail = vstd::utf8::encode_utf8(rest);
        assert forall|i: int| 0 <= i < (head + tail).len() implies #[trigger] (head + tail)[i]
            != 37 by {
            if i < head.len() {
                assert(head[i] != 37);
            } else {
                assert(tail[i - head.len()] != 37);
            }
        }
    }
}

proof fn lemma_scalar_percent(c: u32)
    requires
        c != 37,
    ensures
        forall|i: int|
            0 <= i < vstd::utf8::encode_scalar(c).len() ==> #[trigger] vstd::utf8::encode_scalar(c)[i]
                != 37,
{
    assert(c <= 0x7f && c != 37 ==> (c & 0x7f) as u8 != 37) by (bit_vector);
    assert((0xC0u8 | ((c >> 6) & 0x1F) as u8) >= 0x80) by (bit_vector);
    assert((0xE0u8 | ((c >> 12) & 0x0F) as u8) >= 0x80) by (bit_vector);
    assert((0xF0u8 | ((c >> 18) & 0x7) as u8) >= 0x80) by (bit_vector);
    assert((0x80u8 | (c & 0x3F) as u8) >= 0x80) by (bit_vector);
    assert((0x80u8 | ((c >> 6) & 0x3F) as u8) >= 0x80) by (bit_vector);
    assert((0x80u8 | ((c >> 12) & 0x3F) as u8) >= 0x80) by (bit_vector);
}

/// Text without a percent sign is decoded to itself.
pub proof fn law_plain_text_stays(v: Seq<char>)
    requires
        !v.contains('%'),
    ensures
        decoded(vstd::utf8::encode_utf8(v)) == vstd::utf8::encode_utf8(v),
{
    lemma_percent_byte(v);
    lemma_no_escape(vstd::utf8::encode_utf8(v));
}

} // verus!
