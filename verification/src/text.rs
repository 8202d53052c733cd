//! Text as sequences of characters: comparison, splitting, joining and the decimal and
//! hexadecimal forms that messages and wire formats use.
use vstd::prelude::*;

verus! {

/// `String::push`: appends one character.
pub assume_specification[ String::push ](s: &mut String, c: char)
    ensures
        final(s)@ == old(s)@.push(c),
;

/// The characters of `s`.
pub fn chars(s: &str) -> (r: Vec<char>)
    ensures
        r@ == s@,
{
    let mut out: Vec<char> = Vec::new();
    for c in it: s.chars()
        invariant
            it.seq() == s@,
            out@ == s@.take(it.index() as int),
    {
        out.push(c);
    }
    assert(s@.take(s@.len() as int) =~= s@);
    out
}

/// The text made of the characters `v[from..to]`.
pub fn text_of(v: &[char], from: usize, to: usize) -> (r: String)
    requires
        from <= to <= v@.len(),
    ensures
        r@ == v@.subrange(from as int, to as int),
{
    let mut out = String::new();
    let mut i: usize = from;
    while i < to
        invariant
            from <= i <= to <= v@.len(),
            out@ == v@.subrange(from as int, i as int),
        decreases to - i,
    {
        out.push(v[i]);
        i += 1;
        assert(v@.subrange(from as int, i as int) =~= v@.subrange(from as int, i - 1).push(
            v@[i - 1],
        ));
    }
    out
}

/// Whether two texts are the same.
pub fn same(a: &str, b: &str) -> (r: bool)
    ensures
        r == (a@ == b@),
{
    let x = chars(a);
    let y = chars(b);
    same_chars(x.as_slice(), y.as_slice())
}

/// Whether two character slices are the same.
pub fn same_chars(x: &[char], y: &[char]) -> (r: bool)
    ensures
        r == (x@ == y@),
{
    if x.len() != y.len() {
        return false;
    }
    let mut i: usize = 0;
    while i < x.len()
        invariant
            i <= x@.len() == y@.len(),
            forall|j: int| 0 <= j < i ==> x@[j] == y@[j],
        decreases x@.len() - i,
    {
        if x[i] != y[i] {
            return false;
        }
        i += 1;
    }
    assert(x@ =~= y@);
    true
}

/// Lexicographic order by code point, which is the order of `str`.
pub open spec fn lt(a: Seq<char>, b: Seq<char>) -> bool
    decreases a.len(),
{
    if b.len() == 0 {
        false
    } else if a.len() == 0 {
        true
    } else if a[0] == b[0] {
        lt(a.drop_first(), b.drop_first())
    } else {
        (a[0] as int) < (b[0] as int)
    }
}

/// No text comes before itself.
pub proof fn lemma_lt_irreflexive(a: Seq<char>)
    ensures
        !lt(a, a),
    decreases a.len(),
{
    if a.len() > 0 {
        lemma_lt_irreflexive(a.drop_first());
    }
}

/// The order is transitive.
pub proof fn lemma_lt_transitive(a: Seq<char>, b: Seq<char>, c: Seq<char>)
    requires
        lt(a, b),
        lt(b, c),
    ensures
        lt(a, c),
    decreases a.len(),
{
    if a.len() > 0 && b.len() > 0 && c.len() > 0 {
        if a[0] == b[0] && b[0] == c[0] {
            lemma_lt_transitive(a.drop_first(), b.drop_first(), c.drop_first());
        }
    }
}

/// Of two different texts one comes before the other.
pub proof fn lemma_lt_total(a: Seq<char>, b: Seq<char>)
    ensures
        a == b || lt(a, b) || lt(b, a),
    decreases a.len(),
{
    if a.len() > 0 && b.len() > 0 {
        if a[0] == b[0] {
            lemma_lt_total(a.drop_first(), b.drop_first());
            if a.drop_first() == b.drop_first() {
                assert(a =~= seq![a[0]] + a.drop_first());
                assert(b =~= seq![b[0]] + b.drop_first());
            }
        }
    } else if a.len() == 0 && b.len() == 0 {
        assert(a =~= b);
    }
}

/// The code point of a character is the character's number.
pub proof fn lemma_char_code(c: char)
    ensures
        (c as u32) as int == c as int,
        0 <= (c as int) < 0x110000,
{
}

/// Whether `a` comes before `b`.
pub fn less(a: &str, b: &str) -> (r: bool)
    ensures
        r == lt(a@, b@),
{
    let x = chars(a);
    let y = chars(b);
    let mut i: usize = 0;
    assert(x@.skip(0) =~= x@);
    assert(y@.skip(0) =~= y@);
    while i < x.len() && i < y.len()
        invariant
            i <= x@.len(),
            i <= y@.len(),
            x@ == a@,
            y@ == b@,
            lt(a@, b@) == lt(x@.skip(i as int), y@.skip(i as int)),
        decreases x@.len() - i,
    {
        let p: char = x[i];
        let q: char = y[i];
        if p != q {
            proof {
                lemma_char_code(p);
                lemma_char_code(q);
            }
            return (p as u32) < (q as u32);
        }
        assert(x@.skip(i as int).drop_first() =~= x@.skip(i + 1));
        assert(y@.skip(i as int).drop_first() =~= y@.skip(i + 1));
        i += 1;
    }
    i < y.len()
}

/// The views of a sequence of string slices.
pub open spec fn views(v: Seq<&str>) -> Seq<Seq<char>> {
    Seq::new(v.len(), |i: int| v[i]@)
}

/// `s` cut at every `c`: always one piece more than there are `c`s.
pub open spec fn split(s: Seq<char>, c: char) -> Seq<Seq<char>>
    decreases s.len(),
{
    if s.len() == 0 {
        seq![Seq::<char>::empty()]
    } else {
        let r = split(s.drop_last(), c);
        if s.last() == c {
            r.push(Seq::<char>::empty())
        } else {
            r.drop_last().push(r.last().push(s.last()))
        }
    }
}

/// A cut has at least one piece.
pub proof fn lemma_split_len(s: Seq<char>, c: char)
    ensures
        split(s, c).len() >= 1,
    decreases s.len(),
{
    if s.len() > 0 {
        lemma_split_len(s.drop_last(), c);
    }
}

/// Cuts `s` at every `c`.
pub fn split_at_each<'a>(s: &'a str, c: char) -> (r: Vec<&'a str>)
    ensures
        views(r@) == split(s@, c),
{
    let v = chars(s);
    let mut out: Vec<&'a str> = Vec::new();
    let mut from: usize = 0;
    let mut i: usize = 0;
    let ghost mut done = Seq::<Seq<char>>::empty();
    proof {
        assert(s@.take(0) =~= Seq::<char>::empty());
        assert(s@.subrange(0, 0) =~= Seq::<char>::empty());
        assert(views(out@) =~= done);
        assert(done.push(Seq::<char>::empty()) =~= seq![Seq::<char>::empty()]);
    }
    while i < v.len()
        invariant
            v@ == s@,
            from <= i <= s@.len(),
            done == views(out@),
            split(s@.take(i as int), c) == done.push(s@.subrange(from as int, i as int)),
        decreases s@.len() - i,
    {
        proof {
            assert(s@.take(i + 1).drop_last() =~= s@.take(i as int));
            assert(done.push(s@.subrange(from as int, i as int)).drop_last() =~= done);
        }
        if v[i] == c {
            let piece: &'a str = s.substring_char(from, i);
            let ghost was = out@;
            out.push(piece);
            proof {
                assert(views(out@) =~= done.push(piece@));
                done = done.push(piece@);
                assert(s@.subrange(i + 1, i + 1) =~= Seq::<char>::empty());
            }
            from = i + 1;
        } else {
            proof {
                assert(s@.subrange(from as int, i + 1) =~= s@.subrange(from as int, i as int).push(
                    s@[i as int],
                ));
            }
        }
        i += 1;
    }
    let piece: &'a str = s.substring_char(from, i);
    out.push(piece);
    proof {
        assert(s@.take(i as int) =~= s@);
        assert(views(out@) =~= done.push(piece@));
    }
    out
}

/// `String::push_str`: appends a text.
pub assume_specification[ String::push_str ](s: &mut String, t: &str)
    ensures
        final(s)@ == old(s)@ + t@,
;

/// Two texts in a row.
pub fn cat2(a: &str, b: &str) -> (r: String)
    ensures
        r@ == a@ + b@,
{
    let mut out = a.to_owned();
    out.push_str(b);
    out
}

/// Three texts in a row.
pub fn cat3(a: &str, b: &str, c: &str) -> (r: String)
    ensures
        r@ == a@ + b@ + c@,
{
    let mut out = cat2(a, b);
    out.push_str(c);
    out
}

/// Four texts in a row.
pub fn cat4(a: &str, b: &str, c: &str, d: &str) -> (r: String)
    ensures
        r@ == a@ + b@ + c@ + d@,
{
    let mut out = cat3(a, b, c);
    out.push_str(d);
    out
}

/// The digit character of `d` in bases up to sixteen, lower case.
pub open spec fn digit_char(d: nat) -> char {
    if d < 10 {
        (d + 48) as char
    } else {
        (d + 87) as char
    }
}

/// The decimal form of a number.
pub open spec fn decimal(n: nat) -> Seq<char>
    decreases n,
{
    if n < 10 {
        seq![digit_char(n)]
    } else {
        decimal(n / 10).push(digit_char(n % 10))
    }
}

fn digit_of(d: u64) -> (c: char)
    requires
        d < 16,
    ensures
        c == digit_char(d as nat),
{
    let table = [
        '0', '1', '2', '3', '4', '5', '6', '7', '8', '9', 'a', 'b', 'c', 'd', 'e', 'f',
    ];
    table[d as usize]
}

/// The decimal form of `n`.
pub fn decimal_text(n: u64) -> (r: String)
    ensures
        r@ == decimal(n as nat),
    decreases n,
{
    if n < 10 {
        let mut out = String::new();
        out.push(digit_of(n));
        assert(out@ =~= seq![digit_char(n as nat)]);
        out
    } else {
        let mut out = decimal_text(n / 10);
        out.push(digit_of(n % 10));
        out
    }
}

/// The value of a run of decimal digits, `None` where it is empty, holds another character or
/// exceeds `max`.
pub open spec fn parse_decimal(s: Seq<char>, max: nat) -> Option<nat>
    decreases s.len(),
{
    if s.len() == 0 {
        None
    } else if !('0' <= s.last() <= '9') {
        None
    } else {
        let d = (s.last() as nat - 48) as nat;
        let high = if s.len() == 1 {
            Some(0nat)
        } else {
            parse_decimal(s.drop_last(), max)
        };
        match high {
            None => None,
            Some(h) => if h * 10 + d > max {
                None
            } else {
                Some(h * 10 + d)
            },
        }
    }
}

/// What `str::parse` of an unsigned number reads: a run of digits, behind an optional plus sign.
pub open spec fn parse_number(s: Seq<char>, max: nat) -> Option<nat> {
    if s.len() > 0 && s[0] == '+' {
        parse_decimal(s.drop_first(), max)
    } else {
        parse_decimal(s, max)
    }
}

proof fn lemma_parse_prefix(s: Seq<char>, i: int, max: nat)
    requires
        0 < i <= s.len(),
        parse_decimal(s.take(i), max) is None,
    ensures
        parse_decimal(s, max) is None,
    decreases s.len() - i,
{
    if i == s.len() {
        assert(s.take(i) =~= s);
    } else {
        assert(s.take(i + 1).drop_last() =~= s.take(i));
        lemma_parse_prefix(s, i + 1, max);
    }
}

/// Reads an unsigned number no larger than `max`.
pub fn number(s: &str, max: u64) -> (r: Option<u64>)
    ensures
        r is Some <==> parse_number(s@, max as nat) is Some,
        r is Some ==> r->0 as nat == parse_number(s@, max as nat)->0,
{
    let v = chars(s);
    let from: usize = if v.len() > 0 && v[0] == '+' {
        1
    } else {
        0
    };
    let ghost t = if from == 1 {
        s@.drop_first()
    } else {
        s@
    };
    if v.len() == from {
        return None;
    }
    let mut i: usize = from;
    let mut acc: u64 = 0;
    while i < v.len()
        invariant
            v@ == s@,
            from <= i <= v@.len(),
            from <= 1,
            t.len() == v@.len() - from,
            forall|j: int| 0 <= j < t.len() ==> t[j] == v@[j + from],
            i == from ==> acc == 0,
            i > from ==> parse_decimal(t.take(i - from), max as nat) == Some(acc as nat),
            acc <= max,
            parse_number(s@, max as nat) == parse_decimal(t, max as nat),
        decreases v@.len() - i,
    {
        let c: char = v[i];
        let ghost p = t.take(i - from + 1);
        proof {
            assert(p.drop_last() =~= t.take(i - from));
            assert(p.last() == c);
            lemma_char_code(c);
        }
        if c < '0' || c > '9' {
            proof {
                assert(parse_decimal(p, max as nat) is None);
                lemma_parse_prefix(t, i - from + 1, max as nat);
            }
            return None;
        }
        let d: u64 = (c as u32 - 48) as u64;
        if acc > (max - (if d <= max { d } else { max })) / 10 || d > max {
            proof {
                assert(acc * 10 + d > max);
                assert(parse_decimal(p, max as nat) is None);
                lemma_parse_prefix(t, i - from + 1, max as nat);
            }
            return None;
        }
        acc = acc * 10 + d;
        assert(parse_decimal(p, max as nat) == Some(acc as nat));
        i += 1;
    }
    assert(t.take(t.len() as int) =~= t);
    Some(acc)
}

/// Whether `c` occurs in `s`.
pub fn has_char(s: &str, c: char) -> (r: bool)
    ensures
        r == s@.contains(c),
{
    let v = chars(s);
    let mut i: usize = 0;
    while i < v.len()
        invariant
            v@ == s@,
            i <= v@.len(),
            forall|j: int| 0 <= j < i ==> v@[j] != c,
        decreases v@.len() - i,
    {
        if v[i] == c {
            return true;
        }
        i += 1;
    }
    false
}

/// A number that is read stays within its bound.
pub proof fn lemma_number_bound(s: Seq<char>, max: nat)
    ensures
        parse_number(s, max) is Some ==> parse_number(s, max)->0 <= max,
{
    if s.len() > 0 && s[0] == '+' {
        lemma_decimal_bound(s.drop_first(), max);
    } else {
        lemma_decimal_bound(s, max);
    }
}

proof fn lemma_decimal_bound(s: Seq<char>, max: nat)
    ensures
        parse_decimal(s, max) is Some ==> parse_decimal(s, max)->0 <= max,
    decreases s.len(),
{
    if s.len() > 1 {
        lemma_decimal_bound(s.drop_last(), max);
    }
}

/// The last `w` hexadecimal digits of a number, lower case.
pub open spec fn hex_digits(n: nat, w: nat) -> Seq<char>
    decreases w,
{
    if w == 0 {
        Seq::empty()
    } else {
        hex_digits(n / 16, (w - 1) as nat).push(digit_char(n % 16))
    }
}

/// The last `w` hexadecimal digits of `n`.
pub fn hex_text(n: u64, w: usize) -> (r: String)
    ensures
        r@ == hex_digits(n as nat, w as nat),
    decreases w,
{
    if w == 0 {
        String::new()
    } else {
        let mut out = hex_text(n / 16, w - 1);
        out.push(digit_of(n % 16));
        out
    }
}

/// `0x` and the four hexadecimal digits of an address.
pub open spec fn hex_address(n: u16) -> Seq<char> {
    "0x"@ + hex_digits(n as nat, 4)
}

/// `0x` and the four hexadecimal digits of `n`.
pub fn hex_address_text(n: u16) -> (r: String)
    ensures
        r@ == hex_address(n),
{
    cat2("0x", hex_text(n as u64, 4).as_str())
}

/// `0x` and the two hexadecimal digits of a byte.
pub open spec fn hex_byte(n: u8) -> Seq<char> {
    "0x"@ + hex_digits(n as nat, 2)
}

/// `0x` and the two hexadecimal digits of `n`.
pub fn hex_byte_text(n: u8) -> (r: String)
    ensures
        r@ == hex_byte(n),
{
    cat2("0x", hex_text(n as u64, 2).as_str())
}

/// What `String::from_utf8_lossy` makes of bytes.
pub uninterp spec fn lossy_text(b: Seq<u8>) -> Seq<char>;

/// `String::from_utf8_lossy`: bytes as text, with replacement characters where they are no text.
/// Bytes that are text come out as that text.
#[verifier::external_body]
pub(crate) fn lossy(b: &[u8]) -> (r: String)
    ensures
        r@ == lossy_text(b@),
        vstd::utf8::valid_utf8(b@) ==> r@ == vstd::utf8::decode_utf8(b@),
{
    String::from_utf8_lossy(b).into_owned()
}

/// Bytes read as text: the text that they encode, or else what is left of them with replacement
/// characters.
pub open spec fn read_as_text(b: Seq<u8>) -> Seq<char> {
    if vstd::utf8::valid_utf8(b) {
        vstd::utf8::decode_utf8(b)
    } else {
        lossy_text(b)
    }
}

/// White space: the characters with the Unicode property `White_Space`.
pub open spec fn white_space(c: char) -> bool {
    let n = c as int;
    9 <= n <= 13 || n == 0x20 || n == 0x85 || n == 0xa0 || n == 0x1680 || 0x2000 <= n <= 0x200a || n
        == 0x2028 || n == 0x2029 || n == 0x202f || n == 0x205f || n == 0x3000
}

/// Whether a character is white space.
pub fn is_white(c: char) -> (r: bool)
    ensures
        r == white_space(c),
{
    let n: u32 = c as u32;
    proof {
        lemma_char_code(c);
    }
    (9 <= n && n <= 13) || n == 0x20 || n == 0x85 || n == 0xa0 || n == 0x1680 || (0x2000 <= n && n
        <= 0x200a) || n == 0x2028 || n == 0x2029 || n == 0x202f || n == 0x205f || n == 0x3000
}

/// `s` without white space at either end.
pub open spec fn stripped(s: Seq<char>) -> Seq<char> {
    trim(s, |c: char| white_space(c))
}

/// `s` without white space at either end.
pub fn strip(s: &str) -> (r: String)
    ensures
        r@ == stripped(s@),
{
    let v = chars(s);
    let n = v.len();
    let mut marks: Vec<bool> = Vec::new();
    let mut i: usize = 0;
    while i < n
        invariant
            i <= n == v@.len(),
            v@ == s@,
            marks@.len() == i,
            forall|j: int| 0 <= j < i ==> #[trigger] marks@[j] == white_space(s@[j]),
        decreases n - i,
    {
        marks.push(is_white(v[i]));
        i += 1;
    }
    trim_marked(s, &marks, Ghost(|c: char| white_space(c)))
}

/// The words of `s` after the beginning `word` of one.
pub open spec fn words_after(word: Seq<char>, s: Seq<char>) -> Seq<Seq<char>>
    decreases s.len(),
{
    let done = if word.len() > 0 {
        seq![word]
    } else {
        Seq::empty()
    };
    if s.len() == 0 {
        done
    } else if white_space(s[0]) {
        done + words_after(Seq::empty(), s.skip(1))
    } else {
        words_after(word.push(s[0]), s.skip(1))
    }
}

/// The words of `s`: what stands between white space.
pub open spec fn words(s: Seq<char>) -> Seq<Seq<char>> {
    words_after(Seq::empty(), s)
}

pub open spec fn string_views(v: Seq<String>) -> Seq<Seq<char>> {
    v.map_values(|s: String| s@)
}

/// The words of `s`.
pub fn split_words(s: &str) -> (r: Vec<String>)
    ensures
        string_views(r@) == words(s@),
{
    let v = chars(s);
    let n = v.len();
    let mut out: Vec<String> = Vec::new();
    let mut from: usize = 0;
    let mut i: usize = 0;
    proof {
        assert(s@.skip(0) =~= s@);
        assert(s@.subrange(0, 0) =~= Seq::<char>::empty());
        assert(string_views(out@) + words(s@) =~= words(s@));
    }
    while i < n
        invariant
            from <= i <= n == v@.len(),
            v@ == s@,
            words(s@) == string_views(out@) + words_after(
                s@.subrange(from as int, i as int),
                s@.skip(i as int),
            ),
        decreases n - i,
    {
        let ghost word = s@.subrange(from as int, i as int);
        let ghost rest = s@.skip(i as int);
        assert(rest[0] == s@[i as int]);
        assert(rest.skip(1) =~= s@.skip(i + 1));
        if is_white(v[i]) {
            let ghost was = string_views(out@);
            if i > from {
                let w = text_of(v.as_slice(), from, i);
                out.push(w);
                assert(string_views(out@) =~= was + seq![word]);
            } else {
                assert(was + Seq::<Seq<char>>::empty() =~= was);
            }
            from = i + 1;
            assert(s@.subrange(from as int, i + 1) =~= Seq::<char>::empty());
            proof {
                let done = if word.len() > 0 {
                    seq![word]
                } else {
                    Seq::empty()
                };
                let tail = words_after(Seq::empty(), rest.skip(1));
                assert(was + (done + tail) =~= (was + done) + tail);
            }
        } else {
            assert(word.push(rest[0]) =~= s@.subrange(from as int, i + 1));
        }
        i += 1;
    }
    proof {
        assert(s@.skip(i as int) =~= Seq::<char>::empty());
    }
    let ghost was = string_views(out@);
    let ghost word = s@.subrange(from as int, i as int);
    if i > from {
        let w = text_of(v.as_slice(), from, i);
        out.push(w);
        assert(string_views(out@) =~= was + seq![word]);
    } else {
        assert(was + Seq::<Seq<char>>::empty() =~= was);
    }
    out
}

/// A character with a capital letter of ASCII made small.
pub open spec fn small(c: char) -> char {
    if 'A' <= c && c <= 'Z' {
        (c as int + 32) as char
    } else {
        c
    }
}

/// Equal but for capital letters of ASCII.
pub open spec fn alike(a: Seq<char>, b: Seq<char>) -> bool {
    a.map_values(|c: char| small(c)) == b.map_values(|c: char| small(c))
}

fn to_small(c: char) -> (r: char)
    ensures
        r == small(c),
{
    let n: u32 = c as u32;
    proof {
        lemma_char_code(c);
    }
    if 65 <= n && n <= 90 {
        (n as u8 + 32) as char
    } else {
        c
    }
}

/// Whether two texts are equal but for capital letters of ASCII.
pub fn same_but_case(a: &str, b: &str) -> (r: bool)
    ensures
        r == alike(a@, b@),
{
    let x = chars(a);
    let y = chars(b);
    let ghost p = a@.map_values(|c: char| small(c));
    let ghost q = b@.map_values(|c: char| small(c));
    if x.len() != y.len() {
        assert(p.len() != q.len());
        return false;
    }
    let n = x.len();
    let mut i: usize = 0;
    while i < n
        invariant
            i <= n == x@.len(),
            n == y@.len(),
            x@ == a@,
            y@ == b@,
            p == a@.map_values(|c: char| small(c)),
            q == b@.map_values(|c: char| small(c)),
            forall|j: int| 0 <= j < i ==> #[trigger] p[j] == q[j],
        decreases n - i,
    {
        if to_small(x[i]) != to_small(y[i]) {
            assert(p[i as int] != q[i as int]);
            return false;
        }
        i += 1;
    }
    assert(p =~= q);
    true
}

/// Whether `s` ends with `p`.
pub open spec fn has_suffix(s: Seq<char>, p: Seq<char>) -> bool {
    p.len() <= s.len() && s.skip(s.len() - p.len()) == p
}

/// Whether `s` ends with `p`.
pub fn ends_with(s: &str, p: &str) -> (r: bool)
    ensures
        r == has_suffix(s@, p@),
{
    let a = chars(s);
    let b = chars(p);
    if b.len() > a.len() {
        return false;
    }
    let t = text_of(a.as_slice(), a.len() - b.len(), a.len());
    assert(t@ =~= s@.skip(s@.len() - p@.len()));
    same(t.as_str(), p)
}

/// `s` without its last `n` characters.
pub fn without_last(s: &str, n: usize) -> (r: String)
    requires
        n <= s@.len(),
    ensures
        r@ == s@.take(s@.len() - n),
{
    let v = chars(s);
    let r = text_of(v.as_slice(), 0, v.len() - n);
    assert(r@ =~= s@.take(s@.len() - n));
    r
}

/// `str::from_utf8`: the text that the bytes encode, if they encode one.
#[verifier::external_body]
pub(crate) fn utf8(b: &[u8]) -> (r: Option<String>)
    ensures
        r is Some <==> vstd::utf8::valid_utf8(b@),
        r is Some ==> r->0@ == vstd::utf8::decode_utf8(b@),
{
    std::str::from_utf8(b).ok().map(str::to_string)
}

/// `s` without the characters of `drop` at its end.
pub open spec fn trim_end(s: Seq<char>, drop: spec_fn(char) -> bool) -> Seq<char>
    decreases s.len(),
{
    if s.len() > 0 && drop(s.last()) {
        trim_end(s.drop_last(), drop)
    } else {
        s
    }
}

/// `s` without the characters of `drop` at its start.
pub open spec fn trim_start(s: Seq<char>, drop: spec_fn(char) -> bool) -> Seq<char>
    decreases s.len(),
{
    if s.len() > 0 && drop(s[0]) {
        trim_start(s.drop_first(), drop)
    } else {
        s
    }
}

/// `s` without the characters of `drop` at either end.
pub open spec fn trim(s: Seq<char>, drop: spec_fn(char) -> bool) -> Seq<char> {
    trim_end(trim_start(s, drop), drop)
}

/// `s` without the characters of `drop` at either end. `dropped[i]` says whether character `i` is
/// one.
pub(crate) fn trim_marked(s: &str, dropped: &Vec<bool>, Ghost(drop): Ghost<spec_fn(char) -> bool>) -> (r:
    String)
    requires
        dropped@.len() == s@.len(),
        forall|i: int| 0 <= i < s@.len() ==> #[trigger] dropped@[i] == drop(s@[i]),
    ensures
        r@ == trim(s@, drop),
{
    let v = chars(s);
    let mut a: usize = 0;
    assert(s@.skip(0) =~= s@);
    while a < v.len() && dropped[a]
        invariant
            v@ == s@,
            a <= v@.len(),
            dropped@.len() == s@.len(),
            forall|i: int| 0 <= i < s@.len() ==> #[trigger] dropped@[i] == drop(s@[i]),
            trim_start(s@, drop) == trim_start(s@.skip(a as int), drop),
        decreases v@.len() - a,
    {
        assert(s@.skip(a as int).drop_first() =~= s@.skip(a + 1));
        assert(s@.skip(a as int)[0] == s@[a as int]);
        a += 1;
    }
    let ghost t = s@.skip(a as int);
    proof {
        if a < v.len() {
            assert(t[0] == s@[a as int]);
            assert(!dropped@[a as int]);
        }
        assert(trim_start(t, drop) == t);
    }
    let mut b: usize = v.len();
    assert(t.take(b - a) =~= t);
    while b > a && dropped[b - 1]
        invariant
            v@ == s@,
            a <= b <= v@.len(),
            t == s@.skip(a as int),
            dropped@.len() == s@.len(),
            forall|i: int| 0 <= i < s@.len() ==> #[trigger] dropped@[i] == drop(s@[i]),
            trim_end(t, drop) == trim_end(t.take(b - a), drop),
        decreases b,
    {
        assert(t.take(b - a).drop_last() =~= t.take(b - a - 1));
        assert(t.take(b - a).last() == s@[b - 1]);
        b = b - 1;
    }
    proof {
        if b > a {
            assert(t.take(b - a).last() == s@[b - 1]);
            assert(!dropped@[b - 1]);
        }
        assert(t.take(b - a) =~= v@.subrange(a as int, b as int));
    }
    text_of(v.as_slice(), a, b)
}

/// Whether `s` starts with `p`.
pub open spec fn has_prefix(s: Seq<char>, p: Seq<char>) -> bool {
    p.len() <= s.len() && s.take(p.len() as int) == p
}

/// Whether `s` starts with `p`.
pub fn starts_with(s: &str, p: &str) -> (r: bool)
    ensures
        r == has_prefix(s@, p@),
{
    let a = chars(s);
    let b = chars(p);
    if b.len() > a.len() {
        return false;
    }
    let mut i: usize = 0;
    while i < b.len()
        invariant
            a@ == s@,
            b@ == p@,
            i <= b@.len() <= a@.len(),
            forall|j: int| 0 <= j < i ==> a@[j] == b@[j],
        decreases b@.len() - i,
    {
        if a[i] != b[i] {
            assert(s@.take(p@.len() as int)[i as int] != p@[i as int]);
            return false;
        }
        i += 1;
    }
    assert(s@.take(p@.len() as int) =~= p@);
    true
}

/// The rest of `s` behind its first `n` characters.
pub fn skip_chars(s: &str, n: usize) -> (r: String)
    requires
        n <= s@.len(),
    ensures
        r@ == s@.skip(n as int),
{
    let v = chars(s);
    let r = text_of(v.as_slice(), n, v.len());
    assert(r@ =~= s@.skip(n as int));
    r
}

/// Where a character first occurs; the length where it does not.
pub open spec fn first(s: Seq<char>, c: char) -> nat
    decreases s.len(),
{
    if s.len() == 0 || s[0] == c {
        0
    } else {
        1 + first(s.skip(1), c)
    }
}

pub proof fn lemma_first(s: Seq<char>, c: char)
    ensures
        first(s, c) <= s.len(),
        first(s, c) < s.len() <==> s.contains(c),
        first(s, c) < s.len() ==> s[first(s, c) as int] == c,
        forall|i: int| 0 <= i < first(s, c) ==> s[i] != c,
    decreases s.len(),
{
    if s.len() > 0 && s[0] != c {
        let t = s.skip(1);
        lemma_first(t, c);
        if s.contains(c) {
            let i = choose|i: int| 0 <= i < s.len() && s[i] == c;
            assert(t[i - 1] == c);
        }
        assert forall|i: int| 0 <= i < first(s, c) implies s[i] != c by {
            if i > 0 {
                assert(t[i - 1] != c);
            }
        }
        if first(s, c) < s.len() {
            assert(s[first(s, c) as int] == t[first(t, c) as int]);
        }
    }
}

/// Where a character first occurs; the length where it does not.
pub fn find(s: &str, c: char) -> (r: usize)
    ensures
        r == first(s@, c),
        r <= s@.len(),
        r < s@.len() ==> s@[r as int] == c,
{
    let v = chars(s);
    let n = v.len();
    let mut i: usize = 0;
    assert(s@.skip(0) =~= s@);
    while i < n
        invariant
            i <= n == v@.len(),
            v@ == s@,
            first(s@, c) == i + first(s@.skip(i as int), c),
        decreases n - i,
    {
        let ghost rest = s@.skip(i as int);
        if v[i] == c {
            return i;
        }
        assert(rest.skip(1) =~= s@.skip(i + 1));
        i += 1;
    }
    i
}

/// A number written down in decimal is read back.
pub proof fn lemma_decimal(n: nat, max: nat)
    requires
        n <= max,
    ensures
        decimal(n).len() >= 1,
        forall|i: int| 0 <= i < decimal(n).len() ==> '0' <= (#[trigger] decimal(n)[i]) <= '9',
        parse_decimal(decimal(n), max) == Some(n),
        parse_number(decimal(n), max) == Some(n),
    decreases n,
{
    if n < 10 {
        assert(digit_char(n) as nat == n + 48);
    } else {
        lemma_decimal(n / 10, max);
        let d = decimal(n / 10);
        assert(digit_char(n % 10) as nat == n % 10 + 48);
        assert(decimal(n).drop_last() =~= d);
        assert(decimal(n).last() == digit_char(n % 10));
        assert(decimal(n)[0] == d[0]);
    }
}

/// A text that neither begins nor ends with white space has none to lose.
pub proof fn lemma_stripped_whole(s: Seq<char>)
    requires
        s.len() > 0,
        !white_space(s[0]),
        !white_space(s.last()),
    ensures
        stripped(s) == s,
{
}

/// `p` stands in `s` at `i`.
pub open spec fn stands_at(s: Seq<char>, p: Seq<char>, i: int) -> bool {
    0 <= i && i + p.len() <= s.len() && s.subrange(i, i + p.len()) == p
}

/// `p` stands somewhere in `s`.
pub open spec fn has_text(s: Seq<char>, p: Seq<char>) -> bool {
    exists|i: int| stands_at(s, p, i)
}

/// Whether `p` stands somewhere in `s`.
pub fn contains_text(s: &str, p: &str) -> (r: bool)
    ensures
        r == has_text(s@, p@),
{
    let a = chars(s);
    let b = chars(p);
    let n = a.len();
    let m = b.len();
    if m > n {
        return false;
    }
    let last = n - m;
    let mut i: usize = 0;
    while i < last
        invariant
            last == n - m,
            m <= n == a@.len(),
            m == b@.len(),
            i <= last,
            a@ == s@,
            b@ == p@,
            forall|j: int| 0 <= j < i ==> !stands_at(s@, p@, j),
        decreases last - i,
    {
        let t = text_of(a.as_slice(), i, i + m);
        if same(t.as_str(), p) {
            assert(stands_at(s@, p@, i as int));
            return true;
        }
        i += 1;
    }
    let t = text_of(a.as_slice(), last, n);
    let r = same(t.as_str(), p);
    assert(r == stands_at(s@, p@, last as int));
    r
}

/// The texts one after the other, with `sep` between them.
pub open spec fn joined(v: Seq<Seq<char>>, sep: Seq<char>) -> Seq<char>
    decreases v.len(),
{
    if v.len() == 0 {
        Seq::empty()
    } else if v.len() == 1 {
        v[0]
    } else {
        joined(v.drop_last(), sep) + sep + v.last()
    }
}

/// The texts one after the other, with `sep` between them.
pub fn join(v: &Vec<String>, sep: &str) -> (r: String)
    ensures
        r@ == joined(string_views(v@), sep@),
{
    let mut out = String::new();
    let ghost all = string_views(v@);
    let mut i: usize = 0;
    assert(out@ =~= Seq::<char>::empty());
    while i < v.len()
        invariant
            i <= v@.len(),
            all == string_views(v@),
            out@ == joined(all.take(i as int), sep@),
        decreases v@.len() - i,
    {
        let ghost was = out@;
        if i > 0 {
            out.push_str(sep);
        }
        out.push_str(v[i].as_str());
        proof {
            let t = all.take(i + 1);
            assert(t.drop_last() =~= all.take(i as int));
            assert(t.last() == v@[i as int]@);
            if i == 0 {
                assert(t.len() == 1);
                assert(out@ =~= v@[0]@);
            }
        }
        i += 1;
    }
    assert(all.take(i as int) =~= all);
    out
}

/// `n` zeros.
pub open spec fn zeros(n: nat) -> Seq<char>
    decreases n,
{
    if n == 0 {
        Seq::empty()
    } else {
        zeros((n - 1) as nat).push('0')
    }
}

/// A number with zeros before it, at least `w` characters long.
pub open spec fn padded(n: nat, w: nat) -> Seq<char> {
    let d = decimal(n);
    if d.len() >= w {
        d
    } else {
        zeros((w - d.len()) as nat) + d
    }
}

/// A number with zeros before it, at least `w` characters long.
pub fn padded_text(n: u64, w: usize) -> (r: String)
    ensures
        r@ == padded(n as nat, w as nat),
{
    let d = decimal_text(n);
    let digits = chars(d.as_str());
    let m = digits.len();
    if m >= w {
        return d;
    }
    let mut out: Vec<char> = Vec::new();
    let mut i: usize = 0;
    while i < w - m
        invariant
            m < w,
            i <= w - m,
            out@ == zeros(i as nat),
        decreases w - m - i,
    {
        out.push('0');
        i += 1;
    }
    let z = text_of(out.as_slice(), 0, out.len());
    assert(z@ =~= out@);
    cat2(z.as_str(), d.as_str())
}

/// `n` spaces.
pub open spec fn spaces(n: int) -> Seq<char> {
    Seq::new(if n > 0 {
        n as nat
    } else {
        0
    }, |i: int| ' ')
}

/// `s` at the left of a column `w` wide.
pub open spec fn at_left(s: Seq<char>, w: int) -> Seq<char> {
    s + spaces(w - s.len())
}

/// `s` at the right of a column `w` wide.
pub open spec fn at_right(s: Seq<char>, w: int) -> Seq<char> {
    spaces(w - s.len()) + s
}

fn spaces_text(have: usize, w: usize) -> (r: String)
    ensures
        r@ == spaces(w - have),
{
    let mut t = String::new();
    let mut i: usize = have;
    assert(t@ =~= spaces(0));
    while i < w
        invariant
            have <= i <= w || (i == have && have > w),
            t@ == spaces(i - have),
        decreases w - i,
    {
        t.push(' ');
        assert(t@ =~= spaces(i + 1 - have));
        i += 1;
    }
    assert(t@ =~= spaces(w - have));
    t
}

/// `s` at the left of a column `w` wide.
pub fn left(s: &str, w: usize) -> (r: String)
    ensures
        r@ == at_left(s@, w as int),
{
    let n = chars(s).len();
    cat2(s, spaces_text(n, w).as_str())
}

/// `s` at the right of a column `w` wide.
pub fn right(s: &str, w: usize) -> (r: String)
    ensures
        r@ == at_right(s@, w as int),
{
    let n = chars(s).len();
    cat2(spaces_text(n, w).as_str(), s)
}

/// The hexadecimal digits of a number, at least four.
pub open spec fn hex_offset(n: nat) -> Seq<char>
    decreases n,
{
    if n < 0x10000 {
        hex_digits(n, 4)
    } else {
        hex_offset(n / 16).push(digit_char(n % 16))
    }
}

/// The hexadecimal digits of `n`, at least four.
pub fn hex_offset_text(n: u64) -> (r: String)
    ensures
        r@ == hex_offset(n as nat),
    decreases n,
{
    if n < 0x10000 {
        hex_text(n, 4)
    } else {
        let mut out = hex_offset_text(n / 16);
        out.push(digit_of(n % 16));
        out
    }
}

} // verus!
