//! What sizes, columns and dumps show.
use vstd::prelude::*;

use crate::cli::format_util;
use crate::cli::tape;
use crate::text;

verus! {

/// A quotient is rounded to the nearest whole number, and to the even one where two are as near.
pub proof fn law_rounding_is_to_the_nearest(a: nat, b: nat)
    requires
        b > 0,
    ensures
        ({
            let q = format_util::rounded(a, b) as int;
            let off = 2 * (a as int) - 2 * (b * q);
            &&& -(b as int) <= off <= b
            &&& off == b || off == -(b as int) ==> q % 2 == 0
        }),
{
    let q = (a / b) as int;
    let r = (a % b) as int;
    assert(a == b * q + r && 0 <= r < b) by (nonlinear_arith)
        requires
            q == a as int / b as int,
            r == a as int % b as int,
            b > 0,
    ;
    assert(b * (q + 1) == b * q + b) by (nonlinear_arith);
}

proof fn lemma_unit(v: nat, scale: nat, i: nat)
    requires
        scale == vstd::arithmetic::power::pow(1024, i),
        i <= 5,
        v >= scale || i == 0,
    ensures
        ({
            let (s, k) = format_util::unit_for(v, scale, i);
            &&& s == vstd::arithmetic::power::pow(1024, k) && i <= k <= 5
            &&& v >= s || k == 0
            &&& k < 5 ==> v < s * 1024
        }),
    decreases 5 - i,
{
    if i < 5 && v >= scale * 1024 {
        assert(vstd::arithmetic::power::pow(1024, i + 1) == 1024 * vstd::arithmetic::power::pow(1024, i)) by {
            vstd::arithmetic::power::lemma_pow_adds(1024, 1, i);
            vstd::arithmetic::power::lemma_pow1(1024);
        }
        lemma_unit(v, scale * 1024, i + 1);
    }
}

/// A size is shown in the largest unit of which there is one, to the nearest tenth of it; a size
/// below the smallest unit is shown as it is. Sizes up to what a double-precision number tells
/// apart are shown exactly so.
pub proof fn law_size_is_shown_in_its_unit(bytes: u64)
    requires
        bytes < 0x20_0000_0000_0000,
    ensures
        bytes < 1024 ==> format_util::size_text(bytes) == text::decimal(bytes as nat),
        bytes >= 1024 ==> exists|i: nat|
            {
                let unit = #[trigger] vstd::arithmetic::power::pow(1024, i);
                let tenths = format_util::rounded((bytes * 10) as nat, unit as nat);
                &&& 1 <= i <= 5 && unit <= bytes && (i < 5 ==> bytes < unit * 1024)
                &&& format_util::size_text(bytes) == text::decimal(tenths / 10) + "."@
                    + text::decimal(tenths % 10) + format_util::unit_letter(i)
            },
{
    let v = format_util::as_double(bytes as nat);
    assert(format_util::grain(bytes as nat) == 1);
    assert(format_util::rounded(bytes as nat, 1) == bytes) by {
        assert(bytes as nat / 1 == bytes && bytes as nat % 1 == 0);
    }
    assert(v == bytes);
    vstd::arithmetic::power::lemma_pow0(1024);
    lemma_unit(v, 1, 0);
    let (s, k) = format_util::unit_for(v, 1, 0);
    if bytes >= 1024 {
        assert(k > 0);
        assert(s == vstd::arithmetic::power::pow(1024, k));
        let unit = vstd::arithmetic::power::pow(1024, k);
        assert(unit as nat == s);
    }
}

/// The units go by their letters from a thousand bytes up, each by its own.
pub proof fn law_units_have_their_letters(i: nat, j: nat)
    requires
        1 <= i < j <= 5,
    ensures
        format_util::unit_letter(i).len() == 1,
        format_util::unit_letter(i) != format_util::unit_letter(j),
        format_util::unit_letter(1) == seq!['K'] && format_util::unit_letter(2) == seq!['M']
            && format_util::unit_letter(3) == seq!['G'] && format_util::unit_letter(4) == seq!['T']
            && format_util::unit_letter(5) == seq!['P'],
{
    reveal_strlit("K");
    reveal_strlit("M");
    reveal_strlit("G");
    reveal_strlit("T");
    reveal_strlit("P");
    assert("K"@ =~= seq!['K']);
    assert("M"@ =~= seq!['M']);
    assert("G"@ =~= seq!['G']);
    assert("T"@ =~= seq!['T']);
    assert("P"@ =~= seq!['P']);
    assert(seq!['K'][0] != seq!['M'][0] && seq!['K'][0] != seq!['G'][0] && seq!['K'][0]
        != seq!['T'][0] && seq!['K'][0] != seq!['P'][0] && seq!['M'][0] != seq!['G'][0]
        && seq!['M'][0] != seq!['T'][0] && seq!['M'][0] != seq!['P'][0] && seq!['G'][0]
        != seq!['T'][0] && seq!['G'][0] != seq!['P'][0] && seq!['T'][0] != seq!['P'][0]);
}

/// A text in a column is whole, fills the column, and stands at its side; one that is wider than
/// the column stands as it is.
pub proof fn law_columns_keep_the_text(s: Seq<char>, w: int)
    ensures
        ({
            let l = text::at_left(s, w);
            let r = text::at_right(s, w);
            &&& s.len() >= w ==> l == s && r == s
            &&& s.len() < w ==> l.len() == w && r.len() == w
            &&& l.take(s.len() as int) == s && r.skip(r.len() - s.len()) == s
            &&& forall|i: int| s.len() <= i < l.len() ==> #[trigger] l[i] == ' '
            &&& forall|i: int| 0 <= i < r.len() - s.len() ==> #[trigger] r[i] == ' '
        }),
{
}

/// A number that is filled up with zeros reads as the number, and is as long as asked for.
pub proof fn law_padding_keeps_the_number(n: nat, w: nat)
    ensures
        ({
            let p = text::padded(n, w);
            let d = text::decimal(n);
            &&& p.len() == if d.len() >= w { d.len() } else { w }
            &&& p.skip(p.len() - d.len()) == d
            &&& forall|i: int| 0 <= i < p.len() - d.len() ==> #[trigger] p[i] == '0'
        }),
{
    let d = text::decimal(n);
    if d.len() < w {
        lemma_zeros((w - d.len()) as nat);
    }
}

proof fn lemma_zeros(n: nat)
    ensures
        text::zeros(n).len() == n,
        forall|i: int| 0 <= i < n ==> #[trigger] text::zeros(n)[i] == '0',
    decreases n,
{
    if n > 0 {
        lemma_zeros((n - 1) as nat);
    }
}

/// A dump has a line for every sixteen bytes and for what is left, in their order; each line has
/// the bytes from its own offset on.
pub proof fn law_dump_shows_every_byte(b: Seq<u8>, at: int, k: int)
    requires
        0 <= at,
        0 <= k,
        at + 16 * k < b.len(),
    ensures
        ({
            let lines = tape::dump_from(b, at);
            let from = at + 16 * k;
            let to = if from + 16 < b.len() { from + 16 } else { b.len() as int };
            &&& k < lines.len()
            &&& lines[k] == "  "@ + text::hex_offset(from as nat) + ":"@ + tape::spaced_bytes(
                b.subrange(from, to),
            )
        }),
    decreases k,
{
    if k > 0 {
        law_dump_shows_every_byte(b, at + 16, k - 1);
    }
}

/// Each byte of a dump is shown by a space and its two digits, in the order of the bytes.
pub proof fn law_each_byte_has_its_place(b: Seq<u8>, i: int)
    requires
        0 <= i < b.len(),
    ensures
        ({
            let s = tape::spaced_bytes(b);
            &&& s.len() == 3 * b.len()
            &&& s.subrange(3 * i, 3 * i + 3) == seq![' '] + text::hex_digits(b[i] as nat, 2)
        }),
    decreases b.len(),
{
    reveal_strlit(" ");
    let prev = b.drop_last();
    lemma_spaced(b);
    lemma_spaced(prev);
    lemma_two_digits(b.last() as nat);
    let s = tape::spaced_bytes(b);
    if i < prev.len() {
        law_each_byte_has_its_place(prev, i);
        assert(s.subrange(3 * i, 3 * i + 3) =~= tape::spaced_bytes(prev).subrange(
            3 * i,
            3 * i + 3,
        ));
    } else {
        assert(s.subrange(3 * i, 3 * i + 3) =~= seq![' '] + text::hex_digits(b[i] as nat, 2));
    }
}

proof fn lemma_two_digits(n: nat)
    ensures
        text::hex_digits(n, 2).len() == 2,
{
    reveal_with_fuel(text::hex_digits, 3);
}

proof fn lemma_spaced(b: Seq<u8>)
    ensures
        tape::spaced_bytes(b).len() == 3 * b.len(),
    decreases b.len(),
{
    if b.len() > 0 {
        reveal_strlit(" ");
        lemma_spaced(b.drop_last());
        lemma_two_digits(b.last() as nat);
    }
}

} // verus!
