//! How addresses of elements are written on a command line.
use vstd::prelude::*;

use crate::cli::changer;
use crate::cli::laws;
use crate::text;

verus! {

proof fn lemma_no_prefix(s: Seq<char>, p: Seq<char>)
    requires
        p.len() > 0,
        !text::has_prefix(s, p),
    ensures
        changer::trim_prefix(s, p) == s,
{
}

/// A number stands for the element with this address; behind `0x` or `0X` its digits are taken as
/// hexadecimal.
pub proof fn law_address_is_read(n: nat, digits: Seq<char>)
    requires
        n <= 0xffff,
        !text::has_prefix(digits, "0x"@),
        !text::has_prefix(digits, "0X"@),
    ensures
        changer::radix_value(
            changer::address_digits(text::decimal(n)),
            changer::address_radix(text::decimal(n)),
            0xffff,
        ) == Some(n),
        changer::address_radix("0x"@ + digits) == 16 && changer::address_digits("0x"@ + digits)
            == digits,
        changer::address_radix("0X"@ + digits) == 16 && changer::address_digits("0X"@ + digits)
            == digits,
        changer::address_radix(digits) == 10 && changer::address_digits(digits) == digits,
{
    reveal_strlit("0x");
    reveal_strlit("0X");
    let d = text::decimal(n);
    text::lemma_decimal(n, 0xffff);
    assert(!text::has_prefix(d, "0x"@)) by {
        if text::has_prefix(d, "0x"@) {
            assert(d[1] == d.take(2)[1]);
            assert("0x"@[1] == 'x');
        }
    }
    assert(!text::has_prefix(d, "0X"@)) by {
        if text::has_prefix(d, "0X"@) {
            assert(d[1] == d.take(2)[1]);
            assert("0X"@[1] == 'X');
        }
    }
    lemma_no_prefix(d, "0x"@);
    lemma_no_prefix(d, "0X"@);
    laws::law_decimal_is_read_back(n, 0xffff);
    lemma_no_prefix(digits, "0x"@);
    lemma_no_prefix(digits, "0X"@);
    let a = "0x"@ + digits;
    let b = "0X"@ + digits;
    assert(a.take(2) =~= "0x"@);
    assert(a.skip(2) =~= digits);
    assert(b.take(2) =~= "0X"@);
    assert(b.skip(2) =~= digits);
    assert(!text::has_prefix(b, "0x"@)) by {
        if text::has_prefix(b, "0x"@) {
            assert(b.take(2)[1] == 'X');
            assert("0x"@[1] == 'x');
        }
    }
    lemma_no_prefix(b, "0x"@);
    reveal_with_fuel(changer::trim_prefix, 2);
}

} // verus!
