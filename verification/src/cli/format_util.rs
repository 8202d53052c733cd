//! Sizes for people.
use vstd::prelude::*;

use crate::text;

verus! {

/// `a / b` rounded to the nearest whole number, to the even one of two equally near.
pub open spec fn rounded(a: nat, b: nat) -> nat {
    let q = a / b;
    let twice = 2 * (a % b);
    if twice < b || (twice == b && q % 2 == 0) {
        q
    } else {
        q + 1
    }
}

/// The spacing of double-precision numbers around the whole number `n`.
pub open spec fn grain(n: nat) -> nat
    decreases n,
{
    if n < 0x20_0000_0000_0000 {
        1
    } else {
        2 * grain(n / 2)
    }
}

/// The double-precision number nearest to the whole number `n`.
pub open spec fn as_double(n: nat) -> nat {
    rounded(n, grain(n)) * grain(n)
}

/// The unit that a size is shown in, from the unit `i` of `scale` bytes on: the largest of which
/// there is one.
pub open spec fn unit_for(v: nat, scale: nat, i: nat) -> (nat, nat)
    decreases 5 - i,
{
    if i < 5 && v >= scale * 1024 {
        unit_for(v, scale * 1024, i + 1)
    } else {
        (scale, i)
    }
}

/// The letter of a unit.
pub open spec fn unit_letter(i: nat) -> Seq<char> {
    if i == 1 {
        "K"@
    } else if i == 2 {
        "M"@
    } else if i == 3 {
        "G"@
    } else if i == 4 {
        "T"@
    } else {
        "P"@
    }
}

/// A size in units of powers of 1024, with one decimal place; plain below one such unit.
pub open spec fn size_text(bytes: u64) -> Seq<char> {
    let v = as_double(bytes as nat);
    let (scale, i) = unit_for(v, 1, 0);
    if i == 0 {
        text::decimal(bytes as nat)
    } else {
        let tenths = rounded(v * 10, scale);
        text::decimal(tenths / 10) + "."@ + text::decimal(tenths % 10) + unit_letter(i)
    }
}

fn round_div(a: u128, b: u128) -> (r: u128)
    requires
        0 < b <= 0x1_0000_0000_0000_0000,
        a < 0x1000_0000_0000_0000_0000,
    ensures
        r == rounded(a as nat, b as nat),
{
    let q: u128 = a / b;
    assert(q <= a) by (nonlinear_arith)
        requires
            b > 0,
            q == a / b,
    ;
    let twice: u128 = 2 * (a % b);
    if twice < b || (twice == b && q % 2 == 0) {
        q
    } else {
        q + 1
    }
}

fn spacing(n: u64) -> (r: u64)
    ensures
        r == grain(n as nat),
        1 <= r,
        n < 0x20_0000_0000_0000 ==> r == 1,
        n >= 0x20_0000_0000_0000 ==> r <= n,
    decreases n,
{
    if n < 0x20_0000_0000_0000 {
        1
    } else {
        2 * spacing(n / 2)
    }
}

fn pick_unit(v: u128, scale: u128, i: u64) -> (r: (u128, u64))
    requires
        i <= 5,
        1 <= scale <= v + 1,
        v <= 0x3_0000_0000_0000_0000,
        i == 0 || scale <= v,
    ensures
        (r.0 as nat, r.1 as nat) == unit_for(v as nat, scale as nat, i as nat),
        1 <= r.0,
        r.1 <= 5,
        r.1 == 0 || r.0 <= v,
    decreases 5 - i,
{
    if i < 5 && v >= scale * 1024 {
        pick_unit(v, scale * 1024, i + 1)
    } else {
        (scale, i)
    }
}

/// A size for people, such as `3.0G` for 3221225472 bytes.
pub fn format_size(bytes: u64) -> (r: String)
    ensures
        r@ == size_text(bytes),
{
    let g: u64 = spacing(bytes);
    let q: u128 = round_div(bytes as u128, g as u128);
    proof {
        lemma_double_bound(bytes as nat, g as nat);
        assert(q * g <= bytes + g);
        assert(bytes as nat * 1 == bytes as nat);
    }
    let v: u128 = q * (g as u128);
    let (scale, i) = pick_unit(v, 1, 0);
    if i == 0 {
        return text::decimal_text(bytes);
    }
    proof {
        lemma_unit_bound(v as nat, 1, 0);
    }
    let t: u128 = round_div(v * 10, scale);
    proof {
        lemma_tenths(v as nat, scale as nat);
    }
    let whole = text::decimal_text((t / 10) as u64);
    let part = text::decimal_text((t % 10) as u64);
    let unit: &str = if i == 1 {
        "K"
    } else if i == 2 {
        "M"
    } else if i == 3 {
        "G"
    } else if i == 4 {
        "T"
    } else {
        "P"
    };
    text::cat4(whole.as_str(), ".", part.as_str(), unit)
}

proof fn lemma_double_bound(n: nat, g: nat)
    requires
        g > 0,
    ensures
        rounded(n, g) * g <= n + g,
{
    let q = n / g;
    assert(q * g <= n) by (nonlinear_arith)
        requires
            g > 0,
            q == n / g,
    ;
    assert((q + 1) * g == q * g + g) by (nonlinear_arith);
}

proof fn lemma_unit_bound(v: nat, scale: nat, i: nat)
    requires
        i <= 5,
        scale >= 1,
        scale == 1 || scale <= v,
        i > 0 ==> scale >= 1024,
        scale <= 0x4_0000_0000_0000,
        i == 0 ==> scale == 1,
        i == 1 ==> scale == 1024,
        i == 2 ==> scale == 0x10_0000,
        i == 3 ==> scale == 0x4000_0000,
        i == 4 ==> scale == 0x100_0000_0000,
        i == 5 ==> scale == 0x4_0000_0000_0000,
    ensures
        unit_for(v, scale, i).1 >= 5 ==> unit_for(v, scale, i).0 == 0x4_0000_0000_0000,
        unit_for(v, scale, i).0 <= 0x4_0000_0000_0000,
        unit_for(v, scale, i).1 < 5 ==> v < unit_for(v, scale, i).0 * 1024,
    decreases 5 - i,
{
    if i < 5 && v >= scale * 1024 {
        lemma_unit_bound(v, scale * 1024, i + 1);
    }
}

proof fn lemma_tenths(v: nat, scale: nat)
    requires
        scale >= 1,
        v <= 0x3_0000_0000_0000_0000,
        v < scale * 1024 || scale >= 0x4_0000_0000_0000,
    ensures
        rounded(v * 10, scale) <= 0xffff_ffff,
{
    let a = v * 10;
    let q = a / scale;
    assert(q <= 0x1_0000_0000 - 2) by (nonlinear_arith)
        requires
            scale >= 1,
            a == v * 10,
            q == a / scale,
            v <= 0x3_0000_0000_0000_0000,
            v < scale * 1024 || scale >= 0x4_0000_0000_0000,
    ;
}

} // verus!
