//! What holds of the numbers and reports that the command line reads.
use vstd::prelude::*;

use crate::catalog::query;
use crate::catalog::query::CapacitySnapshot;
use crate::changer::element::{ElementAddressMap, StatusView};
use crate::cli::changer;
use crate::cli::tape;
use crate::text;

verus! {

/// Storage slots count from one and drives from zero, each within its range of addresses; a number
/// outside of the range names none. Two numbers never name one element.
pub proof fn law_numbers_name_elements(m: ElementAddressMap, a: u16, b: u16)
    requires
        m.storage_start + m.storage_count <= 0x1_0000,
        m.dt_start + m.dt_count <= 0x1_0000,
    ensures
        changer::slot_address(m, a) is Ok <==> 1 <= a <= m.storage_count,
        changer::slot_address(m, a) matches Ok(x) ==> x == m.storage_start + a - 1
            && changer::among(x, m.storage_start, m.storage_count),
        changer::drive_address(m, a) is Ok <==> a < m.dt_count,
        changer::drive_address(m, a) matches Ok(x) ==> x == m.dt_start + a && changer::among(
            x,
            m.dt_start,
            m.dt_count,
        ),
        a != b && changer::slot_address(m, a) is Ok && changer::slot_address(m, b) is Ok
            ==> changer::slot_address(m, a)->Ok_0 != changer::slot_address(m, b)->Ok_0,
        changer::among(a, m.storage_start, m.storage_count) <==> m.storage_start <= a && a
            < m.storage_start + m.storage_count,
{
}

proof fn lemma_report_on(s: Seq<StatusView>, addr: u16)
    ensures
        match changer::report_on(s, addr) {
            Some(e) => exists|i: int| 0 <= i < s.len() && #[trigger] s[i] == e && e.address == addr
                && forall|j: int| 0 <= j < i ==> (#[trigger] s[j]).address != addr,
            None => forall|i: int| 0 <= i < s.len() ==> (#[trigger] s[i]).address != addr,
        },
    decreases s.len(),
{
    if s.len() > 0 {
        let rest = s.drop_first();
        lemma_report_on(rest, addr);
        if s[0].address == addr {
            assert(s[0] == s[0]);
        } else {
            match changer::report_on(rest, addr) {
                Some(e) => {
                    let i = choose|i: int|
                        0 <= i < rest.len() && #[trigger] rest[i] == e && e.address == addr
                            && forall|j: int|
                            0 <= j < i ==> (#[trigger] rest[j]).address != addr;
                    assert(s[i + 1] == e);
                    assert forall|j: int| 0 <= j < i + 1 implies (
                    #[trigger] s[j]).address != addr by {
                        if j > 0 {
                            assert(rest[j - 1] == s[j]);
                        }
                    }
                },
                None => {
                    assert forall|i: int| 0 <= i < s.len() implies (
                    #[trigger] s[i]).address != addr by {
                        if i > 0 {
                            assert(rest[i - 1] == s[i]);
                        }
                    }
                },
            }
        }
    }
}

/// A report tells of the element that it is full, or that it is empty.
pub open spec fn told(s: Seq<StatusView>, addr: u16, full: bool) -> bool {
    exists|i: int| 0 <= i < s.len() && (#[trigger] s[i]).address == addr && s[i].full == full
}

proof fn lemma_told(s: Seq<StatusView>, addr: u16, full: bool)
    requires
        forall|i: int, j: int|
            0 <= i < j < s.len() ==> (#[trigger] s[i]).address != (#[trigger] s[j]).address,
    ensures
        told(s, addr, full) <==> changer::report_on(s, addr) is Some && changer::report_on(
            s,
            addr,
        )->0.full == full,
{
    lemma_report_on(s, addr);
    if changer::report_on(s, addr) is Some {
        let e = changer::report_on(s, addr)->0;
        let j = choose|j: int|
            0 <= j < s.len() && #[trigger] s[j] == e && e.address == addr && forall|k: int|
                0 <= k < j ==> (#[trigger] s[k]).address != addr;
        assert(s[j] == e);
        if told(s, addr, full) {
            let i = choose|i: int|
                0 <= i < s.len() && (#[trigger] s[i]).address == addr && s[i].full == full;
            if i < j {
                assert(s[i].address != s[j].address);
            } else if j < i {
                assert(s[j].address != s[i].address);
            }
        }
    }
}

/// A move took place just where the reports tell of both elements that the source is empty and the
/// destination full.
pub proof fn law_move_is_believed_when_seen(
    s: Seq<StatusView>,
    m: ElementAddressMap,
    source: u16,
    dest: u16,
)
    requires
        forall|i: int, j: int|
            0 <= i < j < s.len() ==> (#[trigger] s[i]).address != (#[trigger] s[j]).address,
    ensures
        changer::move_result(s, m, source, dest) is Ok <==> told(s, source, false) && told(
            s,
            dest,
            true,
        ),
{
    lemma_told(s, source, false);
    lemma_told(s, dest, true);
}

/// The capacity that is shown is the reading of the drive where there is one, else the last that is
/// stored; it is marked as what it is.
pub proof fn law_fresh_reading_comes_first(
    realtime: Map<Seq<char>, CapacitySnapshot>,
    stored: Map<Seq<char>, CapacitySnapshot>,
    tag: Seq<char>,
)
    ensures
        ({
            let shown = changer::capacity_shown(realtime, stored, Some(tag));
            &&& realtime.contains_key(tag) ==> shown == Some((realtime[tag], true))
            &&& realtime == Map::<Seq<char>, CapacitySnapshot>::empty() && stored.contains_key(tag)
                ==> shown == Some((stored[tag], false))
            &&& shown is Some && (shown->0).1 ==> changer::cached(realtime, Some(tag)) == Some(
                (shown->0).0,
            )
            &&& changer::capacity_shown(realtime, stored, None) is None
        }),
{
}

/// What is used and what is left make up the whole, as long as no more is left than there is.
pub proof fn law_used_and_left_make_the_whole(total: u64, remaining: u64)
    ensures
        remaining <= total ==> query::less_by(total, remaining) + remaining == total,
        remaining > total ==> query::less_by(total, remaining) == 0,
{
}

/// A search without wildcards finds its text anywhere; with one it stands for itself.
pub proof fn law_search_pattern(pattern: Seq<char>)
    ensures
        !pattern.contains('%') && !pattern.contains('_') ==> {
            let p = query::like(pattern);
            p.len() == pattern.len() + 2 && p[0] == '%' && p.last() == '%' && p.subrange(
                1,
                p.len() - 1,
            ) == pattern
        },
        pattern.contains('%') || pattern.contains('_') ==> query::like(pattern) == pattern,
{
    reveal_strlit("%");
    let p = query::like(pattern);
    if !pattern.contains('%') && !pattern.contains('_') {
        assert(p.subrange(1, p.len() - 1) =~= pattern);
    }
}

/// A number that is written in decimal is read back in base ten.
pub proof fn law_decimal_is_read_back(n: nat, max: nat)
    requires
        n <= max,
    ensures
        changer::radix_value(text::decimal(n), 10, max) == Some(n),
    decreases n,
{
    lemma_digits(n, max);
    text::lemma_decimal(n, max);
    assert(text::decimal(n)[0] != '+');
}

proof fn lemma_digits(n: nat, max: nat)
    requires
        n <= max,
    ensures
        changer::digits_value(text::decimal(n), 10, max) == Some(n),
    decreases n,
{
    let d = text::decimal(n);
    if n < 10 {
        assert(text::digit_char(n) as nat == n + 48);
        assert(d =~= seq![text::digit_char(n)]);
    } else {
        text::lemma_decimal(n / 10, max);
        lemma_digits(n / 10, max);
        assert(text::digit_char(n % 10) as nat == n % 10 + 48);
        assert(d.drop_last() =~= text::decimal(n / 10));
        assert(d.last() == text::digit_char(n % 10));
        assert((n / 10) * 10 + n % 10 == n);
    }
}

/// Numbers in a reply have the most significant byte first.
pub proof fn law_reply_numbers_are_big_endian(d: Seq<u8>, at: int)
    ensures
        tape::number_at(d, at, 2) == d[at] * 0x100 + d[at + 1],
        tape::number_at(d, at, 3) == d[at] * 0x1_0000 + d[at + 1] * 0x100 + d[at + 2],
        tape::number_at(d, at, 4) == d[at] * 0x100_0000 + d[at + 1] * 0x1_0000 + d[at + 2] * 0x100
            + d[at + 3],
{
    reveal_with_fuel(tape::number_at, 5);
}

/// Each density that a reply holds is told, in order: as many as there are whole descriptors, each
/// from the bytes of its own.
pub proof fn law_densities_are_read(d: Seq<u8>, o: int, end: int, j: int)
    requires
        0 <= o <= end <= d.len(),
        0 <= j,
        o + (j + 1) * 52 <= end,
    ensures
        ({
            let v = tape::densities(d, o, end);
            let at = o + j * 52;
            let x = v[j];
            &&& j < v.len()
            &&& x.code == d[at] && x.secondary == d[at + 1]
            &&& x.writable <==> d[at + 2] >= 0x80
            &&& x.bits_per_mm == d[at + 5] * 0x1_0000 + d[at + 6] * 0x100 + d[at + 7]
            &&& x.tracks == d[at + 8] * 0x100 + d[at + 9]
            &&& x.capacity == d[at + 10] * 0x100_0000 + d[at + 11] * 0x1_0000 + d[at + 12] * 0x100
                + d[at + 13]
        }),
    decreases j,
{
    if j == 0 {
        law_reply_numbers_are_big_endian(d, o + 5);
        law_reply_numbers_are_big_endian(d, o + 8);
        law_reply_numbers_are_big_endian(d, o + 10);
    } else {
        law_densities_are_read(d, o + 52, end, j - 1);
        assert(tape::densities(d, o, end)[j] == tape::densities(d, o + 52, end)[j - 1]);
    }
}

} // verus!
