//! What is read of the devices of a library.
use vstd::prelude::*;

use crate::cli::inquiry;
use crate::cli::inquiry::{DesignatorView, EntryView, Hctl};
use crate::cli::ltfs;
use crate::cli::order;
use crate::cli::report;
use crate::daemon::request;
use crate::text;

verus! {

/// An identifier as a device writes it down.
pub open spec fn written_one(d: DesignatorView) -> Seq<u8> {
    seq![0u8, (d.association << 4u8) | d.designator_type, 0u8, d.data.len() as u8] + d.data
}

/// The identifiers one behind the other.
pub open spec fn written(ds: Seq<DesignatorView>) -> Seq<u8>
    decreases ds.len(),
{
    if ds.len() == 0 {
        Seq::empty()
    } else {
        written_one(ds[0]) + written(ds.skip(1))
    }
}

/// The parts of the identifier fit into their places.
pub open spec fn fits(d: DesignatorView) -> bool {
    d.association < 4 && d.designator_type < 16 && d.data.len() < 256
}

/// The identifiers that a device has written down are read back, all and in their order.
pub proof fn law_identifiers_are_read_back(head: Seq<u8>, ds: Seq<DesignatorView>)
    requires
        forall|i: int| 0 <= i < ds.len() ==> fits(#[trigger] ds[i]),
    ensures
        inquiry::designators(head + written(ds), head.len() as int) == ds,
    decreases ds.len(),
{
    let page = head + written(ds);
    let i = head.len() as int;
    if ds.len() > 0 {
        let d = ds[0];
        let one = written_one(d);
        let rest = ds.skip(1);
        assert(fits(d));
        assert forall|j: int| 0 <= j < rest.len() implies fits(#[trigger] rest[j]) by {
            assert(fits(ds[j + 1]));
        }
        law_identifiers_are_read_back(head + one, rest);
        assert((head + one) + written(rest) =~= page);
        assert(page[i + 1] == one[1]);
        assert(page[i + 3] == one[3]);
        let a = d.association;
        let t = d.designator_type;
        assert((((a << 4u8) | t) >> 4u8) & 0x03u8 == a && ((a << 4u8) | t) & 0x0Fu8 == t)
            by (bit_vector)
            requires
                a < 4,
                t < 16,
        ;
        assert(page.subrange(i + 4, i + 4 + d.data.len()) =~= d.data);
        assert(seq![d] + rest =~= ds);
    }
}

/// The identifier is of the logical unit itself, of this type, and not empty.
pub open spec fn names_unit(d: DesignatorView, ty: u8) -> bool {
    d.association == 0 && d.designator_type == ty && d.data.len() > 0
}

proof fn lemma_first_of_type(s: Seq<DesignatorView>, ty: u8)
    ensures
        inquiry::first_of_type(s, ty) is Some <==> exists|i: int|
            0 <= i < s.len() && names_unit(#[trigger] s[i], ty),
        inquiry::first_of_type(s, ty) is Some ==> exists|i: int|
            0 <= i < s.len() && names_unit(#[trigger] s[i], ty) && inquiry::first_of_type(s, ty)
                == Some(s[i].data) && forall|j: int| 0 <= j < i ==> !names_unit(#[trigger] s[j], ty),
    decreases s.len(),
{
    if s.len() > 0 {
        let t = s.drop_first();
        lemma_first_of_type(t, ty);
        if names_unit(s[0], ty) {
            assert(inquiry::first_of_type(s, ty) == Some(s[0].data));
        } else {
            assert(inquiry::first_of_type(s, ty) == inquiry::first_of_type(t, ty));
            if inquiry::first_of_type(t, ty) is Some {
                let i = choose|i: int|
                    0 <= i < t.len() && names_unit(#[trigger] t[i], ty) && inquiry::first_of_type(
                        t,
                        ty,
                    ) == Some(t[i].data) && forall|j: int|
                        0 <= j < i ==> !names_unit(#[trigger] t[j], ty);
                assert(s[i + 1] == t[i]);
                assert(names_unit(s[i + 1], ty));
                assert forall|j: int| 0 <= j < i + 1 implies !names_unit(#[trigger] s[j], ty) by {
                    if j > 0 {
                        assert(t[j - 1] == s[j]);
                    }
                }
            }
            if exists|i: int| 0 <= i < s.len() && names_unit(#[trigger] s[i], ty) {
                let i = choose|i: int| 0 <= i < s.len() && names_unit(#[trigger] s[i], ty);
                assert(t[i - 1] == s[i]);
            }
        }
    }
}

/// A unit is known by an identifier of its own that is not empty: one of the types 3, 2, 8 and 1, in
/// that order of preference, and of one type the first.
pub proof fn law_which_identifier_counts(s: Seq<DesignatorView>, ty: u8)
    ensures
        inquiry::picked_id(s) is Some <==> exists|i: int|
            0 <= i < s.len() && (names_unit(#[trigger] s[i], 3) || names_unit(s[i], 2)
                || names_unit(s[i], 8) || names_unit(s[i], 1)),
        inquiry::first_of_type(s, 3) is Some ==> inquiry::picked_id(s) == inquiry::first_of_type(
            s,
            3,
        ),
        inquiry::first_of_type(s, 3) is None && inquiry::first_of_type(s, 2) is Some
            ==> inquiry::picked_id(s) == inquiry::first_of_type(s, 2),
        inquiry::first_of_type(s, 3) is None && inquiry::first_of_type(s, 2) is None
            && inquiry::first_of_type(s, 8) is Some ==> inquiry::picked_id(s)
            == inquiry::first_of_type(s, 8),
        inquiry::first_of_type(s, ty) is Some ==> exists|i: int|
            0 <= i < s.len() && names_unit(#[trigger] s[i], ty) && inquiry::first_of_type(s, ty)
                == Some(s[i].data) && forall|j: int| 0 <= j < i ==> !names_unit(#[trigger] s[j], ty),
{
    lemma_first_of_type(s, ty);
    lemma_first_of_type(s, 3);
    lemma_first_of_type(s, 2);
    lemma_first_of_type(s, 8);
    lemma_first_of_type(s, 1);
    if inquiry::picked_id(s) is Some {
        let i = if inquiry::first_of_type(s, 3) is Some {
            choose|i: int| 0 <= i < s.len() && names_unit(#[trigger] s[i], 3)
        } else if inquiry::first_of_type(s, 2) is Some {
            choose|i: int| 0 <= i < s.len() && names_unit(#[trigger] s[i], 2)
        } else if inquiry::first_of_type(s, 8) is Some {
            choose|i: int| 0 <= i < s.len() && names_unit(#[trigger] s[i], 8)
        } else {
            choose|i: int| 0 <= i < s.len() && names_unit(#[trigger] s[i], 1)
        };
        assert(0 <= i < s.len());
        assert(names_unit(s[i], 3) || names_unit(s[i], 2) || names_unit(s[i], 8) || names_unit(
            s[i],
            1,
        ));
    }
}

/// The identification page of a device, with as much behind it as the buffer has room for, gives the
/// identifier that counts of those written in it.
pub proof fn law_identification_page_is_read(
    first: u8,
    ds: Seq<DesignatorView>,
    behind: Seq<u8>,
)
    requires
        forall|i: int| 0 <= i < ds.len() ==> fits(#[trigger] ds[i]),
        written(ds).len() < 0x10000,
    ensures
        ({
            let n = written(ds).len();
            let head = seq![first, 0x83u8, (n / 256) as u8, (n % 256) as u8];
            inquiry::lu_id_in(head + written(ds) + behind) == inquiry::picked_id(ds)
        }),
{
    let n = written(ds).len();
    let head = seq![first, 0x83u8, (n / 256) as u8, (n % 256) as u8];
    let buf = head + written(ds) + behind;
    assert(buf[1] == 0x83);
    assert(buf[2] as int * 256 + buf[3] as int == n);
    assert(buf.take(4 + n as int) =~= head + written(ds));
    law_identifiers_are_read_back(head, ds);
}

proof fn lemma_one_piece(t: Seq<char>, c: char)
    requires
        !t.contains(c),
    ensures
        text::split(t, c) == seq![t],
    decreases t.len(),
{
    if t.len() > 0 {
        let u = t.drop_last();
        assert(!u.contains(c)) by {
            if u.contains(c) {
                let j = choose|j: int| 0 <= j < u.len() && u[j] == c;
                assert(t[j] == c);
            }
        }
        lemma_one_piece(u, c);
        assert(t[t.len() - 1] == t.last());
        assert(u.push(t.last()) =~= t);
        assert(seq![u].drop_last().push(t) =~= seq![t]);
    } else {
        assert(t =~= Seq::<char>::empty());
    }
}

proof fn lemma_one_more_piece(s: Seq<char>, t: Seq<char>, c: char)
    requires
        !t.contains(c),
    ensures
        text::split(s + seq![c] + t, c) == text::split(s, c).push(t),
    decreases t.len(),
{
    let all = s + seq![c] + t;
    if t.len() == 0 {
        assert(all.drop_last() =~= s);
        assert(t =~= Seq::<char>::empty());
    } else {
        let u = t.drop_last();
        assert(!u.contains(c)) by {
            if u.contains(c) {
                let j = choose|j: int| 0 <= j < u.len() && u[j] == c;
                assert(t[j] == c);
            }
        }
        lemma_one_more_piece(s, u, c);
        assert(all.drop_last() =~= s + seq![c] + u);
        assert(t[t.len() - 1] == all.last());
        assert(u.push(t.last()) =~= t);
        assert(text::split(s, c).push(u).drop_last() =~= text::split(s, c));
    }
}

proof fn lemma_no_colon(n: u32)
    ensures
        !text::decimal(n as nat).contains(':'),
        text::parse_number(text::decimal(n as nat), u32::MAX as nat) == Some(n as nat),
{
    text::lemma_decimal(n as nat, u32::MAX as nat);
}

/// The place of a device is read from its name: host, channel, target and unit, in that order.
pub proof fn law_place_is_read_from_the_name(h: Hctl)
    ensures
        inquiry::hctl_of(
            text::decimal(h.host as nat) + seq![':'] + text::decimal(h.channel as nat) + seq![':']
                + text::decimal(h.target as nat) + seq![':'] + text::decimal(h.lun as nat),
        ) == Some(h),
{
    lemma_no_colon(h.host);
    lemma_no_colon(h.channel);
    lemma_no_colon(h.target);
    lemma_no_colon(h.lun);
    let a = text::decimal(h.host as nat);
    let b = a + seq![':'] + text::decimal(h.channel as nat);
    let c = b + seq![':'] + text::decimal(h.target as nat);
    lemma_one_piece(a, ':');
    lemma_one_more_piece(a, text::decimal(h.channel as nat), ':');
    lemma_one_more_piece(b, text::decimal(h.target as nat), ':');
    lemma_one_more_piece(c, text::decimal(h.lun as nat), ':');
}

/// A drive is paired with the first path of the changer that is on its target; a drive without a
/// known place has none.
pub proof fn law_control_path_is_on_the_target(drive: EntryView, changers: Seq<EntryView>, k: int)
    ensures
        inquiry::paired(drive, changers) is Some <==> drive.hctl is Some && exists|i: int|
            0 <= i < changers.len() && (#[trigger] changers[i]).target_key() == drive.target_key(),
        drive.hctl is Some && 0 <= k < changers.len() && changers[k].target_key()
            == drive.target_key() && (forall|j: int|
            0 <= j < k ==> (#[trigger] changers[j]).target_key() != drive.target_key())
            ==> inquiry::paired(drive, changers) == Some(changers[k].path),
    decreases changers.len(),
{
    if changers.len() > 0 {
        let t = changers.drop_first();
        law_control_path_is_on_the_target(drive, t, k - 1);
        if exists|i: int|
            0 <= i < t.len() && (#[trigger] t[i]).target_key() == drive.target_key() {
            let i = choose|i: int|
                0 <= i < t.len() && (#[trigger] t[i]).target_key() == drive.target_key();
            assert(changers[i + 1].target_key() == drive.target_key());
        }
        if exists|i: int|
            0 <= i < changers.len() && (#[trigger] changers[i]).target_key()
                == drive.target_key() {
            let i = choose|i: int|
                0 <= i < changers.len() && (#[trigger] changers[i]).target_key()
                    == drive.target_key();
            if i > 0 {
                assert(t[i - 1].target_key() == drive.target_key());
            }
        }
        if k > 0 && (forall|j: int|
            0 <= j < k ==> (#[trigger] changers[j]).target_key() != drive.target_key()) {
            assert(changers[0].target_key() != drive.target_key());
            assert forall|j: int| 0 <= j < k - 1 && j < t.len() implies (#[trigger] t[j]).target_key()
                != drive.target_key() by {
                assert(changers[j + 1].target_key() != drive.target_key());
            }
        }
    }
}

/// Devices stand in one group just where their keys agree in all but the unit; what has no known
/// place comes before what has one, and on one target the smaller unit comes first.
pub proof fn law_groups_are_targets(a: Option<Hctl>, b: Option<Hctl>)
    ensures
        report::same_group(a, b) <==> report::place_key(a).take(4) == report::place_key(b).take(4),
        a is None && b is Some ==> order::lt(report::place_key(a), report::place_key(b))
            && !order::lt(report::place_key(b), report::place_key(a)),
        a is Some && b is Some && report::same_group(a, b) ==> (order::lt(
            report::place_key(a),
            report::place_key(b),
        ) <==> a->0.lun < b->0.lun),
{
    let x = report::place_key(a);
    let y = report::place_key(b);
    assert(x.take(4) == y.take(4) <==> x[0] == y[0] && x[1] == y[1] && x[2] == y[2] && x[3]
        == y[3]) by {
        if x.take(4) == y.take(4) {
            assert(x.take(4)[0] == y.take(4)[0] && x.take(4)[1] == y.take(4)[1] && x.take(4)[2]
                == y.take(4)[2] && x.take(4)[3] == y.take(4)[3]);
        }
        if x[0] == y[0] && x[1] == y[1] && x[2] == y[2] && x[3] == y[3] {
            assert(x.take(4) =~= y.take(4));
        }
    }
    reveal_with_fuel(order::lt, 6);
}

/// An attribute is a name, an equals sign and a value, which may hold further equals signs; a text
/// without an equals sign, or with none before it, is no attribute.
pub proof fn law_attribute_is_read(k: Seq<char>, v: Seq<char>)
    requires
        !k.contains('='),
    ensures
        k.len() > 0 ==> ltfs::attribute(k + seq!['='] + v) == Some((k, v)),
        k.len() == 0 ==> ltfs::attribute(k + seq!['='] + v) is None,
        ltfs::attribute(k) is None,
{
    let s = k + seq!['='] + v;
    text::lemma_first(s, '=');
    text::lemma_first(k, '=');
    assert(s[k.len() as int] == '=');
    let at = text::first(s, '=') as int;
    assert(at == k.len()) by {
        if at < k.len() {
            assert(k[at] == s[at]);
        }
    }
    assert(s.take(at) =~= k);
    assert(s.skip(at + 1) =~= v);
    assert(request::cut(s, '=') == Some((k, v)));
}

/// All texts are attributes just where none is found to be bad; else the first that is not is told.
pub proof fn law_first_bad_attribute_is_told(v: Seq<Seq<char>>)
    ensures
        ltfs::first_bad(v) is None <==> forall|i: int|
            0 <= i < v.len() ==> ltfs::attribute(#[trigger] v[i]) is Some,
        ltfs::first_bad(v) matches Some(s) ==> exists|i: int|
            0 <= i < v.len() && #[trigger] v[i] == s && ltfs::attribute(s) is None && forall|j: int|
                0 <= j < i ==> ltfs::attribute(#[trigger] v[j]) is Some,
    decreases v.len(),
{
    if v.len() > 0 {
        let prev = v.drop_last();
        law_first_bad_attribute_is_told(prev);
        assert(v[v.len() - 1] == v.last());
        if ltfs::first_bad(prev) is Some {
            let s = ltfs::first_bad(prev)->0;
            let i = choose|i: int|
                0 <= i < prev.len() && #[trigger] prev[i] == s && ltfs::attribute(s) is None
                    && forall|j: int| 0 <= j < i ==> ltfs::attribute(#[trigger] prev[j]) is Some;
            assert(v[i] == s);
            assert forall|j: int| 0 <= j < i implies ltfs::attribute(#[trigger] v[j]) is Some by {
                assert(prev[j] == v[j]);
            }
        } else {
            assert forall|j: int| 0 <= j < prev.len() implies ltfs::attribute(
                #[trigger] v[j],
            ) is Some by {
                assert(prev[j] == v[j]);
            }
        }
    }
}

} // verus!
