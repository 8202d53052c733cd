//! What holds of the reports of a medium changer.
use vstd::prelude::*;

use crate::changer::commands;
use crate::changer::element::{ElementAddressMap, ElementType, StatusView};
use crate::text;

verus! {

/// A printable character that is no blank.
pub open spec fn graphic(b: u8) -> bool {
    0x21 <= b <= 0x7e
}

/// A byte that fills a volume tag up.
pub open spec fn filler(b: u8) -> bool {
    b == 0 || b == 0x20
}

/// A tag of `n` characters stands in the 32 bytes from `at` on: printable ones, the first and the
/// last of them no blanks, and behind them only fillers.
pub open spec fn tag_stands(data: Seq<u8>, at: int, n: int) -> bool {
    &&& 0 < n <= 32
    &&& 0 <= at && at + 32 <= data.len()
    &&& graphic(data[at])
    &&& graphic(data[at + n - 1])
    &&& forall|i: int| at <= i < at + n ==> graphic(#[trigger] data[i]) || data[i] == 0x20
    &&& forall|i: int| at + n <= i < at + 32 ==> filler(#[trigger] data[i])
}

/// The characters of printable bytes.
pub open spec fn characters(data: Seq<u8>, at: int, n: int) -> Seq<char> {
    Seq::new(n as nat, |i: int| data[at + i] as char)
}

proof fn lemma_trim_end(s: Seq<char>, n: int)
    requires
        0 < n <= s.len(),
        !commands::padding(s[n - 1]),
        forall|i: int| n <= i < s.len() ==> commands::padding(#[trigger] s[i]),
    ensures
        text::trim_end(s, |c: char| commands::padding(c)) == s.take(n),
    decreases s.len(),
{
    if s.len() > n {
        lemma_trim_end(s.drop_last(), n);
        assert(s.drop_last().take(n) =~= s.take(n));
    } else {
        assert(s.take(n) =~= s);
    }
}

proof fn lemma_ascii(b: Seq<u8>)
    requires
        forall|i: int| 0 <= i < b.len() ==> #[trigger] b[i] < 0x80,
    ensures
        text::read_as_text(b) == characters(b, 0, b.len() as int),
{
    let chars = characters(b, 0, b.len() as int);
    assert forall|i: int| 0 <= i < chars.len() implies '\0' <= #[trigger] chars[i] <= '\u{7f}'
        && chars[i] as u8 == b[i] by {
        assert(b[i] < 0x80);
    }
    vstd::utf8::is_ascii_chars_encode_utf8(chars);
    vstd::utf8::encode_utf8_valid_utf8(chars);
    vstd::utf8::encode_utf8_decode_utf8(chars);
    assert(vstd::utf8::encode_utf8(chars) =~= b) by {
        assert forall|i: int| 0 <= i < b.len() implies vstd::utf8::encode_utf8(chars)[i] == b[i] by {
            assert(chars[i] as u8 == b[i]);
        }
    }
}

/// A descriptor that carries tags and has a printable barcode in its tag gives an element with that
/// barcode; one whose tag is all fillers, or is cut off, gives none, and so does every descriptor
/// that carries no tags.
pub proof fn law_barcode_is_read(desc: Seq<u8>, code: u8, n: int)
    ensures
        tag_stands(desc, 12, n) ==> commands::descriptor(desc, code, true).volume_tag == Some(
            characters(desc, 12, n),
        ),
        (desc.len() < 44 || forall|i: int| 12 <= i < 44 ==> filler(#[trigger] desc[i]))
            ==> commands::descriptor(desc, code, true).volume_tag is None,
        commands::descriptor(desc, code, false).volume_tag is None,
{
    let b = desc.subrange(12, 44);
    if tag_stands(desc, 12, n) {
        assert forall|i: int| 0 <= i < 32 implies #[trigger] b[i] < 0x80 by {
            assert(b[i] == desc[12 + i]);
        }
        lemma_ascii(b);
        let s = characters(b, 0, 32);
        assert(s[0] == desc[12] as char);
        let drop = |c: char| commands::padding(c);
        assert(b[0] == desc[12]);
        assert(text::trim_start(s, drop) == s);
        assert forall|i: int| n <= i < 32 implies commands::padding(#[trigger] s[i]) by {
            assert(filler(desc[12 + i]));
            assert(b[i] == desc[12 + i]);
        }
        assert(b[n - 1] == desc[12 + n - 1]);
        assert(s[n - 1] == desc[12 + n - 1] as char);
        lemma_trim_end(s, n);
        assert(s.take(n) =~= characters(desc, 12, n));
        assert(!(b[0] == 0 || b[0] == 0x20));
    }
    if desc.len() >= 44 && forall|i: int| 12 <= i < 44 ==> filler(#[trigger] desc[i]) {
        assert forall|i: int| 0 <= i < 32 implies #[trigger] b[i] == 0 || b[i] == 0x20 by {
            assert(filler(desc[12 + i]));
        }
    }
}

/// Two and three bytes are numbers with the most significant byte first.
pub proof fn law_numbers_are_big_endian(data: Seq<u8>, i: int)
    ensures
        commands::be16(data, i) == data[i] * 0x100 + data[i + 1],
        commands::be24(data, i) == data[i] * 0x1_0000 + data[i + 1] * 0x100 + data[i + 2],
{
    assert(data[i] * 0x100 + data[i + 1] <= 0xffff);
}

/// What an element of a page says, in the bytes of its descriptor at `at`.
pub open spec fn reported(
    e: StatusView,
    data: Seq<u8>,
    at: int,
    len: int,
    code: u8,
    tagged: bool,
) -> bool {
    &&& e.address == data[at] * 0x100 + data[at + 1]
    &&& e.full <==> data[at + 2] % 2 == 1
    &&& code == 1 ==> e.element_type == ElementType::Transport
    &&& code == 3 ==> e.element_type == ElementType::ImportExport
    &&& code == 4 ==> e.element_type == ElementType::DataTransfer
    &&& code != 1 && code != 3 && code != 4 ==> e.element_type == ElementType::Storage
    &&& e.source_address == (if len >= 12 && data[at + 9] >= 0x80 {
        Some((data[at + 10] * 0x100 + data[at + 11]) as u16)
    } else {
        None
    })
    &&& !tagged || len < 44 ==> e.volume_tag is None
    &&& forall|n: int|
        tagged && len >= 44 && #[trigger] tag_stands(data, at + 12, n) ==> e.volume_tag == Some(
            characters(data, at + 12, n),
        )
    &&& e.drive_id is None
}

proof fn lemma_descriptor(data: Seq<u8>, at: int, len: int, code: u8, tagged: bool)
    requires
        0 <= at,
        commands::MIN_DESCRIPTOR <= len,
        at + len <= data.len(),
    ensures
        reported(
            commands::descriptor(data.subrange(at, at + len), code, tagged),
            data,
            at,
            len,
            code,
            tagged,
        ),
{
    let desc = data.subrange(at, at + len);
    let e = commands::descriptor(desc, code, tagged);
    law_numbers_are_big_endian(desc, 0);
    law_numbers_are_big_endian(desc, 10);
    assert(desc[0] == data[at] && desc[1] == data[at + 1] && desc[2] == data[at + 2]);
    let f = desc[2];
    assert((f & 0x01u8 != 0) == (f % 2 == 1)) by (bit_vector);
    if len >= 12 {
        let g = desc[9];
        assert((g & 0x80u8 != 0) == (g >= 0x80)) by (bit_vector);
        assert(desc[9] == data[at + 9] && desc[10] == data[at + 10] && desc[11] == data[at + 11]);
    }
    law_barcode_is_read(desc, code, 0);
    assert forall|n: int| tagged && len >= 44 && #[trigger] tag_stands(data, at + 12, n) implies e.volume_tag
        == Some(characters(data, at + 12, n)) by {
        assert(tag_stands(desc, 12, n)) by {
            assert(desc[12] == data[at + 12]);
            assert(desc[12 + n - 1] == data[at + 12 + n - 1]);
            assert forall|i: int| 12 <= i < 12 + n implies graphic(#[trigger] desc[i]) || desc[i]
                == 0x20 by {
                assert(desc[i] == data[at + i]);
            }
            assert forall|i: int| 12 + n <= i < 12 + 32 implies filler(#[trigger] desc[i]) by {
                assert(desc[i] == data[at + i]);
            }
        }
        law_barcode_is_read(desc, code, n);
        assert(characters(desc, 12, n) =~= characters(data, at + 12, n));
    }
}

proof fn lemma_page(data: Seq<u8>, off: int, len: int, end: int, code: u8, tagged: bool, j: int)
    requires
        0 <= off,
        commands::MIN_DESCRIPTOR <= len,
        end <= data.len(),
        0 <= j,
        off + (j + 1) * len <= end,
    ensures
        j < commands::page_elements(data, off, len, end, code, tagged).len(),
        reported(
            commands::page_elements(data, off, len, end, code, tagged)[j],
            data,
            off + j * len,
            len,
            code,
            tagged,
        ),
    decreases j,
{
    assert(off + len <= end) by (nonlinear_arith)
        requires
            off + (j + 1) * len <= end,
            0 <= j,
            len > 0,
    ;
    if j == 0 {
        lemma_descriptor(data, off, len, code, tagged);
    } else {
        assert(off + len + (j - 1 + 1) * len == off + (j + 1) * len) by (nonlinear_arith);
        assert(off + len + (j - 1) * len == off + j * len) by (nonlinear_arith);
        lemma_page(data, off + len, len, end, code, tagged, j - 1);
    }
}

proof fn lemma_page_count(
    data: Seq<u8>,
    off: int,
    len: int,
    end: int,
    code: u8,
    tagged: bool,
)
    requires
        len > 0,
        off <= end,
    ensures
        ({
            let n = commands::page_elements(data, off, len, end, code, tagged).len();
            &&& off + n * len <= end < off + (n + 1) * len
            &&& commands::page_stop(off, len, end) == off + n * len
        }),
    decreases end - off,
{
    let n = commands::page_elements(data, off, len, end, code, tagged).len() as int;
    if off + len <= end {
        lemma_page_count(data, off + len, len, end, code, tagged);
        let m = commands::page_elements(data, off + len, len, end, code, tagged).len() as int;
        assert(n == m + 1);
        assert(off + len + m * len == off + n * len && off + len + (m + 1) * len == off + (n + 1)
            * len) by (nonlinear_arith)
            requires
                n == m + 1,
        ;
    } else {
        assert(off + 0 * len == off && off + (0 + 1) * len == off + len) by (nonlinear_arith);
    }
}

/// A page of a report gives as many elements as there are whole descriptors in it. Each says what
/// its descriptor says: its address, whether it holds a medium, where that came from, the type of
/// the page, and the barcode just where the page carries tags. The pages behind it follow where its
/// last descriptor ends.
pub proof fn law_page_is_read(data: Seq<u8>, off: int, end: int, j: int)
    requires
        0 <= off,
        off + 8 <= end <= data.len(),
        commands::MIN_DESCRIPTOR <= data[off + 2] * 0x100 + data[off + 3],
    ensures
        ({
            let len = data[off + 2] * 0x100 + data[off + 3];
            let own = off + 8 + (data[off + 5] * 0x1_0000 + data[off + 6] * 0x100 + data[off + 7]);
            let stop = if own <= end {
                own
            } else {
                end
            };
            let n = (stop - off - 8) / len;
            let all = commands::pages(data, off, end);
            &&& n <= all.len()
            &&& 0 <= j < n ==> reported(
                all[j],
                data,
                off + 8 + j * len,
                len,
                data[off],
                data[off + 1] >= 0x80,
            )
            &&& all.skip(n) == commands::pages(data, off + 8 + n * len, end)
        }),
{
    law_numbers_are_big_endian(data, off + 2);
    law_numbers_are_big_endian(data, off + 5);
    let len = data[off + 2] * 0x100 + data[off + 3];
    let stop = commands::page_end(data, off, end);
    let f = data[off + 1];
    let tagged = f & 0x80u8 != 0;
    assert((f & 0x80u8 != 0) == (f >= 0x80)) by (bit_vector);
    let page = commands::page_elements(data, off + 8, len, stop, data[off], tagged);
    lemma_page_count(data, off + 8, len, stop, data[off], tagged);
    let m = page.len() as int;
    assert(m == (stop - off - 8) / len) by (nonlinear_arith)
        requires
            len > 0,
            off + 8 + m * len <= stop < off + 8 + (m + 1) * len,
    ;
    let all = commands::pages(data, off, end);
    assert(all.skip(m) =~= commands::pages(data, off + 8 + m * len, end));
    if 0 <= j < m {
        assert(off + 8 + (j + 1) * len <= stop) by (nonlinear_arith)
            requires
                j < m,
                len > 0,
                off + 8 + m * len <= stop,
        ;
        lemma_page(data, off + 8, len, stop, data[off], tagged, j);
        assert(all[j] == page[j]);
    }
}

/// The status of all elements is asked for from the first of the four address ranges on.
pub proof fn law_first_address_is_the_least(m: ElementAddressMap)
    ensures
        ({
            let a = commands::first_address(m);
            &&& a <= m.transport_start && a <= m.storage_start && a <= m.ie_start && a <= m.dt_start
            &&& a == m.transport_start || a == m.storage_start || a == m.ie_start || a == m.dt_start
        }),
{
}

/// The address map is read from the page behind the block descriptors, whose length the header
/// gives: four pairs of a first address and a number.
pub proof fn law_address_map_is_read(buf: Seq<u8>, n: int)
    requires
        n <= buf.len(),
    ensures
        ({
            let p = 8 + (buf[6] * 0x100 + buf[7]);
            let word = |i: int| buf[p + i] * 0x100 + buf[p + i + 1];
            let r = commands::map_in(buf, n);
            &&& r is Ok <==> p + 20 <= n
            &&& r matches Ok(m) ==> {
                &&& m.transport_start == word(2) && m.transport_count == word(4)
                &&& m.storage_start == word(6) && m.storage_count == word(8)
                &&& m.ie_start == word(10) && m.ie_count == word(12)
                &&& m.dt_start == word(14) && m.dt_count == word(16)
            }
        }),
{
    law_numbers_are_big_endian(buf, 6);
    let p = 8 + (buf[6] * 0x100 + buf[7]);
    law_numbers_are_big_endian(buf, p + 2);
    law_numbers_are_big_endian(buf, p + 4);
    law_numbers_are_big_endian(buf, p + 6);
    law_numbers_are_big_endian(buf, p + 8);
    law_numbers_are_big_endian(buf, p + 10);
    law_numbers_are_big_endian(buf, p + 12);
    law_numbers_are_big_endian(buf, p + 14);
    law_numbers_are_big_endian(buf, p + 16);
}

} // verus!
