//! What the commands on a tape drive decide and print.
use vstd::prelude::*;

use crate::changer::commands;
use crate::cli::changer;
use crate::error::{TapeError, TapeErrorView};
use crate::text;

verus! {

/// What a drive spaces over.
#[derive(Debug, Clone, Copy, PartialEq, Eq, Structural)]
pub enum SpaceMode {
    Block,
    Filemark,
    EndOfData,
}

/// What a drive is told to space over.
pub fn space_mode(mode: &str) -> (r: Result<SpaceMode, TapeError>)
    ensures
        if mode@ == "block"@ {
            r == Ok::<SpaceMode, TapeError>(SpaceMode::Block)
        } else if mode@ == "filemark"@ {
            r == Ok::<SpaceMode, TapeError>(SpaceMode::Filemark)
        } else if mode@ == "eod"@ {
            r == Ok::<SpaceMode, TapeError>(SpaceMode::EndOfData)
        } else {
            commands::failed(
                r,
                TapeErrorView::MoveFailed {
                    reason: "未知的 space 模式 '"@ + mode@
                        + "'（可选 block / filemark / eod）"@,
                },
            )
        },
{
    if text::same(mode, "block") {
        Ok(SpaceMode::Block)
    } else if text::same(mode, "filemark") {
        Ok(SpaceMode::Filemark)
    } else if text::same(mode, "eod") {
        Ok(SpaceMode::EndOfData)
    } else {
        Err(
            TapeError::MoveFailed {
                reason: text::cat3(
                    "未知的 space 模式 '",
                    mode,
                    "'（可选 block / filemark / eod）",
                ),
            },
        )
    }
}

/// The decimal digits of a number, behind a minus sign where it is negative.
pub open spec fn signed(n: int) -> Seq<char> {
    if n < 0 {
        "-"@ + text::decimal((-n) as nat)
    } else {
        text::decimal(n as nat)
    }
}

/// What is said once a drive has spaced.
pub fn spaced(mode: SpaceMode, count: i32) -> (r: String)
    ensures
        r@ == match mode {
            SpaceMode::Block => "已跳过 "@ + signed(count as int) + " 个 block"@,
            SpaceMode::Filemark => "已跳过 "@ + signed(count as int) + " 个 filemark"@,
            SpaceMode::EndOfData => "已定位到 EOD"@,
        },
{
    let n = if count < 0 {
        text::cat2("-", text::decimal_text((-(count as i64)) as u64).as_str())
    } else {
        text::decimal_text(count as u64)
    };
    match mode {
        SpaceMode::Block => text::cat3("已跳过 ", n.as_str(), " 个 block"),
        SpaceMode::Filemark => text::cat3("已跳过 ", n.as_str(), " 个 filemark"),
        SpaceMode::EndOfData => "已定位到 EOD".to_owned(),
    }
}

/// A tape is only formatted where its destruction was confirmed.
pub fn check_format(path: &str, yes_destroy: bool) -> (r: Result<(), TapeError>)
    ensures
        if yes_destroy {
            r is Ok
        } else {
            commands::failed(
                r,
                TapeErrorView::Refused {
                    reason: "FORMAT MEDIUM 会擦除 "@ + path@
                        + " 上的磁带，加 --yes-destroy 确认后再执行"@,
                },
            )
        },
{
    if yes_destroy {
        Ok(())
    } else {
        Err(
            TapeError::Refused {
                reason: text::cat3(
                    "FORMAT MEDIUM 会擦除 ",
                    path,
                    " 上的磁带，加 --yes-destroy 确认后再执行",
                ),
            },
        )
    }
}

/// A limit on what is read, in words; zero is none.
pub fn limit_label(max_size: u64) -> (r: String)
    ensures
        r@ == if max_size == 0 {
            "无上限"@
        } else {
            text::decimal(max_size as nat) + " 字节"@
        },
{
    if max_size == 0 {
        "无上限".to_owned()
    } else {
        text::cat2(text::decimal_text(max_size).as_str(), " 字节")
    }
}

/// The message of the error that `u8::from_str_radix` reports for a base of sixteen.
pub uninterp spec fn hex_message(s: Seq<char>) -> Seq<char>;

/// `u8::from_str_radix` with a base of sixteen: the number that a text holds, or the message of
/// the error, which depends on the text alone.
#[verifier::external_body]
fn from_hex(s: &str) -> (r: Result<u8, String>)
    ensures
        match r {
            Ok(n) => changer::radix_value(s@, 16, 0xff) == Some(n as nat),
            Err(m) => changer::radix_value(s@, 16, 0xff) is None && m@ == hex_message(s@),
        },
{
    u8::from_str_radix(s, 16).map_err(|e| e.to_string())
}

/// Reads the code of a log page, hexadecimal with or without a prefix.
pub fn parse_page(s: &str) -> (r: Result<u8, TapeError>)
    ensures
        match changer::radix_value(changer::address_digits(s@), 16, 0xff) {
            Some(n) => r == Ok::<u8, TapeError>(n as u8),
            None => commands::failed(
                r,
                TapeErrorView::MoveFailed {
                    reason: "page code '"@ + s@ + "' 解析失败: "@ + hex_message(
                        changer::address_digits(s@),
                    ),
                },
            ),
        },
{
    let once = changer::trim_prefix_all(s, "0x");
    let digits = changer::trim_prefix_all(once.as_str(), "0X");
    page_result(s, from_hex(digits.as_str()))
}

/// What reading the page code `s` gives, once its digits have been read.
pub fn page_result(s: &str, read: Result<u8, String>) -> (r: Result<u8, TapeError>)
    ensures
        match read {
            Ok(n) => r == Ok::<u8, TapeError>(n),
            Err(m) => commands::failed(
                r,
                TapeErrorView::MoveFailed { reason: "page code '"@ + s@ + "' 解析失败: "@ + m@ },
            ),
        },
{
    match read {
        Ok(n) => Ok(n),
        Err(m) => Err(
            TapeError::MoveFailed {
                reason: text::cat4("page code '", s, "' 解析失败: ", m.as_str()),
            },
        ),
    }
}

/// The page of the alerts of a drive.
pub const ALERT_PAGE: u8 = 0x2E;

/// Whether a page is shown as alerts, not as bytes.
pub fn shows_alerts(page: u8, raw: bool) -> (r: bool)
    ensures
        r == (page == ALERT_PAGE && !raw),
{
    page == ALERT_PAGE && !raw
}

/// Bytes in hexadecimal, each behind a space.
pub open spec fn spaced_bytes(b: Seq<u8>) -> Seq<char>
    decreases b.len(),
{
    if b.len() == 0 {
        Seq::empty()
    } else {
        spaced_bytes(b.drop_last()) + " "@ + text::hex_digits(b.last() as nat, 2)
    }
}

/// The lines of a dump of `b`, sixteen bytes each, from the offset `at`.
pub open spec fn dump_from(b: Seq<u8>, at: int) -> Seq<Seq<char>>
    decreases b.len() - at,
{
    if at < 0 || at >= b.len() {
        Seq::empty()
    } else {
        let to = if at + 16 < b.len() {
            at + 16
        } else {
            b.len() as int
        };
        seq![
            "  "@ + text::hex_offset(at as nat) + ":"@ + spaced_bytes(b.subrange(at, to)),
        ] + dump_from(b, to)
    }
}

/// The dump of bytes, sixteen a line.
pub fn hex_dump(b: &[u8]) -> (r: Vec<String>)
    ensures
        text::string_views(r@) == dump_from(b@, 0),
{
    let n = b.len();
    let mut out: Vec<String> = Vec::new();
    let mut at: usize = 0;
    assert(text::string_views(out@) + dump_from(b@, 0) =~= dump_from(b@, 0));
    while at < n
        invariant
            at <= n == b@.len(),
            text::string_views(out@) + dump_from(b@, at as int) == dump_from(b@, 0),
        decreases n - at,
    {
        let to: usize = if n - at > 16 {
            at + 16
        } else {
            n
        };
        let mut t = text::cat3("  ", text::hex_offset_text(at as u64).as_str(), ":");
        let ghost head = t@;
        let mut i: usize = at;
        assert(b@.subrange(at as int, at as int) =~= Seq::<u8>::empty());
        assert(head + Seq::<char>::empty() =~= head);
        while i < to
            invariant
                at <= i <= to <= n == b@.len(),
                t@ == head + spaced_bytes(b@.subrange(at as int, i as int)),
            decreases to - i,
        {
            let ghost was = b@.subrange(at as int, i as int);
            let ghost now = b@.subrange(at as int, i + 1);
            assert(now.drop_last() =~= was);
            let ghost part = spaced_bytes(was);
            t.push_str(" ");
            t.push_str(text::hex_text(b[i] as u64, 2).as_str());
            assert(t@ =~= head + (part + " "@ + text::hex_digits(b@[i as int] as nat, 2)));
            i += 1;
        }
        let ghost was = text::string_views(out@);
        let ghost line = t@;
        let ghost rest = dump_from(b@, to as int);
        out.push(t);
        proof {
            assert(text::string_views(out@) =~= was.push(line));
            assert(was.push(line) + rest =~= was + (seq![line] + rest));
        }
        at = to;
    }
    assert(text::string_views(out@) + Seq::<Seq<char>>::empty() =~= text::string_views(out@));
    out
}

/// A recording density that a drive supports.
#[derive(Debug, Clone)]
pub struct Density {
    pub code: u8,
    pub secondary: u8,
    pub writable: bool,
    pub duplicate: bool,
    pub default: bool,
    pub bits_per_mm: u32,
    pub tracks: u16,
    pub capacity: u32,
    pub vendor: String,
    pub description: String,
    pub name: String,
}

#[verifier::ext_equal]
pub struct DensityView {
    pub code: u8,
    pub secondary: u8,
    pub writable: bool,
    pub duplicate: bool,
    pub default: bool,
    pub bits_per_mm: int,
    pub tracks: int,
    pub capacity: int,
    pub vendor: Seq<char>,
    pub description: Seq<char>,
    pub name: Seq<char>,
}

impl View for Density {
    type V = DensityView;

    open spec fn view(&self) -> DensityView {
        DensityView {
            code: self.code,
            secondary: self.secondary,
            writable: self.writable,
            duplicate: self.duplicate,
            default: self.default,
            bits_per_mm: self.bits_per_mm as int,
            tracks: self.tracks as int,
            capacity: self.capacity as int,
            vendor: self.vendor@,
            description: self.description@,
            name: self.name@,
        }
    }
}

/// The number that `n` bytes of `d` from `at` spell, the highest first.
pub open spec fn number_at(d: Seq<u8>, at: int, n: nat) -> int
    decreases n,
{
    if n == 0 {
        0
    } else {
        number_at(d, at, (n - 1) as nat) * 256 + d[at + n - 1]
    }
}

/// The text in a field of a reply, without white space round it.
pub open spec fn field_text(d: Seq<u8>, from: int, to: int) -> Seq<char> {
    text::stripped(text::lossy_text(d.subrange(from, to)))
}

/// The bytes of a density descriptor.
pub const DESCRIPTOR: usize = 52;

/// The descriptor at `o`.
pub open spec fn density_at(d: Seq<u8>, o: int) -> DensityView {
    DensityView {
        code: d[o],
        secondary: d[o + 1],
        writable: d[o + 2] / 128 % 2 == 1,
        duplicate: d[o + 2] / 64 % 2 == 1,
        default: d[o + 2] / 32 % 2 == 1,
        bits_per_mm: number_at(d, o + 5, 3),
        tracks: number_at(d, o + 8, 2),
        capacity: number_at(d, o + 10, 4),
        vendor: field_text(d, o + 14, o + 22),
        description: field_text(d, o + 22, o + 30),
        name: field_text(d, o + 30, o + 52),
    }
}

/// The descriptors from `o` that end by `end`.
pub open spec fn densities(d: Seq<u8>, o: int, end: int) -> Seq<DensityView>
    decreases end - o,
{
    if o + DESCRIPTOR <= end {
        seq![density_at(d, o)] + densities(d, o + DESCRIPTOR, end)
    } else {
        Seq::empty()
    }
}

/// Where the descriptors of a reply end: where its header says, at most at its end.
pub open spec fn densities_end(d: Seq<u8>) -> int {
    let said = 4 + number_at(d, 0, 2);
    if said < d.len() {
        said
    } else {
        d.len() as int
    }
}

/// Densities as values.
pub open spec fn density_views(v: Seq<Density>) -> Seq<DensityView> {
    v.map_values(|d: Density| d@)
}

fn read_density(d: &[u8], o: usize) -> (r: Density)
    requires
        o + 52 <= d@.len(),
    ensures
        r@ == density_at(d@, o as int),
{
    proof {
        reveal_with_fuel(number_at, 5);
    }
    let n = d.len();
    assert(o + 52 <= n);
    let flags = d[o + 2];
    let vendor = text::lossy(vstd::slice::slice_subrange(d, o + 14, o + 22));
    let description = text::lossy(vstd::slice::slice_subrange(d, o + 22, o + 30));
    let name = text::lossy(vstd::slice::slice_subrange(d, o + 30, o + 52));
    Density {
        code: d[o],
        secondary: d[o + 1],
        writable: flags / 128 % 2 == 1,
        duplicate: flags / 64 % 2 == 1,
        default: flags / 32 % 2 == 1,
        bits_per_mm: d[o + 5] as u32 * 65536 + d[o + 6] as u32 * 256 + d[o + 7] as u32,
        tracks: d[o + 8] as u16 * 256 + d[o + 9] as u16,
        capacity: d[o + 10] as u32 * 16777216 + d[o + 11] as u32 * 65536 + d[o + 12] as u32 * 256
            + d[o + 13] as u32,
        vendor: text::strip(vendor.as_str()),
        description: text::strip(description.as_str()),
        name: text::strip(name.as_str()),
    }
}

/// Reads a drive's report on the densities that it supports.
pub fn parse_densities(d: &[u8]) -> (r: Result<Vec<Density>, TapeError>)
    ensures
        if d@.len() < 4 {
            commands::failed(
                r,
                TapeErrorView::InvalidResponse { expected: 4, actual: d@.len() as usize },
            )
        } else {
            r is Ok && density_views(r->Ok_0@) == densities(d@, 4, densities_end(d@))
        },
{
    let n = d.len();
    if n < 4 {
        return Err(TapeError::InvalidResponse { expected: 4, actual: n });
    }
    proof {
        reveal_with_fuel(number_at, 3);
    }
    let said: usize = 4 + (d[0] as usize * 256 + d[1] as usize);
    let end: usize = if said < n {
        said
    } else {
        n
    };
    let mut out: Vec<Density> = Vec::new();
    let mut o: usize = 4;
    assert(end == densities_end(d@));
    assert(density_views(out@) + densities(d@, 4, end as int) =~= densities(d@, 4, end as int));
    while o + 52 <= end
        invariant
            4 <= o <= end <= n == d@.len(),
            end <= 65539,
            density_views(out@) + densities(d@, o as int, end as int) == densities(
                d@,
                4,
                end as int,
            ),
        decreases end - o,
    {
        let ghost was = density_views(out@);
        let ghost rest = densities(d@, o + 52, end as int);
        let one = read_density(d, o);
        let ghost v = one@;
        out.push(one);
        proof {
            assert(density_views(out@) =~= was.push(v));
            assert(was.push(v) + rest =~= was + (seq![v] + rest));
        }
        o += 52;
    }
    assert(density_views(out@) + Seq::<DensityView>::empty() =~= density_views(out@));
    Ok(out)
}

/// The two lines of a density.
pub fn density_lines(d: &Density) -> (r: (String, String))
    ensures
        r.0@ == "  - code="@ + text::hex_byte(d.code) + " secondary="@ + text::hex_byte(d.secondary)
            + " wrtok="@ + changer::bool_text(d.writable) + " dup="@ + changer::bool_text(
            d.duplicate,
        ) + " default="@ + changer::bool_text(d.default),
        r.1@ == "    bits/mm="@ + text::decimal(d.bits_per_mm as nat) + " tracks="@ + text::decimal(
            d.tracks as nat,
        ) + " capacity="@ + text::decimal(d.capacity as nat) + "MB vendor="@ + d.vendor@ + " desc="@
            + d.description@ + " name="@ + d.name@,
{
    let mut a = text::cat4(
        "  - code=",
        text::hex_byte_text(d.code).as_str(),
        " secondary=",
        text::hex_byte_text(d.secondary).as_str(),
    );
    a.push_str(" wrtok=");
    a.push_str(changer::bool_word(d.writable));
    a.push_str(" dup=");
    a.push_str(changer::bool_word(d.duplicate));
    a.push_str(" default=");
    a.push_str(changer::bool_word(d.default));
    let mut b = text::cat4(
        "    bits/mm=",
        text::decimal_text(d.bits_per_mm as u64).as_str(),
        " tracks=",
        text::decimal_text(d.tracks as u64).as_str(),
    );
    b.push_str(" capacity=");
    b.push_str(text::decimal_text(d.capacity as u64).as_str());
    b.push_str("MB vendor=");
    b.push_str(d.vendor.as_str());
    b.push_str(" desc=");
    b.push_str(d.description.as_str());
    b.push_str(" name=");
    b.push_str(d.name.as_str());
    (a, b)
}

} // verus!
