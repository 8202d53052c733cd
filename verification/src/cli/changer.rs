//! Addresses, messages and checks of the changer commands.
use vstd::prelude::*;

use crate::catalog::query;
use crate::catalog::query::CapacitySnapshot;
use crate::changer::commands;
use crate::changer::element;
use crate::changer::element::{ElementAddressMap, ElementStatus, StatusView};
use crate::cli::format_util;
use crate::error::{TapeError, TapeErrorView};
use crate::strmap::StrMap;
use crate::text;

verus! {

/// `addr` is one of `count` elements from `start` on.
pub open spec fn among(addr: u16, start: u16, count: u16) -> bool {
    start <= addr < start + count
}

/// The ranges that are looked at to find `addr` lie within the address space.
pub open spec fn describable(m: ElementAddressMap, addr: u16) -> bool {
    let s = among(addr, m.storage_start, m.storage_count);
    let i = among(addr, m.ie_start, m.ie_count);
    let d = among(addr, m.dt_start, m.dt_count);
    &&& addr >= m.storage_start ==> m.storage_start + m.storage_count <= u16::MAX
    &&& !s && addr >= m.ie_start ==> m.ie_start + m.ie_count <= u16::MAX
    &&& !s && !i && addr >= m.dt_start ==> m.dt_start + m.dt_count <= u16::MAX
    &&& !s && !i && !d && addr >= m.transport_start ==> m.transport_start + m.transport_count
        <= u16::MAX
}

/// An element address in words.
pub open spec fn source_text(m: ElementAddressMap, addr: u16) -> Seq<char> {
    if among(addr, m.storage_start, m.storage_count) {
        "Storage "@ + text::decimal(addr as nat)
    } else if among(addr, m.ie_start, m.ie_count) {
        "I/E "@ + text::decimal(addr as nat)
    } else if among(addr, m.dt_start, m.dt_count) {
        "Drive "@ + text::decimal(addr as nat)
    } else if among(addr, m.transport_start, m.transport_count) {
        "Transport "@ + text::decimal(addr as nat)
    } else {
        "addr="@ + text::hex_address(addr)
    }
}

/// An element address in words.
pub fn describe_source(map: &ElementAddressMap, addr: u16) -> (r: String)
    requires
        describable(*map, addr),
    ensures
        r@ == source_text(*map, addr),
{
    let n = text::decimal_text(addr as u64);
    if addr >= map.storage_start && addr < map.storage_start + map.storage_count {
        text::cat2("Storage ", n.as_str())
    } else if addr >= map.ie_start && addr < map.ie_start + map.ie_count {
        text::cat2("I/E ", n.as_str())
    } else if addr >= map.dt_start && addr < map.dt_start + map.dt_count {
        text::cat2("Drive ", n.as_str())
    } else if addr >= map.transport_start && addr < map.transport_start + map.transport_count {
        text::cat2("Transport ", n.as_str())
    } else {
        text::cat2("addr=", text::hex_address_text(addr).as_str())
    }
}

/// The address of a storage slot; slots count from one.
pub open spec fn slot_address(m: ElementAddressMap, slot: u16) -> Result<u16, TapeErrorView> {
    if slot == 0 || slot > m.storage_count {
        Err(
            TapeErrorView::MoveFailed {
                reason: commands::out_of_range("slot "@, slot, "1..="@, m.storage_count),
            },
        )
    } else {
        Ok((m.storage_start + slot - 1) as u16)
    }
}

/// The address of a drive; drives count from zero.
pub open spec fn drive_address(m: ElementAddressMap, drive: u16) -> Result<u16, TapeErrorView> {
    if drive >= m.dt_count {
        Err(
            TapeErrorView::MoveFailed {
                reason: commands::out_of_range("drive "@, drive, "0.."@, m.dt_count),
            },
        )
    } else {
        Ok((m.dt_start + drive) as u16)
    }
}

/// The result is the one that is described.
pub open spec fn is_result<T>(r: Result<T, TapeError>, want: Result<T, TapeErrorView>) -> bool {
    match want {
        Ok(v) => r == Ok::<T, TapeError>(v),
        Err(e) => commands::failed(r, e),
    }
}

fn range_error(what: &str, n: u16, range: &str, max: u16) -> (r: TapeError)
    ensures
        r@ == (TapeErrorView::MoveFailed {
            reason: commands::out_of_range(what@, n, range@, max),
        }),
{
    let mut t = text::cat4(what, text::decimal_text(n as u64).as_str(), " 越界（可用 ", range);
    t.push_str(text::decimal_text(max as u64).as_str());
    t.push_str("）");
    TapeError::MoveFailed { reason: t }
}

/// The address of a storage slot; slots count from one.
pub fn slot_to_addr(map: &ElementAddressMap, slot: u16) -> (r: Result<u16, TapeError>)
    requires
        0 < slot <= map.storage_count ==> map.storage_start + slot <= u16::MAX,
    ensures
        is_result(r, slot_address(*map, slot)),
{
    if slot == 0 || slot > map.storage_count {
        return Err(range_error("slot ", slot, "1..=", map.storage_count));
    }
    Ok(map.storage_start + slot - 1)
}

/// The address of a drive; drives count from zero.
pub fn drive_to_addr(map: &ElementAddressMap, drive: u16) -> (r: Result<u16, TapeError>)
    requires
        drive < map.dt_count ==> map.dt_start + drive <= u16::MAX,
    ensures
        is_result(r, drive_address(*map, drive)),
{
    if drive >= map.dt_count {
        return Err(range_error("drive ", drive, "0..", map.dt_count));
    }
    Ok(map.dt_start + drive)
}

/// Where a move goes: to the slot if one is given, else to the drive.
pub fn move_target(map: &ElementAddressMap, to_slot: Option<u16>, to_drive: Option<u16>) -> (r:
    Result<u16, TapeError>)
    requires
        to_slot matches Some(s) ==> 0 < s <= map.storage_count ==> map.storage_start + s
            <= u16::MAX,
        to_drive matches Some(d) ==> d < map.dt_count ==> map.dt_start + d <= u16::MAX,
    ensures
        match to_slot {
            Some(s) => is_result(r, slot_address(*map, s)),
            None => match to_drive {
                Some(d) => is_result(r, drive_address(*map, d)),
                None => commands::failed(
                    r,
                    TapeErrorView::MoveFailed { reason: "必须指定 --to-slot 或 --to-drive"@ },
                ),
            },
        },
{
    match to_slot {
        Some(s) => slot_to_addr(map, s),
        None => match to_drive {
            Some(d) => drive_to_addr(map, d),
            None => Err(
                TapeError::MoveFailed { reason: "必须指定 --to-slot 或 --to-drive".to_owned() },
            ),
        },
    }
}

/// `s` without any `p` at its start.
pub open spec fn trim_prefix(s: Seq<char>, p: Seq<char>) -> Seq<char>
    decreases s.len(),
{
    if p.len() > 0 && text::has_prefix(s, p) {
        trim_prefix(s.skip(p.len() as int), p)
    } else {
        s
    }
}

pub(crate) fn trim_prefix_all(s: &str, p: &str) -> (r: String)
    ensures
        r@ == trim_prefix(s@, p@),
    decreases s@.len(),
{
    if !p.is_empty() && text::starts_with(s, p) {
        let n = text::chars(p).len();
        let rest = text::skip_chars(s, n);
        trim_prefix_all(rest.as_str(), p)
    } else {
        s.to_owned()
    }
}

/// The value of a digit or letter as a digit.
pub open spec fn digit_value(c: char) -> nat {
    if '0' <= c <= '9' {
        (c as nat - 48) as nat
    } else if 'a' <= c <= 'z' {
        (c as nat - 87) as nat
    } else if 'A' <= c <= 'Z' {
        (c as nat - 55) as nat
    } else {
        36
    }
}

/// The value of a run of digits in a base, `None` where it is empty, holds another character or
/// exceeds `max`.
pub open spec fn digits_value(s: Seq<char>, radix: u32, max: nat) -> Option<nat>
    decreases s.len(),
{
    if s.len() == 0 || digit_value(s.last()) >= radix {
        None
    } else {
        let high = if s.len() == 1 {
            Some(0nat)
        } else {
            digits_value(s.drop_last(), radix, max)
        };
        match high {
            None => None,
            Some(h) => if h * radix + digit_value(s.last()) > max {
                None
            } else {
                Some(h * (radix as nat) + digit_value(s.last()))
            },
        }
    }
}

/// The number that a text holds in a base: digits, behind an optional plus sign.
pub open spec fn radix_value(s: Seq<char>, radix: u32, max: nat) -> Option<nat> {
    if s.len() > 0 && s[0] == '+' {
        digits_value(s.drop_first(), radix, max)
    } else {
        digits_value(s, radix, max)
    }
}

/// The message of the error that `u16::from_str_radix` reports.
pub uninterp spec fn radix_message(s: Seq<char>, radix: u32) -> Seq<char>;

/// `u16::from_str_radix`: the number that a text holds in a base from 2 to 36, or the message of
/// the error, which depends on the arguments alone.
#[verifier::external_body]
fn from_radix(s: &str, radix: u32) -> (r: Result<u16, String>)
    requires
        2 <= radix <= 36,
    ensures
        match r {
            Ok(n) => radix_value(s@, radix, 0xffff) == Some(n as nat),
            Err(m) => radix_value(s@, radix, 0xffff) is None && m@ == radix_message(s@, radix),
        },
{
    u16::from_str_radix(s, radix).map_err(|e| e.to_string())
}

/// The digits of an address: what follows any `0x`, and then any `0X`.
pub open spec fn address_digits(s: Seq<char>) -> Seq<char> {
    trim_prefix(trim_prefix(s, "0x"@), "0X"@)
}

/// The base of an address.
pub open spec fn address_radix(s: Seq<char>) -> u32 {
    if text::has_prefix(s, "0x"@) || text::has_prefix(s, "0X"@) {
        16
    } else {
        10
    }
}

/// Reads an element address, hexadecimal behind `0x` or `0X`.
pub fn parse_addr(s: &str) -> (r: Result<u16, TapeError>)
    ensures
        match radix_value(address_digits(s@), address_radix(s@), 0xffff) {
            Some(n) => r == Ok::<u16, TapeError>(n as u16),
            None => commands::failed(
                r,
                TapeErrorView::MoveFailed {
                    reason: "无法解析地址 '"@ + s@ + "': "@ + radix_message(
                        address_digits(s@),
                        address_radix(s@),
                    ),
                },
            ),
        },
{
    let once = trim_prefix_all(s, "0x");
    let digits = trim_prefix_all(once.as_str(), "0X");
    let radix: u32 = if text::starts_with(s, "0x") || text::starts_with(s, "0X") {
        16
    } else {
        10
    };
    address_result(s, from_radix(digits.as_str(), radix))
}

/// What reading the address `s` gives, once its digits have been read.
pub fn address_result(s: &str, read: Result<u16, String>) -> (r: Result<u16, TapeError>)
    ensures
        match read {
            Ok(n) => r == Ok::<u16, TapeError>(n),
            Err(m) => commands::failed(
                r,
                TapeErrorView::MoveFailed { reason: "无法解析地址 '"@ + s@ + "': "@ + m@ },
            ),
        },
{
    match read {
        Ok(n) => Ok(n),
        Err(m) => Err(
            TapeError::MoveFailed {
                reason: text::cat4("无法解析地址 '", s, "': ", m.as_str()),
            },
        ),
    }
}

/// The first report on an element.
pub open spec fn report_on(s: Seq<StatusView>, addr: u16) -> Option<StatusView>
    decreases s.len(),
{
    if s.len() == 0 {
        None
    } else if s[0].address == addr {
        Some(s[0])
    } else {
        report_on(s.drop_first(), addr)
    }
}

/// A truth value in words.
pub open spec fn bool_text(b: bool) -> Seq<char> {
    if b {
        "true"@
    } else {
        "false"@
    }
}

pub(crate) fn bool_word(b: bool) -> (r: &'static str)
    ensures
        r@ == bool_text(b),
{
    if b {
        "true"
    } else {
        "false"
    }
}

/// What the reports after a move say of it. It took place if the source is empty and the
/// destination full.
pub open spec fn move_result(
    s: Seq<StatusView>,
    m: ElementAddressMap,
    source: u16,
    dest: u16,
) -> Result<(), TapeErrorView> {
    match (report_on(s, source), report_on(s, dest)) {
        (Some(a), Some(b)) => if !a.full && b.full {
            Ok(())
        } else {
            Err(
                TapeErrorView::InconsistentState(
                    "MOVE MEDIUM "@ + source_text(m, source) + " → "@ + source_text(m, dest)
                        + " 返回成功但 element 状态未变化: source full="@ + bool_text(a.full)
                        + " (期望 false), dest full="@ + bool_text(b.full)
                        + " (期望 true)。可能原因: 目标 drive 被另一个 initiator 持有 SCSI Persistent Reservation, 用 `sg_persist --in -r <drive>` 排查。"@,
                ),
            )
        },
        _ => Err(
            TapeErrorView::InconsistentState(
                "MOVE MEDIUM 后无法在 element status 中定位 source "@ + text::hex_address(source)
                    + " 或 dest "@ + text::hex_address(dest),
            ),
        ),
    }
}

fn fullness(elements: &[ElementStatus], addr: u16) -> (r: Option<bool>)
    ensures
        r == (match report_on(element::status_views(elements@), addr) {
            Some(v) => Some(v.full),
            None => None::<bool>,
        }),
{
    let ghost s = element::status_views(elements@);
    let mut i: usize = 0;
    assert(s.skip(0) =~= s);
    while i < elements.len()
        invariant
            i <= elements@.len(),
            s == element::status_views(elements@),
            report_on(s, addr) == report_on(s.skip(i as int), addr),
        decreases elements@.len() - i,
    {
        assert(s.skip(i as int).drop_first() =~= s.skip(i + 1));
        assert(s.skip(i as int)[0] == elements@[i as int]@);
        if elements[i].address == addr {
            return Some(elements[i].full);
        }
        i += 1;
    }
    None
}

/// Checks by the reports after a move whether it took place. Some changers report success and
/// move nothing.
pub fn check_move_result(
    elements: &[ElementStatus],
    map: &ElementAddressMap,
    source_addr: u16,
    dest_addr: u16,
) -> (r: Result<(), TapeError>)
    requires
        describable(*map, source_addr),
        describable(*map, dest_addr),
    ensures
        is_result(
            r,
            move_result(element::status_views(elements@), *map, source_addr, dest_addr),
        ),
{
    match (fullness(elements, source_addr), fullness(elements, dest_addr)) {
        (Some(a), Some(b)) => {
            if !a && b {
                return Ok(());
            }
            let mut t = text::cat4(
                "MOVE MEDIUM ",
                describe_source(map, source_addr).as_str(),
                " → ",
                describe_source(map, dest_addr).as_str(),
            );
            t.push_str(" 返回成功但 element 状态未变化: source full=");
            t.push_str(bool_word(a));
            t.push_str(" (期望 false), dest full=");
            t.push_str(bool_word(b));
            t.push_str(
                " (期望 true)。可能原因: 目标 drive 被另一个 initiator 持有 SCSI Persistent Reservation, 用 `sg_persist --in -r <drive>` 排查。",
            );
            Err(TapeError::InconsistentState(t))
        },
        _ => Err(
            TapeError::InconsistentState(
                text::cat4(
                    "MOVE MEDIUM 后无法在 element status 中定位 source ",
                    text::hex_address_text(source_addr).as_str(),
                    " 或 dest ",
                    text::hex_address_text(dest_addr).as_str(),
                ),
            ),
        ),
    }
}

/// What is reported when the check after a move cannot be made: whether the move took place is
/// not known.
pub fn verify_probe_failed(source_addr: u16, dest_addr: u16, why: &str) -> (r: TapeError)
    ensures
        r@ == TapeErrorView::InconsistentState(
            "verify probe failed after MOVE MEDIUM "@ + text::hex_address(source_addr) + " → "@
                + text::hex_address(dest_addr) + ": "@ + why@
                + "; move may or may not have completed, run `tape-rs inventory` to confirm"@,
        ),
{
    let mut t = text::cat4(
        "verify probe failed after MOVE MEDIUM ",
        text::hex_address_text(source_addr).as_str(),
        " → ",
        text::hex_address_text(dest_addr).as_str(),
    );
    t.push_str(": ");
    t.push_str(why);
    t.push_str("; move may or may not have completed, run `tape-rs inventory` to confirm");
    TapeError::InconsistentState(t)
}

/// The bytes of a tag but for its last two.
pub open spec fn serial_bytes(tag: Seq<char>) -> Seq<u8> {
    let b = vstd::utf8::encode_utf8(tag);
    b.take(b.len() - 2)
}

/// The capacity under a volume tag: under the whole tag, or else under the tag without its media
/// code, the last two bytes.
pub open spec fn cached(m: Map<Seq<char>, CapacitySnapshot>, tag: Option<Seq<char>>) -> Option<
    CapacitySnapshot,
> {
    match tag {
        None => None,
        Some(t) => if m.contains_key(t) {
            Some(m[t])
        } else if vstd::utf8::encode_utf8(t).len() > 2 && m.contains_key(
            vstd::utf8::decode_utf8(serial_bytes(t)),
        ) {
            Some(m[vstd::utf8::decode_utf8(serial_bytes(t))])
        } else {
            None
        },
    }
}

pub open spec fn opt_tag(tag: Option<&str>) -> Option<Seq<char>> {
    match tag {
        Some(t) => Some(t@),
        None => None,
    }
}

/// The media code of a tag, where it has to be cut off, is made of whole characters.
pub open spec fn serial_cuts_well(
    m: Map<Seq<char>, CapacitySnapshot>,
    tag: Option<Seq<char>>,
) -> bool {
    tag matches Some(t) ==> {
        &&& vstd::utf8::encode_utf8(t).len() <= usize::MAX
        &&& vstd::utf8::encode_utf8(t).len() > 2 && !m.contains_key(t)
            ==> vstd::utf8::is_char_boundary(
            vstd::utf8::encode_utf8(t),
            vstd::utf8::encode_utf8(t).len() - 2,
        )
    }
}

/// Looks a capacity up by volume tag.
pub fn lookup_cached(cache: &StrMap<CapacitySnapshot>, tag: Option<&str>) -> (r: Option<
    CapacitySnapshot,
>)
    requires
        serial_cuts_well(cache@, opt_tag(tag)),
    ensures
        r == cached(cache@, opt_tag(tag)),
{
    let t = match tag {
        Some(t) => t,
        None => {
            return None;
        },
    };
    match cache.get(t) {
        Some(c) => {
            return Some(*c);
        },
        None => {},
    }
    let n: usize = t.len();
    if n > 2 {
        let (serial, _) = t.split_at(n - 2);
        proof {
            vstd::utf8::encode_utf8_decode_utf8(serial@);
            assert(vstd::utf8::encode_utf8(serial@) =~= serial_bytes(t@));
        }
        match cache.get(serial) {
            Some(c) => {
                return Some(*c);
            },
            None => {},
        }
    }
    None
}

/// A capacity in words, with where it comes from.
pub open spec fn capacity_line(cap: CapacitySnapshot, source: Seq<char>) -> Seq<char> {
    let used = query::less_by(cap.total, cap.remaining);
    "used="@ + format_util::size_text(used) + " / total="@ + format_util::size_text(cap.total)
        + " (free "@ + format_util::size_text(query::less_by(cap.total, used)) + ") ["@ + source
        + "]"@
}

/// A capacity in words, with where it comes from.
pub fn format_capacity(cap: CapacitySnapshot, source: &str) -> (r: String)
    ensures
        r@ == capacity_line(cap, source@),
{
    let used: u64 = cap.used();
    let mut t = text::cat4(
        "used=",
        format_util::format_size(used).as_str(),
        " / total=",
        format_util::format_size(cap.total).as_str(),
    );
    t.push_str(" (free ");
    t.push_str(format_util::format_size(cap.total.saturating_sub(used)).as_str());
    t.push_str(") [");
    t.push_str(source);
    t.push_str("]");
    t
}

/// What is shown of a tape's capacity: the reading of the drive that holds it, or else the last
/// one in the catalog.
pub open spec fn capacity_shown(
    realtime: Map<Seq<char>, CapacitySnapshot>,
    stored: Map<Seq<char>, CapacitySnapshot>,
    tag: Option<Seq<char>>,
) -> Option<(CapacitySnapshot, bool)> {
    match cached(realtime, tag) {
        Some(c) => Some((c, true)),
        None => match cached(stored, tag) {
            Some(c) => Some((c, false)),
            None => None,
        },
    }
}

/// A node name of the form `sg` and digits.
pub open spec fn sg_name(s: Seq<char>) -> bool {
    &&& s.len() > 2
    &&& text::has_prefix(s, "sg"@)
    &&& forall|i: int| 2 <= i < s.len() ==> '0' <= #[trigger] s[i] <= '9'
}

/// Whether a node name has the form `sg` and digits.
pub fn is_sg_name(s: &str) -> (r: bool)
    ensures
        r == sg_name(s@),
{
    let v = text::chars(s);
    if v.len() <= 2 || !text::starts_with(s, "sg") {
        return false;
    }
    let mut i: usize = 2;
    while i < v.len()
        invariant
            v@ == s@,
            2 <= i <= v@.len(),
            forall|j: int| 2 <= j < i ==> '0' <= #[trigger] v@[j] <= '9',
        decreases v@.len() - i,
    {
        if v[i] < '0' || v[i] > '9' {
            return false;
        }
        i += 1;
    }
    true
}

/// The capacity that is shown of a tape, with where it is from.
pub fn capacity_text(
    tag: Option<&str>,
    realtime: &StrMap<CapacitySnapshot>,
    stored: &StrMap<CapacitySnapshot>,
) -> (r: Option<String>)
    requires
        serial_cuts_well(realtime@, opt_tag(tag)),
        cached(realtime@, opt_tag(tag)) is None ==> serial_cuts_well(stored@, opt_tag(tag)),
    ensures
        match capacity_shown(realtime@, stored@, opt_tag(tag)) {
            Some((c, live)) => r is Some && r->0@ == capacity_line(
                c,
                if live {
                    "realtime"@
                } else {
                    "cached"@
                },
            ),
            None => r is None,
        },
{
    match lookup_cached(realtime, tag) {
        Some(c) => Some(format_capacity(c, "realtime")),
        None => match lookup_cached(stored, tag) {
            Some(c) => Some(format_capacity(c, "cached")),
            None => None,
        },
    }
}

/// The lines that show where the elements lie.
pub fn address_map_lines(map: &ElementAddressMap) -> (r: Vec<String>)
    ensures
        text::string_views(r@) == seq![
            "=== Element Address Map ==="@,
            "  Transport:    start="@ + text::hex_address(map.transport_start) + ", count="@
                + text::decimal(map.transport_count as nat),
            "  Storage:      start="@ + text::hex_address(map.storage_start) + ", count="@
                + text::decimal(map.storage_count as nat),
            "  I/E:          start="@ + text::hex_address(map.ie_start) + ", count="@
                + text::decimal(map.ie_count as nat),
            "  Data Transfer:start="@ + text::hex_address(map.dt_start) + ", count="@
                + text::decimal(map.dt_count as nat),
        ],
{
    let a = "=== Element Address Map ===".to_owned();
    let b = text::cat4(
        "  Transport:    start=",
        text::hex_address_text(map.transport_start).as_str(),
        ", count=",
        text::decimal_text(map.transport_count as u64).as_str(),
    );
    let c = text::cat4(
        "  Storage:      start=",
        text::hex_address_text(map.storage_start).as_str(),
        ", count=",
        text::decimal_text(map.storage_count as u64).as_str(),
    );
    let d = text::cat4(
        "  I/E:          start=",
        text::hex_address_text(map.ie_start).as_str(),
        ", count=",
        text::decimal_text(map.ie_count as u64).as_str(),
    );
    let e = text::cat4(
        "  Data Transfer:start=",
        text::hex_address_text(map.dt_start).as_str(),
        ", count=",
        text::decimal_text(map.dt_count as u64).as_str(),
    );
    let ghost want = seq![a@, b@, c@, d@, e@];
    let mut out: Vec<String> = Vec::new();
    out.push(a);
    out.push(b);
    out.push(c);
    out.push(d);
    out.push(e);
    assert(text::string_views(out@) =~= want);
    out
}

/// What a drive says of the tape in it: its barcode and its capacity, where it is a tape drive and
/// both are there.
pub fn drive_reading(
    peripheral: u8,
    barcode: Option<String>,
    capacity: CapacitySnapshot,
) -> (r: Option<(String, CapacitySnapshot)>)
    ensures
        match r {
            Some((b, c)) => peripheral & 0x1f == 1 && barcode is Some && b@ == barcode->0@ && c
                == capacity && capacity.total > 0,
            None => peripheral & 0x1f != 1 || barcode is None || capacity.total == 0,
        },
{
    if peripheral & 0x1f != 1 || capacity.total == 0 {
        return None;
    }
    match barcode {
        Some(b) => Some((b, capacity)),
        None => None,
    }
}

/// The line of an element: what it shows of itself, where the tape in a drive came from, and the
/// capacity of the tape in it.
pub open spec fn element_shown(
    shown: Seq<char>,
    map: ElementAddressMap,
    source: Option<u16>,
    capacity: Option<Seq<char>>,
) -> Seq<char> {
    let head = match source {
        Some(a) => "  "@ + shown + "  <- "@ + source_text(map, a),
        None => "  "@ + shown,
    };
    match capacity {
        Some(c) => head + "  "@ + c,
        None => head,
    }
}

/// The line of an element. Capacity is only shown of an element that holds a tape, and only where
/// it is known.
pub fn element_line(
    shown: &str,
    map: &ElementAddressMap,
    source: Option<u16>,
    full: bool,
    tag: Option<&str>,
    realtime: &StrMap<CapacitySnapshot>,
    stored: &StrMap<CapacitySnapshot>,
) -> (r: String)
    requires
        source is Some ==> describable(*map, source->0),
        full ==> serial_cuts_well(realtime@, opt_tag(tag)),
        full && cached(realtime@, opt_tag(tag)) is None ==> serial_cuts_well(
            stored@,
            opt_tag(tag),
        ),
    ensures
        r@ == element_shown(
            shown@,
            *map,
            source,
            if full {
                match capacity_shown(realtime@, stored@, opt_tag(tag)) {
                    Some((c, live)) => Some(
                        capacity_line(
                            c,
                            if live {
                                "realtime"@
                            } else {
                                "cached"@
                            },
                        ),
                    ),
                    None => None,
                }
            } else {
                None
            },
        ),
{
    let mut t = text::cat2("  ", shown);
    match source {
        Some(a) => {
            t.push_str("  <- ");
            t.push_str(describe_source(map, a).as_str());
        },
        None => {},
    }
    if full {
        match capacity_text(tag, realtime, stored) {
            Some(c) => {
                t.push_str("  ");
                t.push_str(c.as_str());
            },
            None => {},
        }
    }
    t
}

} // verus!
