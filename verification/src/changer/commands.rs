//! What a medium changer is asked to do, and how its answers are read.
//!
//! A changer decides and describes: each method says what is to be sent to the device, or reads
//! what the device sent back.
use vstd::prelude::*;

use crate::changer::element::{ElementAddressMap, ElementStatus, ElementType, StatusView};
use crate::changer::element;
use crate::error::{TapeError, TapeErrorView};
use crate::text;

verus! {

/// Two bytes, most significant first.
pub open spec fn be16(s: Seq<u8>, i: int) -> u16 {
    (s[i] as int * 256 + s[i + 1] as int) as u16
}

/// Three bytes, most significant first.
pub open spec fn be24(s: Seq<u8>, i: int) -> nat {
    (s[i] as int * 65536 + s[i + 1] as int * 256 + s[i + 2] as int) as nat
}

fn read16(s: &[u8], i: usize) -> (r: u16)
    requires
        i + 1 < s@.len(),
    ensures
        r == be16(s@, i as int),
{
    s[i] as u16 * 256 + s[i + 1] as u16
}

fn read24(s: &[u8], i: usize) -> (r: usize)
    requires
        i + 2 < s@.len(),
    ensures
        r == be24(s@, i as int),
        r < 0x100_0000,
{
    s[i] as usize * 65536 + s[i + 1] as usize * 256 + s[i + 2] as usize
}

/// A command for the device, with the time that it may take in milliseconds.
#[derive(Debug, Clone, Copy, PartialEq, Eq, Structural)]
pub enum ChangerAction {
    /// Read the address map: mode page 0x1D, so many bytes.
    SenseAddresses { length: u16, timeout_ms: u32 },
    /// Read the status of `count` elements from `start` on into so many bytes.
    ReadStatus { start: u16, count: u16, length: u32, timeout_ms: u32 },
    Move { transport: u16, source: u16, dest: u16, timeout_ms: u32 },
    Exchange { transport: u16, source: u16, first: u16, second: u16, timeout_ms: u32 },
    Position { transport: u16, dest: u16, timeout_ms: u32 },
    InitializeStatus { timeout_ms: u32 },
    PreventRemoval { prevent: bool, timeout_ms: u32 },
}

/// A changer, as far as its address map is known.
#[derive(Debug)]
pub struct MediumChanger {
    address_map: Option<ElementAddressMap>,
}

impl View for MediumChanger {
    type V = Option<ElementAddressMap>;

    closed spec fn view(&self) -> Option<ElementAddressMap> {
        self.address_map
    }
}

/// The address map in a mode page answer of `n` bytes.
pub open spec fn map_in(buf: Seq<u8>, n: int) -> Result<ElementAddressMap, TapeErrorView> {
    let p = 8 + be16(buf, 6) as int;
    if p + 20 > n {
        Err(TapeErrorView::InvalidResponse { expected: (p + 20) as usize, actual: n as usize })
    } else {
        Ok(
            ElementAddressMap {
                transport_start: be16(buf, p + 2),
                transport_count: be16(buf, p + 4),
                storage_start: be16(buf, p + 6),
                storage_count: be16(buf, p + 8),
                ie_start: be16(buf, p + 10),
                ie_count: be16(buf, p + 12),
                dt_start: be16(buf, p + 14),
                dt_count: be16(buf, p + 16),
            },
        )
    }
}

/// The number of elements of all types.
pub open spec fn element_count(m: ElementAddressMap) -> int {
    m.transport_count + m.storage_count + m.ie_count + m.dt_count
}

/// The smallest of four addresses.
pub open spec fn first_address(m: ElementAddressMap) -> u16 {
    let a = if m.transport_start <= m.storage_start {
        m.transport_start
    } else {
        m.storage_start
    };
    let b = if m.ie_start <= m.dt_start {
        m.ie_start
    } else {
        m.dt_start
    };
    if a <= b {
        a
    } else {
        b
    }
}

/// What an error says.
pub open spec fn failed<T>(r: Result<T, TapeError>, e: TapeErrorView) -> bool {
    r is Err && r->Err_0@ == e
}

/// A range that ends before `n`, in words.
pub open spec fn out_of_range(what: Seq<char>, n: u16, range: Seq<char>, max: u16) -> Seq<char> {
    what + text::decimal(n as nat) + " 越界（可用 "@ + range + text::decimal(max as nat) + "）"@
}

fn range_error(what: &str, n: u16, range: &str, max: u16) -> (r: TapeError)
    ensures
        r@ == (TapeErrorView::MoveFailed { reason: out_of_range(what@, n, range@, max) }),
{
    let mut t = text::cat4(what, text::decimal_text(n as u64).as_str(), " 越界（可用 ", range);
    t.push_str(text::decimal_text(max as u64).as_str());
    t.push_str("）");
    TapeError::MoveFailed { reason: t }
}

impl MediumChanger {
    pub fn new() -> (r: Self)
        ensures
            r@ is None,
    {
        MediumChanger { address_map: None }
    }

    /// What to send for the address map.
    pub fn address_map_request() -> (r: ChangerAction)
        ensures
            r == (ChangerAction::SenseAddresses { length: 255, timeout_ms: 30_000 }),
    {
        ChangerAction::SenseAddresses { length: 255, timeout_ms: 30_000 }
    }

    /// Reads the address map from an answer of `transferred` bytes.
    pub fn load_address_map(&mut self, buf: &[u8], transferred: usize) -> (r: Result<
        ElementAddressMap,
        TapeError,
    >)
        requires
            buf@.len() >= 8,
            transferred <= buf@.len(),
        ensures
            match map_in(buf@, transferred as int) {
                Ok(m) => r == Ok::<ElementAddressMap, TapeError>(m) && final(self)@ == Some(m),
                Err(e) => failed(r, e) && final(self)@ == old(self)@,
            },
    {
        let p: usize = 8 + read16(buf, 6) as usize;
        if p + 20 > transferred {
            return Err(TapeError::InvalidResponse { expected: p + 20, actual: transferred });
        }
        let m = ElementAddressMap {
            transport_start: read16(buf, p + 2),
            transport_count: read16(buf, p + 4),
            storage_start: read16(buf, p + 6),
            storage_count: read16(buf, p + 8),
            ie_start: read16(buf, p + 10),
            ie_count: read16(buf, p + 12),
            dt_start: read16(buf, p + 14),
            dt_count: read16(buf, p + 16),
        };
        self.address_map = Some(m);
        Ok(m)
    }

    /// The address map, once it has been read.
    pub fn address_map(&self) -> (r: Option<ElementAddressMap>)
        ensures
            r == self@,
    {
        self.address_map
    }

    /// What to send for the status of all elements; the answer goes to
    /// `parse_element_status_data`.
    pub fn read_all_status(&self) -> (r: Result<ChangerAction, TapeError>)
        ensures
            match self@ {
                None => failed(
                    r,
                    TapeErrorView::NotReady(
                        "address map not loaded, call load_address_map() first"@,
                    ),
                ),
                Some(m) => if element_count(m) > 0xffff {
                    failed(
                        r,
                        TapeErrorView::InvalidResponse {
                            expected: 0xffff,
                            actual: element_count(m) as usize,
                        },
                    )
                } else {
                    r == Ok::<ChangerAction, TapeError>(
                        ChangerAction::ReadStatus {
                            start: first_address(m),
                            count: element_count(m) as u16,
                            length: (8 + element_count(m) * 72 + 64) as u32,
                            timeout_ms: 60_000,
                        },
                    )
                },
            },
    {
        let m = match self.address_map {
            Some(m) => m,
            None => {
                return Err(
                    TapeError::NotReady(
                        "address map not loaded, call load_address_map() first".to_owned(),
                    ),
                );
            },
        };
        let total: u32 = m.transport_count as u32 + m.storage_count as u32 + m.ie_count as u32
            + m.dt_count as u32;
        if total > 0xffff {
            return Err(TapeError::InvalidResponse { expected: 0xffff, actual: total as usize });
        }
        let a: u16 = if m.transport_start <= m.storage_start {
            m.transport_start
        } else {
            m.storage_start
        };
        let b: u16 = if m.ie_start <= m.dt_start {
            m.ie_start
        } else {
            m.dt_start
        };
        Ok(
            ChangerAction::ReadStatus {
                start: if a <= b {
                    a
                } else {
                    b
                },
                count: total as u16,
                length: 8 + total * 72 + 64,
                timeout_ms: 60_000,
            },
        )
    }

    fn transport(&self) -> (r: Result<u16, TapeError>)
        ensures
            match self@ {
                None => failed(r, TapeErrorView::NotReady("address map not loaded"@)),
                Some(m) => r == Ok::<u16, TapeError>(m.transport_start),
            },
    {
        match self.address_map {
            Some(m) => Ok(m.transport_start),
            None => Err(TapeError::NotReady("address map not loaded".to_owned())),
        }
    }

    /// What to send to move a medium.
    pub fn move_medium(&self, source_addr: u16, dest_addr: u16) -> (r: Result<
        ChangerAction,
        TapeError,
    >)
        ensures
            match self@ {
                None => failed(r, TapeErrorView::NotReady("address map not loaded"@)),
                Some(m) => r == Ok::<ChangerAction, TapeError>(
                    ChangerAction::Move {
                        transport: m.transport_start,
                        source: source_addr,
                        dest: dest_addr,
                        timeout_ms: 300_000,
                    },
                ),
            },
    {
        match self.transport() {
            Ok(transport) => Ok(
                ChangerAction::Move {
                    transport,
                    source: source_addr,
                    dest: dest_addr,
                    timeout_ms: 300_000,
                },
            ),
            Err(e) => Err(e),
        }
    }

    /// What to send to have the changer take stock.
    pub fn initialize_element_status(&self) -> (r: ChangerAction)
        ensures
            r == (ChangerAction::InitializeStatus { timeout_ms: 600_000 }),
    {
        ChangerAction::InitializeStatus { timeout_ms: 600_000 }
    }

    /// What to send to move one medium in place of another, which moves on.
    pub fn exchange_medium(&self, source_addr: u16, dest1_addr: u16, dest2_addr: u16) -> (r: Result<
        ChangerAction,
        TapeError,
    >)
        ensures
            match self@ {
                None => failed(r, TapeErrorView::NotReady("address map not loaded"@)),
                Some(m) => r == Ok::<ChangerAction, TapeError>(
                    ChangerAction::Exchange {
                        transport: m.transport_start,
                        source: source_addr,
                        first: dest1_addr,
                        second: dest2_addr,
                        timeout_ms: 600_000,
                    },
                ),
            },
    {
        match self.transport() {
            Ok(transport) => Ok(
                ChangerAction::Exchange {
                    transport,
                    source: source_addr,
                    first: dest1_addr,
                    second: dest2_addr,
                    timeout_ms: 600_000,
                },
            ),
            Err(e) => Err(e),
        }
    }

    /// What to send to move the arm to an element.
    pub fn position_to_element(&self, dest_addr: u16) -> (r: Result<ChangerAction, TapeError>)
        ensures
            match self@ {
                None => failed(r, TapeErrorView::NotReady("address map not loaded"@)),
                Some(m) => r == Ok::<ChangerAction, TapeError>(
                    ChangerAction::Position {
                        transport: m.transport_start,
                        dest: dest_addr,
                        timeout_ms: 120_000,
                    },
                ),
            },
    {
        match self.transport() {
            Ok(transport) => Ok(
                ChangerAction::Position { transport, dest: dest_addr, timeout_ms: 120_000 },
            ),
            Err(e) => Err(e),
        }
    }

    /// What to send to lock or unlock the mail slots.
    pub fn prevent_medium_removal(&self, prevent: bool) -> (r: ChangerAction)
        ensures
            r == (ChangerAction::PreventRemoval { prevent, timeout_ms: 10_000 }),
    {
        ChangerAction::PreventRemoval { prevent, timeout_ms: 10_000 }
    }

    /// What to send to move a medium from a mail slot into a storage slot, which count from one.
    pub fn import(&self, ie_offset: u16, storage_slot: u16) -> (r: Result<ChangerAction, TapeError>)
        requires
            self@ matches Some(m) ==> ie_offset < m.ie_count && 0 < storage_slot <= m.storage_count
                ==> m.ie_start + ie_offset <= u16::MAX && m.storage_start + storage_slot
                <= u16::MAX,
        ensures
            match self@ {
                None => failed(r, TapeErrorView::NotReady("address map not loaded"@)),
                Some(m) => if ie_offset >= m.ie_count {
                    failed(
                        r,
                        TapeErrorView::MoveFailed {
                            reason: out_of_range("I/E 偏移 "@, ie_offset, "0.."@, m.ie_count),
                        },
                    )
                } else if storage_slot == 0 || storage_slot > m.storage_count {
                    failed(
                        r,
                        TapeErrorView::MoveFailed {
                            reason: out_of_range(
                                "storage slot "@,
                                storage_slot,
                                "1..="@,
                                m.storage_count,
                            ),
                        },
                    )
                } else {
                    r == Ok::<ChangerAction, TapeError>(
                        ChangerAction::Move {
                            transport: m.transport_start,
                            source: (m.ie_start + ie_offset) as u16,
                            dest: (m.storage_start + storage_slot - 1) as u16,
                            timeout_ms: 300_000,
                        },
                    )
                },
            },
    {
        let m = match self.address_map {
            Some(m) => m,
            None => {
                return Err(TapeError::NotReady("address map not loaded".to_owned()));
            },
        };
        if ie_offset >= m.ie_count {
            return Err(range_error("I/E 偏移 ", ie_offset, "0..", m.ie_count));
        }
        if storage_slot == 0 || storage_slot > m.storage_count {
            return Err(range_error("storage slot ", storage_slot, "1..=", m.storage_count));
        }
        self.move_medium(m.ie_start + ie_offset, m.storage_start + storage_slot - 1)
    }

    /// What to send to move a medium from a storage slot, which count from one, into a mail slot.
    pub fn export(&self, storage_slot: u16, ie_offset: u16) -> (r: Result<ChangerAction, TapeError>)
        requires
            self@ matches Some(m) ==> ie_offset < m.ie_count && 0 < storage_slot <= m.storage_count
                ==> m.ie_start + ie_offset <= u16::MAX && m.storage_start + storage_slot
                <= u16::MAX,
        ensures
            match self@ {
                None => failed(r, TapeErrorView::NotReady("address map not loaded"@)),
                Some(m) => if storage_slot == 0 || storage_slot > m.storage_count {
                    failed(
                        r,
                        TapeErrorView::MoveFailed {
                            reason: out_of_range(
                                "storage slot "@,
                                storage_slot,
                                "1..="@,
                                m.storage_count,
                            ),
                        },
                    )
                } else if ie_offset >= m.ie_count {
                    failed(
                        r,
                        TapeErrorView::MoveFailed {
                            reason: out_of_range("I/E 偏移 "@, ie_offset, "0.."@, m.ie_count),
                        },
                    )
                } else {
                    r == Ok::<ChangerAction, TapeError>(
                        ChangerAction::Move {
                            transport: m.transport_start,
                            source: (m.storage_start + storage_slot - 1) as u16,
                            dest: (m.ie_start + ie_offset) as u16,
                            timeout_ms: 300_000,
                        },
                    )
                },
            },
    {
        let m = match self.address_map {
            Some(m) => m,
            None => {
                return Err(TapeError::NotReady("address map not loaded".to_owned()));
            },
        };
        if storage_slot == 0 || storage_slot > m.storage_count {
            return Err(range_error("storage slot ", storage_slot, "1..=", m.storage_count));
        }
        if ie_offset >= m.ie_count {
            return Err(range_error("I/E 偏移 ", ie_offset, "0..", m.ie_count));
        }
        self.move_medium(m.storage_start + storage_slot - 1, m.ie_start + ie_offset)
    }
}

/// A character that pads a volume tag.
pub open spec fn padding(c: char) -> bool {
    c == '\0' || text::white_space(c)
}

/// The volume tag in a descriptor: 32 bytes from the twelfth on, without padding. All zero bytes
/// and blanks, or nothing but padding, is none.
pub open spec fn tag_in(desc: Seq<u8>) -> Option<Seq<char>> {
    if desc.len() < 44 {
        None
    } else {
        let b = desc.subrange(12, 44);
        if forall|i: int| 0 <= i < 32 ==> #[trigger] b[i] == 0 || b[i] == 0x20 {
            None
        } else {
            let t = text::trim(text::read_as_text(b), |c: char| padding(c));
            if t.len() == 0 {
                None
            } else {
                Some(t)
            }
        }
    }
}

/// What a descriptor reports.
pub open spec fn descriptor(desc: Seq<u8>, code: u8, tagged: bool) -> StatusView {
    StatusView {
        address: be16(desc, 0),
        element_type: if code == 1 {
            ElementType::Transport
        } else if code == 3 {
            ElementType::ImportExport
        } else if code == 4 {
            ElementType::DataTransfer
        } else {
            ElementType::Storage
        },
        full: desc[2] & 0x01u8 != 0,
        volume_tag: if tagged {
            tag_in(desc)
        } else {
            None
        },
        source_address: if desc.len() >= 12 && desc[9] & 0x80u8 != 0 {
            Some(be16(desc, 10))
        } else {
            None
        },
        drive_id: None,
    }
}

/// The descriptors of length `len` between `off` and `end`.
pub open spec fn page_elements(
    data: Seq<u8>,
    off: int,
    len: int,
    end: int,
    code: u8,
    tagged: bool,
) -> Seq<StatusView>
    decreases end - off,
{
    if len > 0 && off + len <= end {
        seq![descriptor(data.subrange(off, off + len), code, tagged)] + page_elements(
            data,
            off + len,
            len,
            end,
            code,
            tagged,
        )
    } else {
        Seq::empty()
    }
}

/// Where the descriptors of length `len` between `off` and `end` stop.
pub open spec fn page_stop(off: int, len: int, end: int) -> int
    decreases end - off,
{
    if len > 0 && off + len <= end {
        page_stop(off + len, len, end)
    } else {
        off
    }
}

/// Where the page with its header at `off` ends.
pub open spec fn page_end(data: Seq<u8>, off: int, end: int) -> int {
    let e = off + 8 + be24(data, off + 5) as int;
    if e <= end {
        e
    } else {
        end
    }
}

/// The descriptors of a page stop within it.
pub proof fn lemma_page_stop(off: int, len: int, end: int)
    ensures
        page_stop(off, len, end) >= off,
        off <= end ==> page_stop(off, len, end) <= end,
    decreases end - off,
{
    if len > 0 && off + len <= end {
        lemma_page_stop(off + len, len, end);
    }
}

/// The elements in the pages from `off` on.
pub open spec fn pages(data: Seq<u8>, off: int, end: int) -> Seq<StatusView>
    decreases end - off,
{
    if off + 8 > end || be16(data, off + 2) == 0 {
        Seq::empty()
    } else {
        let len = be16(data, off + 2) as int;
        let stop = page_end(data, off, end);
        proof {
            lemma_page_stop(off + 8, len, stop);
        }
        page_elements(data, off + 8, len, stop, data[off], data[off + 1] & 0x80u8 != 0) + pages(
            data,
            page_stop(off + 8, len, stop),
            end,
        )
    }
}

/// The shortest descriptor that can be read: it holds an address and its flags.
pub const MIN_DESCRIPTOR: usize = 4;

/// The first length that is too short, of the descriptors in the pages from `off` on.
pub open spec fn short_descriptor(data: Seq<u8>, off: int, end: int) -> Option<int>
    decreases end - off,
{
    if off + 8 > end || be16(data, off + 2) == 0 {
        None
    } else {
        let len = be16(data, off + 2) as int;
        let stop = page_end(data, off, end);
        proof {
            lemma_page_stop(off + 8, len, stop);
        }
        if len < MIN_DESCRIPTOR && off + 8 + len <= stop {
            Some(len)
        } else {
            short_descriptor(data, page_stop(off + 8, len, stop), end)
        }
    }
}

/// Where the report ends: by its header, or by the bytes that there are.
pub open spec fn report_end(data: Seq<u8>) -> int {
    let e = 8 + be24(data, 5) as int;
    if e <= data.len() {
        e
    } else {
        data.len() as int
    }
}

fn extract_volume_tag(desc: &[u8]) -> (r: Option<String>)
    ensures
        r is Some <==> tag_in(desc@) is Some,
        r is Some ==> r->0@ == tag_in(desc@)->0,
{
    if desc.len() < 44 {
        return None;
    }
    let b = vstd::slice::slice_subrange(desc, 12, 44);
    let mut blank = true;
    let mut i: usize = 0;
    while i < 32
        invariant
            i <= 32,
            b@.len() == 32,
            blank == (forall|j: int| 0 <= j < i ==> #[trigger] b@[j] == 0 || b@[j] == 0x20),
        decreases 32 - i,
    {
        if b[i] != 0 && b[i] != 0x20 {
            blank = false;
        }
        i += 1;
    }
    if blank {
        return None;
    }
    let t = text::lossy(b);
    let v = text::chars(t.as_str());
    let ghost drop = |c: char| padding(c);
    let mut marks: Vec<bool> = Vec::new();
    let mut k: usize = 0;
    while k < v.len()
        invariant
            k <= v@.len(),
            marks@.len() == k,
            drop == (|c: char| padding(c)),
            forall|j: int| 0 <= j < k ==> #[trigger] marks@[j] == drop(v@[j]),
        decreases v@.len() - k,
    {
        let c: char = v[k];
        marks.push(c == '\0' || text::is_white(c));
        k += 1;
    }
    let tag = text::trim_marked(t.as_str(), &marks, Ghost(drop));
    if tag.as_str().is_empty() {
        None
    } else {
        Some(tag)
    }
}

fn parse_descriptor(desc: &[u8], elem_type_code: u8, has_pvoltag: bool) -> (r: ElementStatus)
    requires
        desc@.len() >= MIN_DESCRIPTOR,
    ensures
        r@ == descriptor(desc@, elem_type_code, has_pvoltag),
{
    let source_address: Option<u16> = if desc.len() >= 12 && (desc[9] & 0x80) != 0 {
        Some(read16(desc, 10))
    } else {
        None
    };
    let volume_tag = if has_pvoltag {
        extract_volume_tag(desc)
    } else {
        None
    };
    let element_type = match ElementType::from_u8(elem_type_code) {
        Some(t) => t,
        None => ElementType::Storage,
    };
    ElementStatus {
        address: read16(desc, 0),
        element_type,
        full: (desc[2] & 0x01) != 0,
        volume_tag,
        source_address,
        drive_id: None,
    }
}

/// Reads the answer to a status request: a header, and pages of descriptors of one type each. An
/// answer with a descriptor that is too short to be read is refused. Identifiers of drives are not
/// read: what this gives has none.
pub fn parse_element_status_data(data: &[u8]) -> (r: Result<Vec<ElementStatus>, TapeError>)
    ensures
        if data@.len() < 8 {
            failed(
                r,
                TapeErrorView::InvalidResponse { expected: 8, actual: data@.len() as usize },
            )
        } else {
            match short_descriptor(data@, 8, report_end(data@)) {
                Some(len) => failed(
                    r,
                    TapeErrorView::InvalidResponse {
                        expected: MIN_DESCRIPTOR,
                        actual: len as usize,
                    },
                ),
                None => r is Ok && element::status_views(r->Ok_0@) == pages(
                    data@,
                    8,
                    report_end(data@),
                ),
            }
        },
{
    if data.len() < 8 {
        return Err(TapeError::InvalidResponse { expected: 8, actual: data.len() });
    }
    let count: usize = read24(data, 5);
    let end: usize = if 8 + count <= data.len() {
        8 + count
    } else {
        data.len()
    };
    let mut out: Vec<ElementStatus> = Vec::new();
    let ghost all = pages(data@, 8, end as int);
    let mut offset: usize = 8;
    assert(element::status_views(out@) + all =~= all);
    while end - offset >= 8
        invariant
            8 <= offset <= end <= data@.len(),
            end == report_end(data@),
            data@.len() >= 8,
            short_descriptor(data@, 8, end as int) == short_descriptor(
                data@,
                offset as int,
                end as int,
            ),
            element::status_views(out@) + pages(data@, offset as int, end as int) == all,
            all == pages(data@, 8, end as int),
        decreases end - offset,
    {
        let code: u8 = data[offset];
        let flags: u8 = data[offset + 1];
        let len: usize = read16(data, offset + 2) as usize;
        if len == 0 {
            assert(element::status_views(out@) =~= all);
            return Ok(out);
        }
        let tagged = (flags & 0x80) != 0;
        let bytes: usize = read24(data, offset + 5);
        let stop: usize = if bytes <= end - offset - 8 {
            offset + 8 + bytes
        } else {
            end
        };
        let ghost start = offset as int;
        let mut at: usize = offset + 8;
        if len < MIN_DESCRIPTOR && stop - at >= len {
            return Err(TapeError::InvalidResponse { expected: MIN_DESCRIPTOR, actual: len });
        }
        let ghost rest = pages(
            data@,
            page_stop(start + 8, len as int, stop as int),
            end as int,
        );
        let ghost was = element::status_views(out@);
        proof {
            assert(stop == page_end(data@, start, end as int));
            assert(was + (page_elements(data@, at as int, len as int, stop as int, code, tagged)
                + rest) =~= all);
        }
        while stop - at >= len
            invariant
                start + 8 <= at <= stop <= end <= data@.len(),
                len >= MIN_DESCRIPTOR || start + 8 + len > stop,
                len > 0,
                page_stop(start + 8, len as int, stop as int) == page_stop(
                    at as int,
                    len as int,
                    stop as int,
                ),
                element::status_views(out@) + (page_elements(
                    data@,
                    at as int,
                    len as int,
                    stop as int,
                    code,
                    tagged,
                ) + rest) == all,
            decreases stop - at,
        {
            let desc = vstd::slice::slice_subrange(data, at, at + len);
            let ghost before = element::status_views(out@);
            let ghost tail = page_elements(
                data@,
                at + len,
                len as int,
                stop as int,
                code,
                tagged,
            );
            let e = parse_descriptor(desc, code, tagged);
            let ghost ev = e@;
            out.push(e);
            proof {
                assert(element::status_views(out@) =~= before.push(ev));
                assert(before + (seq![ev] + tail + rest) =~= before.push(ev) + (tail + rest));
            }
            at = at + len;
        }
        proof {
            assert(element::status_views(out@) + rest =~= all);
        }
        offset = at;
    }
    assert(element::status_views(out@) =~= all);
    Ok(out)
}

} // verus!
