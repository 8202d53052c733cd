//! What nodes send each other: frames with a kind and a length, and the exchange by which a node
//! fetches a copy of the directory.
//!
//! A frame is one byte of kind, four bytes of length with the highest first, and the payload.
//! The directory is requested with the index that it must hold at least. The answer is a status
//! byte, the index that the copy holds, its length, the copy, and its SHA-256.
use protobuf::Message;
use sha2::{Digest, Sha256};
use vstd::prelude::*;

use crate::error::{TapeError, TapeErrorView};
use crate::text;

verus! {

/// The longest payload of a frame.
pub const MAX_FRAME: usize = 0x80_0000;

/// A frame with a message of the consensus protocol.
pub const FRAME_RAFT: u8 = 0;

/// A frame that requests the directory.
pub const FRAME_DIRECTORY: u8 = 1;

/// The largest copy of a directory that is accepted.
pub const MAX_DIRECTORY: u64 = 0x2_0000_0000;

/// `n` in `w` bytes, the highest first.
pub open spec fn big_endian(n: nat, w: nat) -> Seq<u8>
    decreases w,
{
    if w == 0 {
        Seq::empty()
    } else {
        big_endian(n / 256, (w - 1) as nat).push((n % 256) as u8)
    }
}

/// The number that bytes stand for, the highest first.
pub open spec fn number_of(s: Seq<u8>) -> nat
    decreases s.len(),
{
    if s.len() == 0 {
        0
    } else {
        number_of(s.drop_last()) * 256 + s.last() as nat
    }
}

/// The number of values that `w` bytes have.
pub open spec fn span(w: nat) -> nat
    decreases w,
{
    if w == 0 {
        1
    } else {
        256 * span((w - 1) as nat)
    }
}

/// Bytes give back the number that was written in them.
pub proof fn law_number_round_trip(n: nat, w: nat)
    requires
        n < span(w),
    ensures
        big_endian(n, w).len() == w,
        number_of(big_endian(n, w)) == n,
    decreases w,
{
    if w > 0 {
        assert(n / 256 < span((w - 1) as nat)) by (nonlinear_arith)
            requires
                n < 256 * span((w - 1) as nat),
        ;
        law_number_round_trip(n / 256, (w - 1) as nat);
        let s = big_endian(n, w);
        assert(s.drop_last() =~= big_endian(n / 256, (w - 1) as nat));
    }
}

proof fn lemma_len(n: nat, w: nat)
    ensures
        big_endian(n, w).len() == w,
    decreases w,
{
    if w > 0 {
        lemma_len(n / 256, (w - 1) as nat);
    }
}

proof fn lemma_span()
    ensures
        span(4) == 0x1_0000_0000,
        span(8) == 0x1_0000_0000_0000_0000,
{
    reveal_with_fuel(span, 9);
}

fn be_bytes(n: u64, w: usize) -> (r: Vec<u8>)
    ensures
        r@ == big_endian(n as nat, w as nat),
        r@.len() == w,
    decreases w,
{
    if w == 0 {
        return Vec::new();
    }
    let mut v = be_bytes(n / 256, w - 1);
    v.push((n % 256) as u8);
    proof {
        lemma_len(n as nat, w as nat);
    }
    v
}

proof fn lemma_number_bound(s: Seq<u8>)
    ensures
        number_of(s) < span(s.len()),
    decreases s.len(),
{
    if s.len() > 0 {
        lemma_number_bound(s.drop_last());
    }
}

fn read_number(v: &[u8], from: usize, w: usize) -> (r: u64)
    requires
        from + w <= v@.len(),
        w <= 8,
    ensures
        r == number_of(v@.subrange(from as int, from + w)),
{
    let ghost s = v@.subrange(from as int, from + w);
    let len: usize = v.len();
    let mut r: u64 = 0;
    let mut i: usize = 0;
    assert(s.take(0) =~= Seq::<u8>::empty());
    while i < w
        invariant
            i <= w <= 8,
            len == v@.len(),
            from + w <= len,
            s == v@.subrange(from as int, from + w),
            r == number_of(s.take(i as int)),
        decreases w - i,
    {
        proof {
            assert(s.take(i + 1).drop_last() =~= s.take(i as int));
            lemma_number_bound(s.take(i as int));
            lemma_number_bound(s.take(i + 1));
            lemma_span();
            lemma_span_grows((i + 1) as nat, 8);
        }
        r = r * 256 + v[from + i] as u64;
        i += 1;
    }
    assert(s.take(i as int) =~= s);
    r
}

proof fn lemma_span_grows(a: nat, b: nat)
    requires
        a <= b,
    ensures
        1 <= span(a) <= span(b),
    decreases b,
{
    if b > 0 {
        if a < b {
            lemma_span_grows(a, (b - 1) as nat);
        } else {
            lemma_span_grows((a - 1) as nat, (b - 1) as nat);
        }
    }
}

/// The frame of a kind with a payload.
pub open spec fn frame_of(kind: u8, payload: Seq<u8>) -> Seq<u8> {
    seq![kind] + big_endian(payload.len(), 4) + payload
}

/// Frames a payload.
pub fn frame(kind: u8, payload: &[u8]) -> (r: Vec<u8>)
    requires
        payload@.len() < 0x1_0000_0000,
    ensures
        r@ == frame_of(kind, payload@),
{
    let mut out: Vec<u8> = Vec::new();
    out.push(kind);
    let mut len = be_bytes(payload.len() as u64, 4);
    out.append(&mut len);
    out.extend_from_slice(payload);
    assert(out@ =~= frame_of(kind, payload@));
    out
}

/// What the first five bytes of a frame announce.
#[derive(Debug, Clone, Copy, PartialEq, Eq, Structural)]
pub enum FrameHead {
    /// A message of the consensus protocol, of this length.
    Raft(usize),
    /// A request for the directory, of this length.
    Directory(usize),
    /// A kind that is not known.
    Unknown(u8),
    /// A payload that is longer than any may be.
    TooLarge(u32),
}

/// What the head of a frame announces. A length that is too large is noticed first.
pub open spec fn head_of(head: Seq<u8>) -> FrameHead {
    let n = number_of(head.subrange(1, 5));
    if n > MAX_FRAME {
        FrameHead::TooLarge(n as u32)
    } else if head[0] == FRAME_RAFT {
        FrameHead::Raft(n as usize)
    } else if head[0] == FRAME_DIRECTORY {
        FrameHead::Directory(n as usize)
    } else {
        FrameHead::Unknown(head[0])
    }
}

/// Reads the head of a frame.
pub fn read_head(head: &[u8]) -> (r: FrameHead)
    requires
        head@.len() == 5,
    ensures
        r == head_of(head@),
{
    let n: u64 = read_number(head, 1, 4);
    proof {
        lemma_span();
        lemma_number_bound(head@.subrange(1, 5));
    }
    if n > 0x80_0000 {
        FrameHead::TooLarge(n as u32)
    } else if head[0] == FRAME_RAFT {
        FrameHead::Raft(n as usize)
    } else if head[0] == FRAME_DIRECTORY {
        FrameHead::Directory(n as usize)
    } else {
        FrameHead::Unknown(head[0])
    }
}

/// The head of a frame announces its payload, as long as that is not too large.
pub proof fn law_frame_round_trip(payload: Seq<u8>)
    requires
        payload.len() <= MAX_FRAME,
    ensures
        head_of(frame_of(FRAME_RAFT, payload).take(5)) == FrameHead::Raft(payload.len() as usize),
        head_of(frame_of(FRAME_DIRECTORY, payload).take(5)) == FrameHead::Directory(
            payload.len() as usize,
        ),
        frame_of(FRAME_RAFT, payload).skip(5) == payload,
        frame_of(FRAME_DIRECTORY, payload).skip(5) == payload,
{
    lemma_span();
    law_number_round_trip(payload.len(), 4);
    let a = frame_of(FRAME_RAFT, payload);
    let b = frame_of(FRAME_DIRECTORY, payload);
    assert(a.take(5).subrange(1, 5) =~= big_endian(payload.len(), 4));
    assert(b.take(5).subrange(1, 5) =~= big_endian(payload.len(), 4));
    assert(a.skip(5) =~= payload);
    assert(b.skip(5) =~= payload);
}

/// The frame that requests a directory which holds at least `min_index`.
pub open spec fn request_of(min_index: u64) -> Seq<u8> {
    frame_of(FRAME_DIRECTORY, big_endian(min_index as nat, 8))
}

/// Requests a directory which holds at least `min_index`.
pub fn directory_request(min_index: u64) -> (r: Vec<u8>)
    ensures
        r@ == request_of(min_index),
{
    let payload = be_bytes(min_index, 8);
    frame(FRAME_DIRECTORY, payload.as_slice())
}

/// The index that a request asks for, 0 where it is too short.
pub open spec fn asked_index(payload: Seq<u8>) -> u64 {
    if payload.len() < 8 {
        0
    } else {
        number_of(payload.take(8)) as u64
    }
}

/// Reads the index that a request asks for.
pub fn requested_index(payload: &[u8]) -> (r: u64)
    ensures
        r == asked_index(payload@),
{
    if payload.len() < 8 {
        return 0;
    }
    assert(payload@.subrange(0, 8) =~= payload@.take(8));
    read_number(payload, 0, 8)
}

/// A message of the consensus protocol: nothing here looks inside.
#[verifier::external_type_specification]
#[verifier::external_body]
pub struct ExMessage(raft::eraftpb::Message);

/// What `raft::eraftpb::Message::parse_from_bytes` reads in bytes: a message, or why it is none.
pub uninterp spec fn message_in(b: Seq<u8>) -> Result<raft::eraftpb::Message, Seq<char>>;

/// `raft::eraftpb::Message::parse_from_bytes`: what it reads depends on the bytes alone.
#[verifier::external_body]
fn parse_message(b: &[u8]) -> (r: Result<raft::eraftpb::Message, String>)
    ensures
        match r {
            Ok(m) => message_in(b@) == Ok::<raft::eraftpb::Message, Seq<char>>(m),
            Err(e) => message_in(b@) == Err::<raft::eraftpb::Message, Seq<char>>(e@),
        },
{
    match raft::eraftpb::Message::parse_from_bytes(b) {
        Ok(m) => Ok(m),
        Err(e) => Err(e.to_string()),
    }
}

/// What a frame brings.
#[derive(Debug)]
pub enum Received {
    /// A message for this node.
    Message(raft::eraftpb::Message),
    /// A request for a directory that goes up to this index at least; it is the last frame.
    Fetch(u64),
    /// Nothing that can be used, and why: the connection is closed.
    Hangup(String),
}

/// What a frame brings. The payload of one that is too large or of no known kind is not read.
pub fn receive(head: FrameHead, payload: &[u8]) -> (r: Received)
    ensures
        match r {
            Received::Message(m) => head is Raft && message_in(payload@) == Ok::<
                raft::eraftpb::Message,
                Seq<char>,
            >(m),
            Received::Fetch(i) => head is Directory && i == asked_index(payload@),
            Received::Hangup(why) => match head {
                FrameHead::Raft(_) => message_in(payload@) is Err && why@ == "无法解析的 Raft 消息: "@
                    + message_in(payload@)->Err_0,
                FrameHead::Directory(_) => false,
                FrameHead::Unknown(k) => why@ == "未知的帧种类 "@ + text::decimal(k as nat)
                    + "，断开"@,
                FrameHead::TooLarge(n) => why@ == "收到过大的帧 ("@ + text::decimal(n as nat)
                    + " 字节)，断开"@,
            },
        },
{
    match head {
        FrameHead::Raft(_) => match parse_message(payload) {
            Ok(m) => Received::Message(m),
            Err(e) => Received::Hangup(text::cat2("无法解析的 Raft 消息: ", e.as_str())),
        },
        FrameHead::Directory(_) => Received::Fetch(requested_index(payload)),
        FrameHead::Unknown(k) => Received::Hangup(
            text::cat3("未知的帧种类 ", text::decimal_text(k as u64).as_str(), "，断开"),
        ),
        FrameHead::TooLarge(n) => Received::Hangup(
            text::cat3("收到过大的帧 (", text::decimal_text(n as u64).as_str(), " 字节)，断开"),
        ),
    }
}

/// A request is read as it was written.
pub proof fn law_request_round_trip(min_index: u64)
    ensures
        asked_index(request_of(min_index).skip(5)) == min_index,
{
    lemma_span();
    law_number_round_trip(min_index as nat, 8);
    let p = big_endian(min_index as nat, 8);
    lemma_len(8, 4);
    assert(request_of(min_index).skip(5) =~= p);
    assert(p.take(8) =~= p);
}

/// The index of the copy that answers a request: one that holds enough.
pub fn offered_index(copy: Option<u64>, min_index: u64) -> (r: Option<u64>)
    ensures
        r == (match copy {
            Some(i) => if i >= min_index {
                Some(i)
            } else {
                None
            },
            None => None,
        }),
{
    match copy {
        Some(i) => if i >= min_index {
            Some(i)
        } else {
            None
        },
        None => None,
    }
}

/// The head of an answer: the index and the length of the copy that follows, or that there is
/// none.
pub open spec fn reply_head_of(offer: Option<(u64, u64)>) -> Seq<u8> {
    match offer {
        Some((index, len)) => seq![0u8] + big_endian(index as nat, 8) + big_endian(len as nat, 8),
        None => seq![1u8] + big_endian(0, 8) + big_endian(0, 8),
    }
}

/// Writes the head of an answer.
pub fn reply_head(offer: Option<(u64, u64)>) -> (r: Vec<u8>)
    ensures
        r@ == reply_head_of(offer),
        r@.len() == 17,
{
    let (status, index, len): (u8, u64, u64) = match offer {
        Some((index, len)) => (0, index, len),
        None => (1, 0, 0),
    };
    let mut out: Vec<u8> = Vec::new();
    out.push(status);
    let mut a = be_bytes(index, 8);
    let mut b = be_bytes(len, 8);
    out.append(&mut a);
    out.append(&mut b);
    assert(out@ =~= reply_head_of(offer));
    out
}

/// What the head of an answer comes to: the index and the length of the copy, or why it is not
/// taken.
pub open spec fn reply_of(from: u64, min_index: u64, head: Seq<u8>) -> Result<
    (u64, u64),
    Seq<char>,
> {
    let index = number_of(head.subrange(1, 9)) as u64;
    let len = number_of(head.subrange(9, 17)) as u64;
    if head[0] != 0 {
        Err(
            "节点 "@ + text::decimal(from as nat) + " 暂时给不出覆盖到索引 "@
                + text::decimal(min_index as nat) + " 的目录库快照"@,
        )
    } else if index < min_index {
        Err(
            "节点 "@ + text::decimal(from as nat) + " 的目录库快照只到索引 "@
                + text::decimal(index as nat) + "，不够 "@ + text::decimal(min_index as nat),
        )
    } else if len > MAX_DIRECTORY {
        Err("目录库快照过大："@ + text::decimal(len as nat) + " 字节"@)
    } else {
        Ok((index, len))
    }
}

/// Reads the head of an answer.
pub fn read_reply(from: u64, min_index: u64, head: &[u8]) -> (r: Result<(u64, u64), TapeError>)
    requires
        head@.len() == 17,
    ensures
        match reply_of(from, min_index, head@) {
            Ok(x) => r is Ok && r->Ok_0 == x,
            Err(e) => r is Err && r->Err_0@ == TapeErrorView::Ltfs(e),
        },
{
    if head[0] != 0 {
        let mut m = text::cat4(
            "节点 ",
            text::decimal_text(from).as_str(),
            " 暂时给不出覆盖到索引 ",
            text::decimal_text(min_index).as_str(),
        );
        m.push_str(" 的目录库快照");
        return Err(TapeError::Ltfs(m));
    }
    let index: u64 = read_number(head, 1, 8);
    let len: u64 = read_number(head, 9, 8);
    if index < min_index {
        let mut m = text::cat4(
            "节点 ",
            text::decimal_text(from).as_str(),
            " 的目录库快照只到索引 ",
            text::decimal_text(index).as_str(),
        );
        m.push_str("，不够 ");
        m.push_str(text::decimal_text(min_index).as_str());
        return Err(TapeError::Ltfs(m));
    }
    if len > MAX_DIRECTORY {
        return Err(
            TapeError::Ltfs(
                text::cat3("目录库快照过大：", text::decimal_text(len).as_str(), " 字节"),
            ),
        );
    }
    Ok((index, len))
}

/// An answer is read as it was written: a copy that holds enough and is not too large is taken.
pub proof fn law_reply_round_trip(from: u64, min_index: u64, index: u64, len: u64)
    requires
        index >= min_index,
        len <= MAX_DIRECTORY,
    ensures
        reply_of(from, min_index, reply_head_of(Some((index, len)))) == Ok::<
            (u64, u64),
            Seq<char>,
        >((index, len)),
        reply_of(from, min_index, reply_head_of(None)) is Err,
{
    lemma_span();
    law_number_round_trip(index as nat, 8);
    law_number_round_trip(len as nat, 8);
    let h = reply_head_of(Some((index, len)));
    assert(h.subrange(1, 9) =~= big_endian(index as nat, 8));
    assert(h.subrange(9, 17) =~= big_endian(len as nat, 8));
    lemma_len(0, 8);
}

/// The SHA-256 of bytes.
pub uninterp spec fn sha256_of(b: Seq<u8>) -> Seq<u8>;

/// `sha2::Sha256::digest`: the 32 bytes of the SHA-256 of the argument, which alone they depend
/// on.
#[verifier::external_body]
pub(crate) fn sha256(b: &[u8]) -> (r: Vec<u8>)
    ensures
        r@ == sha256_of(b@),
        r@.len() == 32,
{
    Sha256::digest(b).to_vec()
}

/// The checksum that follows a copy of the directory.
pub fn checksum(copy: &[u8]) -> (r: Vec<u8>)
    ensures
        r@ == sha256_of(copy@),
        r@.len() == 32,
{
    sha256(copy)
}

/// Whether a copy of the directory has the checksum that came with it.
pub fn check_copy(copy: &[u8], want: &[u8]) -> (r: Result<(), TapeError>)
    ensures
        if sha256_of(copy@) == want@ {
            r is Ok
        } else {
            r is Err && r->Err_0@ == TapeErrorView::Ltfs("目录库快照校验和不符"@)
        },
{
    let sum = sha256(copy);
    if same_bytes(sum.as_slice(), want) {
        Ok(())
    } else {
        Err(TapeError::Ltfs("目录库快照校验和不符".to_owned()))
    }
}

fn same_bytes(a: &[u8], b: &[u8]) -> (r: bool)
    ensures
        r == (a@ == b@),
{
    if a.len() != b.len() {
        return false;
    }
    let mut i: usize = 0;
    while i < a.len()
        invariant
            i <= a@.len(),
            a@.len() == b@.len(),
            forall|j: int| 0 <= j < i ==> a@[j] == b@[j],
        decreases a@.len() - i,
    {
        if a[i] != b[i] {
            return false;
        }
        i += 1;
    }
    assert(a@ =~= b@);
    true
}

/// The SHA-256 of bytes in hexadecimal.
pub open spec fn sha256_hex_of(b: Seq<u8>) -> Seq<char> {
    hex_of(sha256_of(b))
}

/// Bytes in lower-case hexadecimal.
pub open spec fn hex_of(b: Seq<u8>) -> Seq<char>
    decreases b.len(),
{
    if b.len() == 0 {
        Seq::empty()
    } else {
        hex_of(b.drop_last()) + text::hex_digits(b.last() as nat, 2)
    }
}

/// Bytes in lower-case hexadecimal.
pub fn hex(b: &[u8]) -> (r: String)
    ensures
        r@ == hex_of(b@),
{
    let mut out = String::new();
    let mut i: usize = 0;
    assert(b@.take(0) =~= Seq::<u8>::empty());
    assert(out@ =~= Seq::<char>::empty());
    while i < b.len()
        invariant
            i <= b@.len(),
            out@ == hex_of(b@.take(i as int)),
        decreases b@.len() - i,
    {
        assert(b@.take(i + 1).drop_last() =~= b@.take(i as int));
        out.push_str(text::hex_text(b[i] as u64, 2).as_str());
        i += 1;
    }
    assert(b@.take(i as int) =~= b@);
    out
}

/// The SHA-256 of bytes in hexadecimal.
pub fn sha256_hex(b: &[u8]) -> (r: String)
    ensures
        r@ == sha256_hex_of(b@),
{
    hex(sha256(b).as_slice())
}

} // verus!
