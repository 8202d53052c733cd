//! What a client makes of an answer.
use vstd::prelude::*;

use crate::json;
use crate::json::{Json, JsonView};
use crate::strmap::StrMap;
use crate::text;

verus! {

/// Why a request of a client failed.
#[derive(Debug)]
pub enum ClientError {
    /// No node served in time.
    NoLeader(String),
    /// The server refused. Trying again does not help.
    Rejected { status: u16, body: String },
    NotFound,
    /// Only to be created, but there is a committed version.
    Exists(String),
    Io(String),
}

#[verifier::ext_equal]
pub enum ClientErrorView {
    NoLeader(Seq<char>),
    Rejected { status: u16, body: Seq<char> },
    NotFound,
    Exists(Seq<char>),
    Io(Seq<char>),
}

impl View for ClientError {
    type V = ClientErrorView;

    open spec fn view(&self) -> ClientErrorView {
        match *self {
            ClientError::NoLeader(s) => ClientErrorView::NoLeader(s@),
            ClientError::Rejected { status, body } => {
                ClientErrorView::Rejected { status, body: body@ }
            },
            ClientError::NotFound => ClientErrorView::NotFound,
            ClientError::Exists(s) => ClientErrorView::Exists(s@),
            ClientError::Io(s) => ClientErrorView::Io(s@),
        }
    }
}

impl ClientErrorView {
    /// The error in words.
    pub open spec fn message(self) -> Seq<char> {
        match self {
            ClientErrorView::NoLeader(s) => "没有可用的 Leader: "@ + s,
            ClientErrorView::Rejected { status, body } => {
                "服务端拒绝 ("@ + text::decimal(status as nat) + "): "@ + body
            },
            ClientErrorView::NotFound => "不存在"@,
            ClientErrorView::Exists(p) => "路径已存在: "@ + p,
            ClientErrorView::Io(e) => "I/O: "@ + e,
        }
    }
}

impl ClientError {
    /// The error in words.
    pub fn message(&self) -> (r: String)
        ensures
            r@ == self@.message(),
    {
        match self {
            ClientError::NoLeader(s) => text::cat2("没有可用的 Leader: ", s.as_str()),
            ClientError::Rejected { status, body } => text::cat4(
                "服务端拒绝 (",
                text::decimal_text(*status as u64).as_str(),
                "): ",
                body.as_str(),
            ),
            ClientError::NotFound => "不存在".to_owned(),
            ClientError::Exists(p) => text::cat2("路径已存在: ", p.as_str()),
            ClientError::Io(e) => text::cat2("I/O: ", e.as_str()),
        }
    }
}

/// A committed version of a file.
#[derive(Debug, Clone, PartialEq, Eq)]
pub struct FileStat {
    pub length: u64,
    /// The generation of the index that holds it.
    pub generation: u64,
    /// The round that answered.
    pub round: u64,
    pub barcode: String,
    /// The hash of its content, in lower-case hexadecimal.
    pub sha256: String,
}

#[verifier::ext_equal]
pub struct FileStatView {
    pub length: u64,
    pub generation: u64,
    pub round: u64,
    pub barcode: Seq<char>,
    pub sha256: Seq<char>,
}

impl View for FileStat {
    type V = FileStatView;

    open spec fn view(&self) -> FileStatView {
        FileStatView {
            length: self.length,
            generation: self.generation,
            round: self.round,
            barcode: self.barcode@,
            sha256: self.sha256@,
        }
    }
}

/// The number in a field, or 0.
pub open spec fn num_or_zero(j: JsonView, k: Seq<char>) -> u64 {
    match j.num_in(k) {
        Some(n) => n,
        None => 0,
    }
}

/// The text in a field, or the given one.
pub open spec fn text_or(j: JsonView, k: Seq<char>, other: Seq<char>) -> Seq<char> {
    match j.text_in(k) {
        Some(s) => s,
        None => other,
    }
}

fn num_field(j: &Json, k: &str) -> (r: u64)
    ensures
        r == num_or_zero(j@, k@),
{
    match j.num_in(k) {
        Some(n) => n,
        None => 0,
    }
}

fn text_field(j: &Json, k: &str, other: &str) -> (r: String)
    ensures
        r@ == text_or(j@, k@, other@),
{
    match j.text_in(k) {
        Some(s) => s,
        None => other.to_owned(),
    }
}

/// The committed version that a document tells of.
pub open spec fn stat_in(j: JsonView) -> FileStatView {
    FileStatView {
        length: num_or_zero(j, "length"@),
        generation: num_or_zero(j, "generation"@),
        round: num_or_zero(j, "round"@),
        barcode: text_or(j, "barcode"@, ""@),
        sha256: text_or(j, "sha256"@, ""@),
    }
}

/// The committed version that a document tells of.
pub fn file_stat(j: &Json) -> (r: FileStat)
    ensures
        r@ == stat_in(j@),
{
    FileStat {
        length: num_field(j, "length"),
        generation: num_field(j, "generation"),
        round: num_field(j, "round"),
        barcode: text_field(j, "barcode", ""),
        sha256: text_field(j, "sha256", ""),
    }
}

/// The state of a path: `committed`, or that of the change under way.
#[derive(Debug, Clone, PartialEq, Eq)]
pub struct PathStat {
    pub state: String,
    /// Of the committed version, or what has come in of the new one.
    pub length: u64,
    /// The committed version. It is what is read until a new one is on tape.
    pub current: Option<FileStat>,
}

#[verifier::ext_equal]
pub struct PathStatView {
    pub state: Seq<char>,
    pub length: u64,
    pub current: Option<FileStatView>,
}

impl View for PathStat {
    type V = PathStatView;

    open spec fn view(&self) -> PathStatView {
        PathStatView {
            state: self.state@,
            length: self.length,
            current: match self.current {
                Some(s) => Some(s@),
                None => None,
            },
        }
    }
}

/// The state of a path that a document tells of.
pub open spec fn path_in(j: JsonView) -> PathStatView {
    let state = text_or(j, "state"@, "committed"@);
    PathStatView {
        state,
        length: num_or_zero(j, "length"@),
        current: if state == "committed"@ {
            Some(stat_in(j))
        } else {
            match j.field("current"@) {
                Some(c) => Some(stat_in(c)),
                None => None,
            }
        },
    }
}

/// The state of a path that a document tells of.
pub fn path_stat(j: &Json) -> (r: PathStat)
    ensures
        r@ == path_in(j@),
{
    let state = text_field(j, "state", "committed");
    let current = if text::same(state.as_str(), "committed") {
        Some(file_stat(j))
    } else {
        match j.get("current") {
            Some(c) => Some(file_stat(c)),
            None => None,
        }
    };
    PathStat { length: num_field(j, "length"), state, current }
}

/// The document in a body; none at all where it cannot be read.
pub open spec fn body_doc(b: Seq<u8>) -> JsonView {
    match json::json_read(b) {
        Some(v) => v,
        None => JsonView::Null,
    }
}

/// The document in a body.
pub fn body_json(b: &[u8]) -> (r: Json)
    ensures
        r@ == body_doc(b@),
{
    match Json::read(b) {
        Some(v) => v,
        None => Json::Null,
    }
}

/// The refusal that an answer tells of.
pub open spec fn rejection(status: u16, body: Seq<u8>) -> ClientErrorView {
    ClientErrorView::Rejected { status, body: text::lossy_text(body) }
}

/// The refusal that an answer tells of.
pub fn rejected(status: u16, body: &[u8]) -> (r: ClientError)
    ensures
        r@ == rejection(status, body@),
{
    ClientError::Rejected { status, body: text::lossy(body) }
}

/// The state of a path that an answer tells of; none where there is nothing.
pub fn stat_result(status: u16, body: &[u8]) -> (r: Result<Option<PathStat>, ClientError>)
    ensures
        match r {
            Ok(Some(p)) => status == 200 && p@ == path_in(body_doc(body@)),
            Ok(None) => status == 404,
            Err(e) => status != 200 && status != 404 && e@ == rejection(status, body@),
        },
{
    if status == 200 {
        Ok(Some(path_stat(&body_json(body))))
    } else if status == 404 {
        Ok(None)
    } else {
        Err(rejected(status, body))
    }
}

/// The content that an answer brings.
pub fn content_result(status: u16, body: Vec<u8>) -> (r: Result<Vec<u8>, ClientError>)
    ensures
        match r {
            Ok(b) => status == 200 && b@ == body@,
            Err(e) => status != 200 && e@ == (if status == 404 {
                ClientErrorView::NotFound
            } else {
                rejection(status, body@)
            }),
        },
{
    if status == 200 {
        Ok(body)
    } else if status == 404 {
        Err(ClientError::NotFound)
    } else {
        Err(rejected(status, body.as_slice()))
    }
}

/// `len` bytes from `offset` on, as far as there are any.
pub open spec fn part(b: Seq<u8>, offset: u64, len: u64) -> Seq<u8>
    recommends
        offset < b.len(),
{
    if offset + len >= b.len() {
        b.skip(offset as int)
    } else {
        b.subrange(offset as int, offset + len)
    }
}

/// The part of a file that an answer brings. A server that does not know ranges sends the whole
/// file: the part is cut out of it, and a start that is not in it is refused as a server refuses
/// it. Where nothing is wanted, the byte that was asked for in its place is left out.
pub open spec fn range_read(status: u16, body: Seq<u8>, offset: u64, len: u64) -> Result<
    Seq<u8>,
    ClientErrorView,
> {
    if status == 206 {
        Ok(
            if len == 0 {
                Seq::empty()
            } else {
                body
            },
        )
    } else if status == 200 {
        if offset < body.len() {
            Ok(part(body, offset, len))
        } else {
            Err(ClientErrorView::Rejected { status: 416, body: Seq::empty() })
        }
    } else if status == 404 {
        Err(ClientErrorView::NotFound)
    } else {
        Err(rejection(status, body))
    }
}

/// The part of a file that an answer brings.
pub fn range_result(status: u16, body: Vec<u8>, offset: u64, len: u64) -> (r: Result<
    Vec<u8>,
    ClientError,
>)
    ensures
        match range_read(status, body@, offset, len) {
            Ok(b) => r is Ok && r->Ok_0@ == b,
            Err(e) => r is Err && r->Err_0@ == e,
        },
{
    if status == 206 {
        if len == 0 {
            return Ok(Vec::new());
        }
        return Ok(body);
    }
    if status == 404 {
        return Err(ClientError::NotFound);
    }
    if status != 200 {
        return Err(rejected(status, body.as_slice()));
    }
    let n = body.len();
    if offset >= n as u64 {
        return Err(ClientError::Rejected { status: 416, body: String::new() });
    }
    let from: usize = offset as usize;
    let to: usize = if len >= (n - from) as u64 {
        n
    } else {
        from + len as usize
    };
    let mut out: Vec<u8> = Vec::new();
    let mut i: usize = from;
    while i < to
        invariant
            from <= i <= to <= n == body@.len(),
            out@ == body@.subrange(from as int, i as int),
        decreases to - i,
    {
        out.push(body[i]);
        assert(out@ =~= body@.subrange(from as int, i + 1));
        i += 1;
    }
    assert(out@ =~= part(body@, offset, len));
    Ok(out)
}

/// A direct child of a directory.
#[derive(Debug, Clone, PartialEq, Eq)]
pub struct DirItem {
    pub name: String,
    pub is_dir: bool,
    /// Of a file; empty for a directory.
    pub state: String,
    pub committed_length: Option<u64>,
    pub staged_length: Option<u64>,
}

#[verifier::ext_equal]
pub struct DirItemView {
    pub name: Seq<char>,
    pub is_dir: bool,
    pub state: Seq<char>,
    pub committed_length: Option<u64>,
    pub staged_length: Option<u64>,
}

impl View for DirItem {
    type V = DirItemView;

    open spec fn view(&self) -> DirItemView {
        DirItemView {
            name: self.name@,
            is_dir: self.is_dir,
            state: self.state@,
            committed_length: self.committed_length,
            staged_length: self.staged_length,
        }
    }
}

/// The entry that a document tells of.
pub open spec fn item_in(j: JsonView) -> DirItemView {
    DirItemView {
        name: text_or(j, "name"@, ""@),
        is_dir: j.text_in("type"@) == Some("dir"@),
        state: text_or(j, "state"@, ""@),
        committed_length: j.num_in("committed_length"@),
        staged_length: j.num_in("staged_length"@),
    }
}

fn dir_item(j: &Json) -> (r: DirItem)
    ensures
        r@ == item_in(j@),
{
    let is_dir = match j.text_in("type") {
        Some(t) => text::same(t.as_str(), "dir"),
        None => false,
    };
    DirItem {
        name: text_field(j, "name", ""),
        is_dir,
        state: text_field(j, "state", ""),
        committed_length: j.num_in("committed_length"),
        staged_length: j.num_in("staged_length"),
    }
}

/// The documents in a list, none where there is no list.
pub open spec fn list_or_none(j: JsonView, k: Seq<char>) -> Seq<JsonView> {
    match j.list_in(k) {
        Some(v) => v,
        None => Seq::empty(),
    }
}

pub open spec fn item_views(v: Seq<DirItem>) -> Seq<DirItemView> {
    v.map_values(|d: DirItem| d@)
}

/// The entries that a document tells of.
pub fn dir_items(j: &Json) -> (r: Vec<DirItem>)
    ensures
        item_views(r@) == list_or_none(j@, "entries"@).map_values(|e: JsonView| item_in(e)),
{
    let mut out: Vec<DirItem> = Vec::new();
    match j.list_in("entries") {
        None => {},
        Some(v) => {
            let ghost f = |e: JsonView| item_in(e);
            let ghost all = json::items(v@);
            proof {
                json::lemma_items(v@);
            }
            let mut i: usize = 0;
            while i < v.len()
                invariant
                    i <= v@.len(),
                    all == json::items(v@),
                    all.len() == v@.len(),
                    forall|k: int| 0 <= k < v@.len() ==> #[trigger] all[k] == v@[k]@,
                    f == (|e: JsonView| item_in(e)),
                    item_views(out@) == all.take(i as int).map_values(f),
                decreases v@.len() - i,
            {
                let ghost was = out@;
                let d = dir_item(&v[i]);
                out.push(d);
                assert(item_views(out@) =~= item_views(was).push(d@));
                assert(item_views(out@) =~= all.take(i + 1).map_values(f));
                i += 1;
            }
            assert(all.take(i as int) =~= all);
        },
    }
    assert(item_views(out@) =~= list_or_none(j@, "entries"@).map_values(|e: JsonView| item_in(e)));
    out
}

/// The entries of a directory that an answer tells of.
pub fn dir_result(status: u16, body: &[u8]) -> (r: Result<Vec<DirItem>, ClientError>)
    ensures
        match r {
            Ok(v) => status == 200 && item_views(v@) == list_or_none(
                body_doc(body@),
                "entries"@,
            ).map_values(|e: JsonView| item_in(e)),
            Err(e) => status != 200 && e@ == (if status == 404 {
                ClientErrorView::NotFound
            } else {
                rejection(status, body@)
            }),
        },
{
    if status == 200 {
        Ok(dir_items(&body_json(body)))
    } else if status == 404 {
        Err(ClientError::NotFound)
    } else {
        Err(rejected(status, body))
    }
}

/// What a server says came of a command.
pub fn admin_result(status: u16, body: &[u8]) -> (r: Result<String, ClientError>)
    ensures
        match r {
            Ok(s) => status == 200 && s@ == text_or(body_doc(body@), "result"@, ""@),
            Err(e) => status != 200 && e@ == (ClientErrorView::Rejected {
                status,
                body: match body_doc(body@).text_in("detail"@) {
                    Some(d) => d,
                    None => text::lossy_text(body@),
                },
            }),
        },
{
    let j = body_json(body);
    if status == 200 {
        return Ok(text_field(&j, "result", ""));
    }
    let detail = match j.text_in("detail") {
        Some(d) => d,
        None => text::lossy(body),
    };
    Err(ClientError::Rejected { status, body: detail })
}

/// A tape of a pool.
#[derive(Debug, Clone, PartialEq, Eq)]
pub struct TapeInfo {
    pub barcode: String,
    pub state: String,
    pub generation: u64,
    pub files: u64,
    pub bytes_used: u64,
    pub live_files: u64,
    pub live_bytes: u64,
    /// Bytes on the tape that nothing refers to any more.
    pub reclaimable: u64,
}

#[verifier::ext_equal]
pub struct TapeInfoView {
    pub barcode: Seq<char>,
    pub state: Seq<char>,
    pub generation: u64,
    pub files: u64,
    pub bytes_used: u64,
    pub live_files: u64,
    pub live_bytes: u64,
    pub reclaimable: u64,
}

impl View for TapeInfo {
    type V = TapeInfoView;

    open spec fn view(&self) -> TapeInfoView {
        TapeInfoView {
            barcode: self.barcode@,
            state: self.state@,
            generation: self.generation,
            files: self.files,
            bytes_used: self.bytes_used,
            live_files: self.live_files,
            live_bytes: self.live_bytes,
            reclaimable: self.reclaimable,
        }
    }
}

/// The tape that a document tells of.
pub open spec fn tape_in(j: JsonView) -> TapeInfoView {
    TapeInfoView {
        barcode: text_or(j, "barcode"@, ""@),
        state: text_or(j, "state"@, "-"@),
        generation: num_or_zero(j, "generation"@),
        files: num_or_zero(j, "files"@),
        bytes_used: num_or_zero(j, "bytes_used"@),
        live_files: num_or_zero(j, "live_files"@),
        live_bytes: num_or_zero(j, "live_bytes"@),
        reclaimable: num_or_zero(j, "reclaimable_bytes"@),
    }
}

fn tape_info(j: &Json) -> (r: TapeInfo)
    ensures
        r@ == tape_in(j@),
{
    TapeInfo {
        barcode: text_field(j, "barcode", ""),
        state: text_field(j, "state", "-"),
        generation: num_field(j, "generation"),
        files: num_field(j, "files"),
        bytes_used: num_field(j, "bytes_used"),
        live_files: num_field(j, "live_files"),
        live_bytes: num_field(j, "live_bytes"),
        reclaimable: num_field(j, "reclaimable_bytes"),
    }
}

/// A pool and its tapes.
#[derive(Debug, Clone, PartialEq, Eq)]
pub struct PoolInfo {
    pub uuid: String,
    pub name: String,
    pub file_limit: u64,
    pub tapes: Vec<String>,
    pub tape_details: Vec<TapeInfo>,
}

#[verifier::ext_equal]
pub struct PoolInfoView {
    pub uuid: Seq<char>,
    pub name: Seq<char>,
    pub file_limit: u64,
    pub tapes: Seq<Seq<char>>,
    pub tape_details: Seq<TapeInfoView>,
}

impl View for PoolInfo {
    type V = PoolInfoView;

    open spec fn view(&self) -> PoolInfoView {
        PoolInfoView {
            uuid: self.uuid@,
            name: self.name@,
            file_limit: self.file_limit,
            tapes: text::string_views(self.tapes@),
            tape_details: self.tape_details@.map_values(|t: TapeInfo| t@),
        }
    }
}

/// The texts among the documents.
pub open spec fn texts_in(v: Seq<JsonView>) -> Seq<Seq<char>>
    decreases v.len(),
{
    if v.len() == 0 {
        Seq::empty()
    } else {
        match v.last().text() {
            Some(s) => texts_in(v.drop_last()).push(s),
            None => texts_in(v.drop_last()),
        }
    }
}

fn text_list(j: &Json, k: &str) -> (r: Vec<String>)
    ensures
        text::string_views(r@) == texts_in(list_or_none(j@, k@)),
{
    let mut out: Vec<String> = Vec::new();
    assert(text::string_views(out@) =~= Seq::<Seq<char>>::empty());
    match j.list_in(k) {
        None => {},
        Some(v) => {
            let ghost all = json::items(v@);
            proof {
                json::lemma_items(v@);
            }
            let mut i: usize = 0;
            while i < v.len()
                invariant
                    i <= v@.len(),
                    all == json::items(v@),
                    all.len() == v@.len(),
                    forall|k: int| 0 <= k < v@.len() ==> #[trigger] all[k] == v@[k]@,
                    text::string_views(out@) == texts_in(all.take(i as int)),
                decreases v@.len() - i,
            {
                assert(all.take(i + 1).drop_last() =~= all.take(i as int));
                match v[i].as_str() {
                    Some(s) => {
                        let ghost was = out@;
                        out.push(s.to_owned());
                        assert(text::string_views(out@) =~= text::string_views(was).push(s@));
                    },
                    None => {},
                }
                i += 1;
            }
            assert(all.take(i as int) =~= all);
        },
    }
    out
}

fn tape_list(j: &Json) -> (r: Vec<TapeInfo>)
    ensures
        r@.map_values(|t: TapeInfo| t@) == list_or_none(j@, "tape_details"@).map_values(
            |d: JsonView| tape_in(d),
        ),
{
    let mut out: Vec<TapeInfo> = Vec::new();
    match j.list_in("tape_details") {
        None => {},
        Some(v) => {
            let ghost f = |d: JsonView| tape_in(d);
            let ghost g = |t: TapeInfo| t@;
            let ghost all = json::items(v@);
            proof {
                json::lemma_items(v@);
            }
            let mut i: usize = 0;
            while i < v.len()
                invariant
                    i <= v@.len(),
                    all == json::items(v@),
                    all.len() == v@.len(),
                    forall|k: int| 0 <= k < v@.len() ==> #[trigger] all[k] == v@[k]@,
                    f == (|d: JsonView| tape_in(d)),
                    g == (|t: TapeInfo| t@),
                    out@.map_values(g) == all.take(i as int).map_values(f),
                decreases v@.len() - i,
            {
                let ghost was = out@;
                let d = tape_info(&v[i]);
                out.push(d);
                assert(out@.map_values(g) =~= was.map_values(g).push(d@));
                assert(out@.map_values(g) =~= all.take(i + 1).map_values(f));
                i += 1;
            }
            assert(all.take(i as int) =~= all);
        },
    }
    assert(out@.map_values(|t: TapeInfo| t@) =~= list_or_none(j@, "tape_details"@).map_values(
        |d: JsonView| tape_in(d),
    ));
    out
}

/// The pool that a document tells of.
pub open spec fn pool_in(j: JsonView) -> PoolInfoView {
    PoolInfoView {
        uuid: text_or(j, "uuid"@, ""@),
        name: text_or(j, "name"@, ""@),
        file_limit: num_or_zero(j, "file_limit"@),
        tapes: texts_in(list_or_none(j, "tapes"@)),
        tape_details: list_or_none(j, "tape_details"@).map_values(|d: JsonView| tape_in(d)),
    }
}

fn pool_info(j: &Json) -> (r: PoolInfo)
    ensures
        r@ == pool_in(j@),
{
    PoolInfo {
        uuid: text_field(j, "uuid", ""),
        name: text_field(j, "name", ""),
        file_limit: num_field(j, "file_limit"),
        tapes: text_list(j, "tapes"),
        tape_details: tape_list(j),
    }
}

/// The pools that a document tells of.
pub fn pools(j: &Json) -> (r: Vec<PoolInfo>)
    ensures
        r@.map_values(|p: PoolInfo| p@) == list_or_none(j@, "pools"@).map_values(
            |d: JsonView| pool_in(d),
        ),
{
    let mut out: Vec<PoolInfo> = Vec::new();
    match j.list_in("pools") {
        None => {},
        Some(v) => {
            let ghost f = |d: JsonView| pool_in(d);
            let ghost g = |p: PoolInfo| p@;
            let ghost all = json::items(v@);
            proof {
                json::lemma_items(v@);
            }
            let mut i: usize = 0;
            while i < v.len()
                invariant
                    i <= v@.len(),
                    all == json::items(v@),
                    all.len() == v@.len(),
                    forall|k: int| 0 <= k < v@.len() ==> #[trigger] all[k] == v@[k]@,
                    f == (|d: JsonView| pool_in(d)),
                    g == (|p: PoolInfo| p@),
                    out@.map_values(g) == all.take(i as int).map_values(f),
                decreases v@.len() - i,
            {
                let ghost was = out@;
                let p = pool_info(&v[i]);
                out.push(p);
                assert(out@.map_values(g) =~= was.map_values(g).push(p@));
                assert(out@.map_values(g) =~= all.take(i + 1).map_values(f));
                i += 1;
            }
            assert(all.take(i as int) =~= all);
        },
    }
    assert(out@.map_values(|p: PoolInfo| p@) =~= list_or_none(j@, "pools"@).map_values(
        |d: JsonView| pool_in(d),
    ));
    out
}

/// The files that a document tells of, with their lengths.
pub open spec fn files_in(j: JsonView) -> Map<Seq<char>, u64> {
    match j.field("files"@) {
        Some(JsonView::Obj(m)) => Map::new(
            |k: Seq<char>| m.contains_key(k),
            |k: Seq<char>|
                match m[k].num() {
                    Some(n) => n,
                    None => 0,
                },
        ),
        _ => Map::empty(),
    }
}

/// The files that a document tells of, with their lengths, in the order of their paths.
pub fn files_listed(j: &Json) -> (r: StrMap<u64>)
    ensures
        r@ == files_in(j@),
{
    let mut out: StrMap<u64> = StrMap::new();
    match j.get("files") {
        Some(Json::Obj(v)) => {
            let ghost m = json::fields(v@);
            let mut i: usize = 0;
            while i < v.len()
                invariant
                    i <= v@.len(),
                    forall|k: Seq<char>| #[trigger]
                        out@.contains_key(k) <==> json::fields(v@.take(i as int)).contains_key(k),
                    forall|k: Seq<char>| #[trigger]
                        out@.contains_key(k) ==> out@[k] == (match json::fields(
                            v@.take(i as int),
                        )[k].num() {
                            Some(n) => n,
                            None => 0,
                        }),
                decreases v@.len() - i,
            {
                proof {
                    assert(v@.take(i + 1) =~= v@.take(i as int).push(v@[i as int]));
                    json::lemma_fields_push(v@.take(i as int), v@[i as int]);
                }
                let n: u64 = match v[i].1.as_u64() {
                    Some(n) => n,
                    None => 0,
                };
                out.insert(v[i].0.clone(), n);
                i += 1;
            }
            assert(v@.take(i as int) =~= v@);
            assert(out@ =~= files_in(j@));
        },
        _ => {
            assert(out@ =~= files_in(j@));
        },
    }
    out
}

} // verus!
