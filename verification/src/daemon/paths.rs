//! Paths, attribute names and versions as the file service accepts them.
use vstd::prelude::*;

use crate::engine::tree;
use crate::engine::volume_state::{PendingEntry, PendingState, StateError, StateErrorView};
use crate::daemon::state;
use crate::text;

verus! {

/// Why the file service refuses a request.
#[derive(Debug, Clone, PartialEq, Eq)]
pub enum ServiceError {
    /// The node does not serve at the moment.
    NotServing(String),
    PathBusy(String),
    /// The path has a committed version already.
    Exists(String),
    /// The path has no committed version.
    NotFound(String),
    IsDirectory(String),
    NotDirectory(String),
    NotEmpty(String),
    CrossDevice(String),
    NoAttribute(String),
    ProtectedAttribute(String),
    AttributeTooLarge,
    InsufficientCapacity { requested: u64, available: u64 },
    NotWritable(String),
    BadPath(String),
    Io(String),
    /// The tape takes no more; the next one is being fetched. Worth another try later.
    SwitchingTape(String),
    /// The pool has no tape to write to. Trying again does not help.
    NoTape(String),
    /// The file is larger than a tape.
    TooLarge { requested: u64, tape_capacity: u64 },
}

#[verifier::ext_equal]
pub enum ServiceErrorView {
    NotServing(Seq<char>),
    PathBusy(Seq<char>),
    Exists(Seq<char>),
    NotFound(Seq<char>),
    IsDirectory(Seq<char>),
    NotDirectory(Seq<char>),
    NotEmpty(Seq<char>),
    CrossDevice(Seq<char>),
    NoAttribute(Seq<char>),
    ProtectedAttribute(Seq<char>),
    AttributeTooLarge,
    InsufficientCapacity { requested: u64, available: u64 },
    NotWritable(Seq<char>),
    BadPath(Seq<char>),
    Io(Seq<char>),
    SwitchingTape(Seq<char>),
    NoTape(Seq<char>),
    TooLarge { requested: u64, tape_capacity: u64 },
}

impl View for ServiceError {
    type V = ServiceErrorView;

    open spec fn view(&self) -> ServiceErrorView {
        match *self {
            ServiceError::NotServing(s) => ServiceErrorView::NotServing(s@),
            ServiceError::PathBusy(s) => ServiceErrorView::PathBusy(s@),
            ServiceError::Exists(s) => ServiceErrorView::Exists(s@),
            ServiceError::NotFound(s) => ServiceErrorView::NotFound(s@),
            ServiceError::IsDirectory(s) => ServiceErrorView::IsDirectory(s@),
            ServiceError::NotDirectory(s) => ServiceErrorView::NotDirectory(s@),
            ServiceError::NotEmpty(s) => ServiceErrorView::NotEmpty(s@),
            ServiceError::CrossDevice(s) => ServiceErrorView::CrossDevice(s@),
            ServiceError::NoAttribute(s) => ServiceErrorView::NoAttribute(s@),
            ServiceError::ProtectedAttribute(s) => ServiceErrorView::ProtectedAttribute(s@),
            ServiceError::AttributeTooLarge => ServiceErrorView::AttributeTooLarge,
            ServiceError::InsufficientCapacity { requested, available } => {
                ServiceErrorView::InsufficientCapacity { requested, available }
            },
            ServiceError::NotWritable(s) => ServiceErrorView::NotWritable(s@),
            ServiceError::BadPath(s) => ServiceErrorView::BadPath(s@),
            ServiceError::Io(s) => ServiceErrorView::Io(s@),
            ServiceError::SwitchingTape(s) => ServiceErrorView::SwitchingTape(s@),
            ServiceError::NoTape(s) => ServiceErrorView::NoTape(s@),
            ServiceError::TooLarge { requested, tape_capacity } => {
                ServiceErrorView::TooLarge { requested, tape_capacity }
            },
        }
    }
}

impl ServiceErrorView {
    /// The error in words.
    pub open spec fn message(self) -> Seq<char> {
        match self {
            ServiceErrorView::NotServing(s) => "本节点不在服务: "@ + s,
            ServiceErrorView::PathBusy(s) => "路径或其父子路径正在变更: "@ + s,
            ServiceErrorView::Exists(s) => "路径已存在: "@ + s,
            ServiceErrorView::NotFound(s) => "路径不存在: "@ + s,
            ServiceErrorView::IsDirectory(s) => "路径是目录: "@ + s,
            ServiceErrorView::CrossDevice(s) => "此元数据操作要求对象位于当前写入卷: "@ + s,
            ServiceErrorView::NoAttribute(s) => "扩展属性不存在: "@ + s,
            ServiceErrorView::ProtectedAttribute(s) => "扩展属性不可修改: "@ + s,
            ServiceErrorView::AttributeTooLarge => "扩展属性超过65536字节"@,
            ServiceErrorView::NotEmpty(s) => "目录非空: "@ + s,
            ServiceErrorView::NotDirectory(s) => "父路径不是目录: "@ + s,
            ServiceErrorView::InsufficientCapacity { requested, available } => {
                "空间不足: 需要 "@ + text::decimal(requested as nat) + " 可用 "@ + text::decimal(
                    available as nat,
                )
            },
            ServiceErrorView::NotWritable(s) => "卷只读: "@ + s,
            ServiceErrorView::BadPath(s) => "非法路径: "@ + s,
            ServiceErrorView::Io(s) => "暂存区 I/O: "@ + s,
            ServiceErrorView::SwitchingTape(s) => "正在换带: "@ + s,
            ServiceErrorView::NoTape(s) => "池里没有可写的磁带: "@ + s,
            ServiceErrorView::TooLarge { requested, tape_capacity } => {
                "文件 "@ + text::decimal(requested as nat) + " 字节，超过单盘可用容量 "@
                    + text::decimal(tape_capacity as nat) + " 字节"@
            },
        }
    }
}

impl ServiceError {
    /// The error in words.
    pub fn message(&self) -> (r: String)
        ensures
            r@ == self@.message(),
    {
        match self {
            ServiceError::NotServing(s) => text::cat2("本节点不在服务: ", s.as_str()),
            ServiceError::PathBusy(s) => text::cat2("路径或其父子路径正在变更: ", s.as_str()),
            ServiceError::Exists(s) => text::cat2("路径已存在: ", s.as_str()),
            ServiceError::NotFound(s) => text::cat2("路径不存在: ", s.as_str()),
            ServiceError::IsDirectory(s) => text::cat2("路径是目录: ", s.as_str()),
            ServiceError::CrossDevice(s) => text::cat2(
                "此元数据操作要求对象位于当前写入卷: ",
                s.as_str(),
            ),
            ServiceError::NoAttribute(s) => text::cat2("扩展属性不存在: ", s.as_str()),
            ServiceError::ProtectedAttribute(s) => text::cat2(
                "扩展属性不可修改: ",
                s.as_str(),
            ),
            ServiceError::AttributeTooLarge => "扩展属性超过65536字节".to_owned(),
            ServiceError::NotEmpty(s) => text::cat2("目录非空: ", s.as_str()),
            ServiceError::NotDirectory(s) => text::cat2("父路径不是目录: ", s.as_str()),
            ServiceError::InsufficientCapacity { requested, available } => text::cat4(
                "空间不足: 需要 ",
                text::decimal_text(*requested).as_str(),
                " 可用 ",
                text::decimal_text(*available).as_str(),
            ),
            ServiceError::NotWritable(s) => text::cat2("卷只读: ", s.as_str()),
            ServiceError::BadPath(s) => text::cat2("非法路径: ", s.as_str()),
            ServiceError::Io(s) => text::cat2("暂存区 I/O: ", s.as_str()),
            ServiceError::SwitchingTape(s) => text::cat2("正在换带: ", s.as_str()),
            ServiceError::NoTape(s) => text::cat2("池里没有可写的磁带: ", s.as_str()),
            ServiceError::TooLarge { requested, tape_capacity } => {
                let mut t = text::cat4(
                    "文件 ",
                    text::decimal_text(*requested).as_str(),
                    " 字节，超过单盘可用容量 ",
                    text::decimal_text(*tape_capacity).as_str(),
                );
                t.push_str(" 字节");
                t
            },
        }
    }
}

/// The components with a slash before each.
pub open spec fn slashed(p: tree::Parts) -> Seq<char>
    decreases p.len(),
{
    if p.len() == 0 {
        Seq::empty()
    } else {
        slashed(p.drop_last()) + "/"@ + p.last()
    }
}

/// A component that no path may have.
pub open spec fn bad_part(p: Seq<char>) -> bool {
    p == "."@ || p == ".."@ || p.contains('\0')
}

/// A path that the service accepts: some components, none of them bad, no slash at the end, and
/// not in the reserved directory.
pub open spec fn good_path(path: Seq<char>) -> bool {
    let p = tree::parts(path);
    &&& p.len() > 0
    &&& forall|i: int| 0 <= i < p.len() ==> !bad_part(#[trigger] p[i])
    &&& path.last() != '/'
    &&& p[0] != ".tapers"@
}

/// The normal form of a path.
pub open spec fn normal(path: Seq<char>) -> Seq<char> {
    slashed(tree::parts(path))
}

fn is_bad_part(p: &str) -> (r: bool)
    ensures
        r == bad_part(p@),
{
    text::same(p, ".") || text::same(p, "..") || text::has_char(p, '\0')
}

/// Brings a path into its normal form, or refuses it.
pub fn norm(path: &str) -> (r: Result<String, ServiceError>)
    ensures
        if good_path(path@) {
            r is Ok && r->Ok_0@ == normal(path@)
        } else {
            r is Err && r->Err_0@ == ServiceErrorView::BadPath(path@)
        },
{
    let (dirs, name) = match tree::split_path(path) {
        Some(p) => p,
        None => {
            return Err(ServiceError::BadPath(path.to_owned()));
        },
    };
    let mut all = dirs;
    let ghost was = all@;
    all.push(name);
    let ghost p = tree::parts(path@);
    proof {
        assert(text::views(all@) =~= text::views(was).push(name@));
        assert(path@.len() > 0) by {
            if path@.len() == 0 {
                reveal_with_fuel(tree::nonempty, 2);
                assert(text::split(path@, '/') =~= seq![Seq::<char>::empty()]);
                assert(text::split(path@, '/').drop_last() =~= Seq::<Seq<char>>::empty());
            }
        }
    }
    let v = text::chars(path);
    let mut out = String::new();
    let mut i: usize = 0;
    assert(p.take(0) =~= Seq::<Seq<char>>::empty());
    while i < all.len()
        invariant
            i <= all@.len(),
            p == text::views(all@),
            p == tree::parts(path@),
            forall|j: int| 0 <= j < i ==> !bad_part(#[trigger] p[j]),
            out@ == slashed(p.take(i as int)),
        decreases all@.len() - i,
    {
        let part: &str = all[i];
        assert(p[i as int] == part@);
        if is_bad_part(part) {
            return Err(ServiceError::BadPath(path.to_owned()));
        }
        out.push_str("/");
        out.push_str(part);
        proof {
            assert(p.take(i + 1).drop_last() =~= p.take(i as int));
            assert(p.take(i + 1).last() == part@);
        }
        i += 1;
    }
    assert(p.take(i as int) =~= p);
    assert(p[0] == all@[0]@);
    if v[v.len() - 1] == '/' || text::same(all[0], ".tapers") {
        return Err(ServiceError::BadPath(path.to_owned()));
    }
    Ok(out)
}

/// `path` lies under `parent`. Components count: `/ab` does not lie under `/a`.
pub open spec fn below(path: Seq<char>, parent: Seq<char>) -> bool {
    text::has_prefix(path, parent) && path.len() > parent.len() && path[parent.len() as int] == '/'
}

/// Whether `path` lies under `parent`.
pub fn descendant(path: &str, parent: &str) -> (r: bool)
    ensures
        r == below(path@, parent@),
{
    if !text::starts_with(path, parent) {
        return false;
    }
    let v = text::chars(path);
    let n = text::chars(parent).len();
    n < v.len() && v[n] == '/'
}

/// The two paths are the same or one lies under the other.
pub open spec fn related(a: Seq<char>, b: Seq<char>) -> bool {
    a == b || below(a, b) || below(b, a)
}

/// Whether the two paths are the same or one lies under the other.
pub fn are_related(a: &str, b: &str) -> (r: bool)
    ensures
        r == related(a@, b@),
{
    text::same(a, b) || descendant(a, b) || descendant(b, a)
}

/// The characters before the last slash.
pub open spec fn parent_path(path: Seq<char>) -> Seq<char>
    decreases path.len(),
{
    if path.len() == 0 || path.last() == '/' {
        path.take(if path.len() == 0 {
            0
        } else {
            path.len() - 1
        })
    } else {
        parent_path(path.drop_last())
    }
}

/// The path of the directory that holds `path`, empty for the root.
pub fn parent_of(path: &str) -> (r: String)
    ensures
        r@ == parent_path(path@),
{
    let v = text::chars(path);
    let mut n: usize = v.len();
    assert(path@.take(n as int) =~= path@);
    while n > 0 && v[n - 1] != '/'
        invariant
            v@ == path@,
            n <= v@.len(),
            parent_path(path@) == parent_path(path@.take(n as int)),
        decreases n,
    {
        assert(path@.take(n as int).drop_last() =~= path@.take(n - 1));
        n = n - 1;
    }
    if n > 0 {
        n = n - 1;
        assert(path@.take(n + 1).take(n as int) =~= path@.take(n as int));
    } else {
        assert(path@.take(0).take(0) =~= path@.take(0));
    }
    let r = text::text_of(v.as_slice(), 0, n);
    assert(r@ =~= path@.take(n as int));
    r
}

/// A control character, or one that no XML document can hold.
pub open spec fn unfit(c: char) -> bool {
    (c as int) < 0x20 || 0x7f <= (c as int) <= 0x9f || c as int == 0xfffe || c as int == 0xffff
}

/// The attribute key that a client's attribute name stands for.
pub open spec fn xattr_key(name: Seq<char>) -> Result<Seq<char>, ServiceErrorView> {
    let key = name.skip(5);
    if !text::has_prefix(name, "user."@) {
        Err(ServiceErrorView::ProtectedAttribute(name))
    } else if key.len() == 0 || text::has_prefix(key, "user."@) || vstd::utf8::encode_utf8(
        name,
    ).len() > 255 || exists|i: int| 0 <= i < name.len() && unfit(#[trigger] name[i]) {
        Err(ServiceErrorView::BadPath("扩展属性名非法"@))
    } else if text::has_prefix(key, "tapers."@) || text::has_prefix(key, "tape."@)
        || text::has_prefix(key, "ltfs."@) {
        Err(ServiceErrorView::ProtectedAttribute(name))
    } else {
        Ok(key)
    }
}

fn has_unfit(s: &str) -> (r: bool)
    ensures
        r == exists|i: int| 0 <= i < s@.len() && unfit(#[trigger] s@[i]),
{
    let v = text::chars(s);
    let mut i: usize = 0;
    while i < v.len()
        invariant
            v@ == s@,
            i <= v@.len(),
            forall|j: int| 0 <= j < i ==> !unfit(#[trigger] v@[j]),
        decreases v@.len() - i,
    {
        let c: char = v[i];
        proof {
            text::lemma_char_code(c);
        }
        let n: u32 = c as u32;
        if n < 0x20 || (0x7f <= n && n <= 0x9f) || n == 0xfffe || n == 0xffff {
            assert(unfit(s@[i as int]));
            return true;
        }
        i += 1;
    }
    false
}

/// The attribute key for a client's attribute name. Attributes that the service keeps for itself
/// cannot be changed this way.
pub fn writable_xattr_key(name: &str) -> (r: Result<String, ServiceError>)
    ensures
        match xattr_key(name@) {
            Ok(k) => r is Ok && r->Ok_0@ == k,
            Err(e) => r is Err && r->Err_0@ == e,
        },
{
    if !text::starts_with(name, "user.") {
        return Err(ServiceError::ProtectedAttribute(name.to_owned()));
    }
    proof {
        reveal_strlit("user.");
    }
    let key = text::skip_chars(name, 5);
    let k: &str = key.as_str();
    if k.is_empty() || text::starts_with(k, "user.") || name.as_bytes().len() > 255 || has_unfit(name) {
        return Err(ServiceError::BadPath("扩展属性名非法".to_owned()));
    }
    if text::starts_with(k, "tapers.") || text::starts_with(k, "tape.") || text::starts_with(
        k,
        "ltfs.",
    ) {
        return Err(ServiceError::ProtectedAttribute(name.to_owned()));
    }
    Ok(key)
}

/// The version that a text of the form `round.number` holds.
pub open spec fn version_in(s: Seq<char>) -> Option<(u64, u64)> {
    let i = text::first(s, '.') as int;
    let max = u64::MAX as nat;
    if i < s.len() && text::parse_number(s.take(i), max) is Some && text::parse_number(
        s.skip(i + 1),
        max,
    ) is Some {
        Some(
            (
                text::parse_number(s.take(i), max)->0 as u64,
                text::parse_number(s.skip(i + 1), max)->0 as u64,
            ),
        )
    } else {
        None
    }
}

/// Reads a version of the form `round.number`.
pub fn parse_version(s: &str) -> (r: Option<(u64, u64)>)
    ensures
        r == version_in(s@),
{
    let i = text::find(s, '.');
    let v = text::chars(s);
    if i >= v.len() {
        return None;
    }
    let a = text::text_of(v.as_slice(), 0, i);
    let b = text::text_of(v.as_slice(), i + 1, v.len());
    assert(a@ =~= s@.take(i as int));
    assert(b@ =~= s@.skip(i + 1));
    let max: u64 = 0xffff_ffff_ffff_ffff;
    match (text::number(a.as_str(), max), text::number(b.as_str(), max)) {
        (Some(round), Some(seq)) => Some((round, seq)),
        _ => None,
    }
}

/// The text form of a version.
pub fn version_text(round: u64, seq: u64) -> (r: String)
    ensures
        r@ == text::decimal(round as nat) + "."@ + text::decimal(seq as nat),
{
    text::cat3(text::decimal_text(round).as_str(), ".", text::decimal_text(seq).as_str())
}

/// A version that is written down is read back.
pub proof fn law_version_round_trip(round: u64, seq: u64)
    ensures
        version_in(text::decimal(round as nat) + "."@ + text::decimal(seq as nat)) == Some(
            (round, seq),
        ),
{
    let a = text::decimal(round as nat);
    let b = text::decimal(seq as nat);
    let s = a + "."@ + b;
    reveal_strlit(".");
    text::lemma_decimal(round as nat, u64::MAX as nat);
    text::lemma_decimal(seq as nat, u64::MAX as nat);
    text::lemma_first(s, '.');
    assert(s[a.len() as int] == '.');
    let at = text::first(s, '.') as int;
    assert(at == a.len()) by {
        if at < a.len() {
            assert(s[at] == a[at]);
        }
    }
    assert(s.take(at) =~= a);
    assert(s.skip(at + 1) =~= b);
}

/// A change on a path that is not committed yet.
#[derive(Debug, Clone, Copy, PartialEq, Eq, Structural)]
pub enum InFlight {
    /// Content is still coming in.
    Uploading,
    /// Complete, waiting for its batch.
    Staged,
    /// A removal, waiting for its batch.
    Deleting,
}

impl InFlight {
    pub fn as_str(self) -> (r: &'static str)
        ensures
            r@ == (match self {
                InFlight::Uploading => "uploading"@,
                InFlight::Staged => "staged"@,
                InFlight::Deleting => "deleting"@,
            }),
    {
        match self {
            InFlight::Uploading => "uploading",
            InFlight::Staged => "staged",
            InFlight::Deleting => "deleting",
        }
    }
}

/// How far a pending change has come.
pub open spec fn flight(e: PendingEntry) -> InFlight {
    if e.removal {
        InFlight::Deleting
    } else if e.state == PendingState::Ready {
        InFlight::Staged
    } else {
        InFlight::Uploading
    }
}

/// How far a pending change has come.
pub fn in_flight_of(e: &PendingEntry) -> (r: InFlight)
    ensures
        r == flight(*e),
{
    if e.removal {
        InFlight::Deleting
    } else if e.state == PendingState::Ready {
        InFlight::Staged
    } else {
        InFlight::Uploading
    }
}

/// Numbers with commas between them.
pub open spec fn number_list(v: Seq<u64>) -> Seq<char>
    decreases v.len(),
{
    if v.len() == 0 {
        Seq::empty()
    } else if v.len() == 1 {
        text::decimal(v[0] as nat)
    } else {
        number_list(v.drop_last()) + ", "@ + text::decimal(v.last() as nat)
    }
}

/// An error of the volume state, written out.
pub open spec fn state_error_text(e: StateErrorView) -> Seq<char> {
    match e {
        StateErrorView::NotWritable(s) => "NotWritable("@ + state::debug_text(s) + ")"@,
        StateErrorView::InsufficientCapacity { requested, available } => {
            "InsufficientCapacity { requested: "@ + text::decimal(requested as nat)
                + ", available: "@ + text::decimal(available as nat) + " }"@
        },
        StateErrorView::SessionInvalid(n) => "SessionInvalid("@ + text::decimal(n as nat) + ")"@,
        StateErrorView::PathBusy(p) => "PathBusy("@ + state::debug_text(p) + ")"@,
        StateErrorView::NoSuchPending(p) => "NoSuchPending("@ + state::debug_text(p) + ")"@,
        StateErrorView::CommitSlotOccupied(n) => {
            "CommitSlotOccupied("@ + text::decimal(n as nat) + ")"@
        },
        StateErrorView::StaleInstance { batch, current } => {
            "StaleInstance { batch: "@ + text::decimal(batch as nat) + ", current: "@
                + text::decimal(current as nat) + " }"@
        },
        StateErrorView::EvidenceMismatch { expected, got } => {
            "EvidenceMismatch { expected: "@ + text::decimal(expected as nat) + ", got: "@
                + text::decimal(got as nat) + " }"@
        },
        StateErrorView::PublishFailed { notified } => {
            "PublishFailed { notified: ["@ + number_list(notified) + "] }"@
        },
    }
}

fn number_list_text(v: &Vec<u64>) -> (r: String)
    ensures
        r@ == number_list(v@),
{
    let mut out = String::new();
    let mut i: usize = 0;
    while i < v.len()
        invariant
            i <= v@.len(),
            out@ == number_list(v@.take(i as int)),
        decreases v@.len() - i,
    {
        proof {
            assert(v@.take(i + 1).drop_last() =~= v@.take(i as int));
            assert(v@.take(i + 1).last() == v@[i as int]);
        }
        if i > 0 {
            out.push_str(", ");
        }
        out.push_str(text::decimal_text(v[i]).as_str());
        assert(out@ =~= number_list(v@.take(i + 1)));
        i += 1;
    }
    assert(v@.take(i as int) =~= v@);
    out
}

/// An error of the volume state, written out.
pub fn describe_state_error(e: &StateError) -> (r: String)
    ensures
        r@ == state_error_text(e@),
{
    match e {
        StateError::NotWritable(s) => text::cat3(
            "NotWritable(",
            state::quoted(s.as_str()).as_str(),
            ")",
        ),
        StateError::InsufficientCapacity { requested, available } => {
            let mut t = text::cat4(
                "InsufficientCapacity { requested: ",
                text::decimal_text(*requested).as_str(),
                ", available: ",
                text::decimal_text(*available).as_str(),
            );
            t.push_str(" }");
            t
        },
        StateError::SessionInvalid(n) => text::cat3(
            "SessionInvalid(",
            text::decimal_text(*n).as_str(),
            ")",
        ),
        StateError::PathBusy(p) => text::cat3(
            "PathBusy(",
            state::quoted(p.as_str()).as_str(),
            ")",
        ),
        StateError::NoSuchPending(p) => text::cat3(
            "NoSuchPending(",
            state::quoted(p.as_str()).as_str(),
            ")",
        ),
        StateError::CommitSlotOccupied(n) => text::cat3(
            "CommitSlotOccupied(",
            text::decimal_text(*n).as_str(),
            ")",
        ),
        StateError::StaleInstance { batch, current } => {
            let mut t = text::cat4(
                "StaleInstance { batch: ",
                text::decimal_text(*batch).as_str(),
                ", current: ",
                text::decimal_text(*current).as_str(),
            );
            t.push_str(" }");
            t
        },
        StateError::EvidenceMismatch { expected, got } => {
            let mut t = text::cat4(
                "EvidenceMismatch { expected: ",
                text::decimal_text(*expected).as_str(),
                ", got: ",
                text::decimal_text(*got).as_str(),
            );
            t.push_str(" }");
            t
        },
        StateError::PublishFailed { notified } => text::cat3(
            "PublishFailed { notified: [",
            number_list_text(notified).as_str(),
            "] }",
        ),
    }
}

/// What a client is told when the volume state refuses.
pub open spec fn mapped(e: StateErrorView) -> ServiceErrorView {
    match e {
        StateErrorView::PathBusy(p) => ServiceErrorView::PathBusy(p),
        StateErrorView::InsufficientCapacity { requested, available } => {
            ServiceErrorView::InsufficientCapacity { requested, available }
        },
        StateErrorView::NotWritable(s) => ServiceErrorView::NotWritable(s),
        other => ServiceErrorView::NotServing(state_error_text(other)),
    }
}

/// What a client is told when the volume state refuses.
pub fn map_state(e: StateError) -> (r: ServiceError)
    ensures
        r@ == mapped(e@),
{
    match e {
        StateError::PathBusy(p) => ServiceError::PathBusy(p),
        StateError::InsufficientCapacity { requested, available } => {
            ServiceError::InsufficientCapacity { requested, available }
        },
        StateError::NotWritable(s) => ServiceError::NotWritable(s),
        other => ServiceError::NotServing(describe_state_error(&other)),
    }
}

/// A symbolic link's target: not empty, and fit for an XML document.
pub open spec fn good_target(s: Seq<char>) -> bool {
    s.len() > 0 && forall|i: int|
        0 <= i < s.len() ==> {
            let n = (#[trigger] s[i]) as int;
            n == 9 || n == 10 || n == 13 || (n >= 0x20 && n != 0xfffe && n != 0xffff)
        }
}

/// Whether a text can be the target of a symbolic link.
pub fn is_good_target(s: &str) -> (r: bool)
    ensures
        r == good_target(s@),
{
    let v = text::chars(s);
    if v.len() == 0 {
        return false;
    }
    let mut i: usize = 0;
    while i < v.len()
        invariant
            v@ == s@,
            i <= v@.len(),
            forall|j: int|
                0 <= j < i ==> {
                    let n = (#[trigger] v@[j]) as int;
                    n == 9 || n == 10 || n == 13 || (n >= 0x20 && n != 0xfffe && n != 0xffff)
                },
        decreases v@.len() - i,
    {
        let c: char = v[i];
        proof {
            text::lemma_char_code(c);
        }
        let n: u32 = c as u32;
        if !(n == 9 || n == 10 || n == 13 || (n >= 0x20 && n != 0xfffe && n != 0xffff)) {
            assert(!good_target(s@)) by {
                assert(s@[i as int] == c);
            }
            return false;
        }
        i += 1;
    }
    true
}

/// No piece of a cut holds what it was cut at.
proof fn lemma_split_pieces(s: Seq<char>, c: char)
    ensures
        forall|i: int| 0 <= i < text::split(s, c).len() ==> !(#[trigger] text::split(s, c)[i]).contains(c),
    decreases s.len(),
{
    if s.len() > 0 {
        let r = text::split(s.drop_last(), c);
        lemma_split_pieces(s.drop_last(), c);
        text::lemma_split_len(s.drop_last(), c);
        if s.last() != c {
            let x = r.last().push(s.last());
            assert(!r[r.len() - 1].contains(c));
            assert(!x.contains(c)) by {
                if x.contains(c) {
                    let j = choose|j: int| 0 <= j < x.len() && x[j] == c;
                    assert(r.last()[j] == c);
                }
            }
        }
    }
}

/// A separator and a text without one add one piece to a cut.
proof fn lemma_split_append(s: Seq<char>, t: Seq<char>, c: char)
    requires
        !t.contains(c),
    ensures
        text::split(s + seq![c] + t, c) == text::split(s, c).push(t),
    decreases t.len(),
{
    let all = s + seq![c] + t;
    if t.len() == 0 {
        assert(all.drop_last() =~= s);
        assert(t =~= Seq::<char>::empty());
    } else {
        let u = t.drop_last();
        assert(!u.contains(c)) by {
            if u.contains(c) {
                let j = choose|j: int| 0 <= j < u.len() && u[j] == c;
                assert(t[j] == c);
            }
        }
        lemma_split_append(s, u, c);
        assert(all.drop_last() =~= s + seq![c] + u);
        assert(t[t.len() - 1] == all.last());
        assert(all.last() != c);
        assert(u.push(t.last()) =~= t);
        assert(text::split(s, c).push(u).drop_last() =~= text::split(s, c));
    }
}

proof fn lemma_nonempty(pieces: tree::Parts)
    ensures
        forall|i: int|
            0 <= i < tree::nonempty(pieces).len() ==> (#[trigger] tree::nonempty(pieces)[i]).len()
                > 0 && pieces.contains(tree::nonempty(pieces)[i]),
    decreases pieces.len(),
{
    if pieces.len() > 0 {
        let prev = pieces.drop_last();
        lemma_nonempty(prev);
        assert forall|i: int| 0 <= i < tree::nonempty(pieces).len() implies (
        #[trigger] tree::nonempty(pieces)[i]).len() > 0 && pieces.contains(
            tree::nonempty(pieces)[i],
        ) by {
            let x = tree::nonempty(pieces)[i];
            if i < tree::nonempty(prev).len() {
                assert(tree::nonempty(prev)[i] == x);
                let j = choose|j: int| 0 <= j < prev.len() && prev[j] == x;
                assert(pieces[j] == x);
            } else {
                assert(pieces[pieces.len() - 1] == x);
            }
        }
    }
}

/// The components of a path are not empty and hold no slash.
pub proof fn lemma_parts(path: Seq<char>)
    ensures
        forall|i: int|
            0 <= i < tree::parts(path).len() ==> (#[trigger] tree::parts(path)[i]).len() > 0
                && !tree::parts(path)[i].contains('/'),
{
    lemma_split_pieces(path, '/');
    lemma_nonempty(text::split(path, '/'));
    assert forall|i: int| 0 <= i < tree::parts(path).len() implies (
    #[trigger] tree::parts(path)[i]).len() > 0 && !tree::parts(path)[i].contains('/') by {
        let x = tree::parts(path)[i];
        let pieces = text::split(path, '/');
        assert(tree::nonempty(pieces)[i] == x);
        let j = choose|j: int| 0 <= j < pieces.len() && pieces[j] == x;
        assert(!pieces[j].contains('/'));
    }
}

/// Components with a slash before each are the components of the text they make.
proof fn lemma_slashed(p: tree::Parts)
    requires
        forall|i: int| 0 <= i < p.len() ==> (#[trigger] p[i]).len() > 0 && !p[i].contains('/'),
    ensures
        text::split(slashed(p), '/') == seq![Seq::<char>::empty()] + p,
        tree::parts(slashed(p)) == p,
        p.len() > 0 ==> slashed(p).len() > 0 && slashed(p).last() != '/',
    decreases p.len(),
{
    let e = seq![Seq::<char>::empty()];
    if p.len() == 0 {
        assert(e + p =~= e);
        assert(slashed(p) =~= Seq::<char>::empty());
        reveal_with_fuel(tree::nonempty, 2);
        assert(e.drop_last() =~= Seq::<Seq<char>>::empty());
        assert(tree::parts(slashed(p)) =~= p);
    } else {
        let q = p.drop_last();
        assert forall|i: int| 0 <= i < q.len() implies (#[trigger] q[i]).len() > 0
            && !q[i].contains('/') by {
            assert(p[i] == q[i]);
        }
        lemma_slashed(q);
        let last = p.last();
        assert(p[p.len() - 1] == last);
        reveal_strlit("/");
        assert("/"@ =~= seq!['/']);
        lemma_split_append(slashed(q), last, '/');
        assert((e + q).push(last) =~= e + p);
        assert((e + p).drop_last() =~= e + q);
        assert(tree::parts(slashed(p)) =~= p) by {
            assert(q.push(last) =~= p);
        }
        assert(slashed(p).last() == last[last.len() - 1]);
    }
}

/// The normal form of a path that is accepted is accepted, has the same components, and is its
/// own normal form.
pub proof fn law_normal_form(path: Seq<char>)
    requires
        good_path(path),
    ensures
        tree::parts(normal(path)) == tree::parts(path),
        good_path(normal(path)),
        normal(normal(path)) == normal(path),
{
    lemma_parts(path);
    lemma_slashed(tree::parts(path));
}

/// Two accepted paths with the same components have the same normal form, and only those.
pub proof fn law_normal_form_is_unique(a: Seq<char>, b: Seq<char>)
    requires
        good_path(a),
        good_path(b),
    ensures
        normal(a) == normal(b) <==> tree::parts(a) == tree::parts(b),
{
    law_normal_form(a);
    law_normal_form(b);
}

/// A path is not below itself, and what lies below a path that lies below a third lies below that
/// one.
pub proof fn law_below_is_an_order(a: Seq<char>, b: Seq<char>, c: Seq<char>)
    ensures
        !below(a, a),
        below(a, b) && below(b, c) ==> below(a, c),
        !(below(a, b) && below(b, a)),
{
    if below(a, b) && below(b, c) {
        assert(text::has_prefix(a, c)) by {
            assert(a.take(c.len() as int) =~= a.take(b.len() as int).take(c.len() as int));
        }
        assert(a[c.len() as int] == a.take(b.len() as int)[c.len() as int]);
    }
}

proof fn lemma_slashed_front(p: tree::Parts)
    requires
        p.len() > 0,
    ensures
        slashed(p) == "/"@ + p[0] + slashed(p.skip(1)),
        slashed(p.skip(1)).len() > 0 ==> slashed(p.skip(1))[0] == '/',
    decreases p.len(),
{
    reveal_strlit("/");
    if p.len() == 1 {
        assert(p.drop_last() =~= Seq::<Seq<char>>::empty());
        assert(p.skip(1) =~= Seq::<Seq<char>>::empty());
        assert(slashed(p) =~= "/"@ + p[0] + slashed(p.skip(1)));
    } else {
        let q = p.drop_last();
        lemma_slashed_front(q);
        assert(p.skip(1).drop_last() =~= q.skip(1));
        assert(slashed(p) =~= "/"@ + p[0] + slashed(p.skip(1)));
        if q.len() == 1 {
            assert(q.skip(1) =~= Seq::<Seq<char>>::empty());
        }
    }
}

/// No path that the service accepts lies in the directory that it keeps for itself.
pub proof fn law_reserved_directory_is_closed(path: Seq<char>)
    requires
        good_path(path),
    ensures
        normal(path) != "/.tapers"@,
        !below(normal(path), "/.tapers"@),
{
    let p = tree::parts(path);
    let n = normal(path);
    let rest = slashed(p.skip(1));
    lemma_parts(path);
    lemma_slashed_front(p);
    reveal_strlit("/");
    reveal_strlit(".tapers");
    reveal_strlit("/.tapers");
    let kept = "/.tapers"@;
    let first = p[0];
    assert(forall|i: int| 0 <= i < first.len() ==> n[i + 1] == first[i]);
    if n == kept || below(n, kept) {
        assert(forall|i: int| 0 <= i < 8 ==> n[i] == kept[i]) by {
            if below(n, kept) {
                assert(n.take(8) == kept);
                assert forall|i: int| 0 <= i < 8 implies n[i] == kept[i] by {
                    assert(n.take(8)[i] == n[i]);
                }
            }
        }
        if first.len() < 7 {
            assert(rest.len() > 0);
            assert(n[first.len() as int + 1] == '/');
            assert(kept[first.len() as int + 1] != '/');
        } else if first.len() > 7 {
            assert(n[8] == '/');
            assert(first[7] == '/');
            assert(first.contains('/'));
        }
        assert(first =~= ".tapers"@);
    }
}

/// Every name on the way to a file can be a component of a path.
pub open spec fn good_names(n: tree::DirNode) -> bool {
    forall|x: tree::Parts, i: int|
        tree::file_paths(n).contains(x) && 0 <= i < x.len() ==> (#[trigger] x[i]).len() > 0
            && !x[i].contains('/')
}

/// The normal paths at which the tree has a file.
pub open spec fn written_files(n: tree::DirNode) -> Set<Seq<char>> {
    Set::new(
        |p: Seq<char>|
            p == slashed(tree::parts(p)) && tree::file_at(n, tree::parts(p)) is Some,
    )
}

/// The count of a tree is the number of normal paths at which it has a file: a file at any depth
/// counts once, a directory not at all.
pub proof fn law_count_is_the_number_of_paths(n: tree::DirNode)
    requires
        good_names(n),
    ensures
        written_files(n).finite(),
        written_files(n).len() == tree::file_paths(n).len(),
{
    let f = |x: tree::Parts| slashed(x);
    let s = tree::file_paths(n);
    tree::lemma_files_finite(n);
    assert forall|x: tree::Parts| #[trigger] s.contains(x) implies tree::parts(slashed(x)) == x by {
        assert forall|i: int| 0 <= i < x.len() implies (#[trigger] x[i]).len() > 0
            && !x[i].contains('/') by {}
        lemma_slashed(x);
    }
    assert forall|x: tree::Parts, y: tree::Parts|
        s.contains(x) && s.contains(y) && #[trigger] f(x) == #[trigger] f(y) implies x == y by {
        assert(tree::parts(slashed(x)) == tree::parts(slashed(y)));
    }
    assert(s.map(f) =~= written_files(n)) by {
        assert forall|p: Seq<char>| s.map(f).contains(p) implies written_files(n).contains(p) by {
            let x = choose|x: tree::Parts| s.contains(x) && f(x) == p;
            assert(tree::parts(slashed(x)) == x);
        }
        assert forall|p: Seq<char>| written_files(n).contains(p) implies s.map(f).contains(p) by {
            assert(s.contains(tree::parts(p)));
            assert(f(tree::parts(p)) == p);
        }
    }
    vstd::set_lib::lemma_map_size(s, written_files(n), f);
}

} // verus!
