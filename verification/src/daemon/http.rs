//! What a client is answered.
use vstd::prelude::*;

use crate::daemon::directory::{PoolRow, PoolRowView};
use crate::daemon::files;
use crate::daemon::files::{
    DirEntry, FileService, Flight, NodeRow, PathState, ServiceView, Stat, StatView, TaskStatus,
    TaskView,
};
use crate::daemon::node::{AdminReply, AdminReplyView};
use crate::daemon::paths;
use crate::daemon::paths::{InFlight, ServiceError, ServiceErrorView};
use crate::daemon::reading::ReadError;
use crate::daemon::request;
use crate::daemon::request::{Headers, Route, RouteView};
use crate::daemon::status;
use crate::daemon::status::{NodeStatus, StatusView, TapeRow, TapeRowView};
use crate::idmap::IdMap;
use crate::json::{Fields, Items, Json, JsonView};
use crate::strmap;
use crate::strmap::StrMap;
use crate::text;

verus! {

/// A status code with its name and a document.
#[derive(Debug)]
pub struct Answer {
    pub code: u16,
    pub reason: &'static str,
    pub body: Json,
}

#[verifier::ext_equal]
pub struct AnswerView {
    pub code: u16,
    pub reason: Seq<char>,
    pub body: JsonView,
}

impl View for Answer {
    type V = AnswerView;

    open spec fn view(&self) -> AnswerView {
        AnswerView { code: self.code, reason: self.reason@, body: self.body@ }
    }
}

/// The name of a status code.
pub open spec fn name_of(code: u16) -> Seq<char> {
    if code == 200 {
        "OK"@
    } else if code == 201 {
        "Created"@
    } else if code == 202 {
        "Accepted"@
    } else if code == 400 {
        "Bad Request"@
    } else if code == 404 {
        "Not Found"@
    } else if code == 409 {
        "Conflict"@
    } else if code == 411 {
        "Length Required"@
    } else if code == 412 {
        "Precondition Failed"@
    } else if code == 416 {
        "Range Not Satisfiable"@
    } else if code == 503 {
        "Service Unavailable"@
    } else if code == 504 {
        "Gateway Timeout"@
    } else if code == 507 {
        "Insufficient Storage"@
    } else {
        "Internal Server Error"@
    }
}

/// The answer with this code.
pub open spec fn answer(code: u16, body: JsonView) -> AnswerView {
    AnswerView { code, reason: name_of(code), body }
}

fn answered(code: u16, body: Json) -> (r: Answer)
    ensures
        r@ == answer(code, body@),
{
    let reason: &'static str = if code == 200 {
        "OK"
    } else if code == 201 {
        "Created"
    } else if code == 202 {
        "Accepted"
    } else if code == 400 {
        "Bad Request"
    } else if code == 404 {
        "Not Found"
    } else if code == 409 {
        "Conflict"
    } else if code == 411 {
        "Length Required"
    } else if code == 412 {
        "Precondition Failed"
    } else if code == 416 {
        "Range Not Satisfiable"
    } else if code == 503 {
        "Service Unavailable"
    } else if code == 504 {
        "Gateway Timeout"
    } else if code == 507 {
        "Insufficient Storage"
    } else {
        "Internal Server Error"
    };
    Answer { code, reason, body }
}

/// A document with an error alone.
pub open spec fn error_doc(error: Seq<char>) -> JsonView {
    JsonView::Obj(map!["error"@ => JsonView::Str(error)])
}

/// A document with an error and a second field.
pub open spec fn error_with(error: Seq<char>, key: Seq<char>, value: JsonView) -> JsonView {
    JsonView::Obj(map!["error"@ => JsonView::Str(error), key => value])
}

/// A document with an error and two numbers.
pub open spec fn error_with_two(
    error: Seq<char>,
    k1: Seq<char>,
    v1: u64,
    k2: Seq<char>,
    v2: u64,
) -> JsonView {
    JsonView::Obj(
        map!["error"@ => JsonView::Str(error), k1 => JsonView::Num(v1), k2 => JsonView::Num(v2)],
    )
}

/// A plain error.
pub fn plain_error(code: u16, error: &str) -> (r: Answer)
    ensures
        r@ == answer(code, error_doc(error@)),
{
    answered(code, Fields::new().with("error", Json::str_of(error)).done())
}

fn error_and_text(code: u16, error: &str, key: &str, value: &str) -> (r: Answer)
    ensures
        r@ == answer(code, error_with(error@, key@, JsonView::Str(value@))),
{
    answered(
        code,
        Fields::new().with("error", Json::str_of(error)).with(key, Json::str_of(value)).done(),
    )
}

fn error_and_numbers(code: u16, error: &str, k1: &str, v1: u64, k2: &str, v2: u64) -> (r: Answer)
    ensures
        r@ == answer(code, error_with_two(error@, k1@, v1, k2@, v2)),
{
    answered(
        code,
        Fields::new().with("error", Json::str_of(error)).with(k1, Json::Num(v1)).with(
            k2,
            Json::Num(v2),
        ).done(),
    )
}

/// The address under which clients reach a node.
pub open spec fn url_doc(addrs: Map<u64, Seq<char>>, node: u64) -> JsonView {
    if addrs.contains_key(node) {
        JsonView::Str("http://"@ + addrs[node])
    } else {
        JsonView::Null
    }
}

fn url_json(addrs: &IdMap<String>, node: u64) -> (r: Json)
    ensures
        r@ == url_doc(addrs@, node),
{
    match addrs.get(node) {
        Some(a) => {
            let url = text::cat2("http://", a.as_str());
            Json::str_of(url.as_str())
        },
        None => Json::Null,
    }
}

/// A refusal that points to the leader.
pub open spec fn elsewhere(
    error: Seq<char>,
    detail: Seq<char>,
    leader: u64,
    addrs: Map<u64, Seq<char>>,
) -> JsonView {
    JsonView::Obj(
        map![
            "error"@ => JsonView::Str(error),
            "detail"@ => JsonView::Str(detail),
            "leader"@ => JsonView::Num(leader),
            "leader_url"@ => url_doc(addrs, leader),
        ],
    )
}

fn refer(error: &str, detail: &str, leader: u64, addrs: &IdMap<String>) -> (r: Answer)
    ensures
        r@ == answer(503, elsewhere(error@, detail@, leader, addrs@)),
{
    answered(
        503,
        Fields::new().with("error", Json::str_of(error)).with("detail", Json::str_of(detail)).with(
            "leader",
            Json::Num(leader),
        ).with("leader_url", url_json(addrs, leader)).done(),
    )
}

/// What a refusal of the file service is answered. Only a node that does not serve points to the
/// leader: a change of tape is worth another try at the same node.
pub open spec fn refused(
    e: ServiceErrorView,
    leader: u64,
    addrs: Map<u64, Seq<char>>,
) -> AnswerView {
    match e {
        ServiceErrorView::NotServing(why) => answer(
            503,
            elsewhere("not_serving"@, why, leader, addrs),
        ),
        ServiceErrorView::SwitchingTape(why) => answer(
            503,
            error_with("switching_tape"@, "detail"@, JsonView::Str(why)),
        ),
        ServiceErrorView::NoTape(why) => answer(
            507,
            error_with("no_tape"@, "detail"@, JsonView::Str(why)),
        ),
        ServiceErrorView::TooLarge { requested, tape_capacity } => answer(
            507,
            error_with_two(
                "too_large"@,
                "requested"@,
                requested,
                "tape_capacity"@,
                tape_capacity,
            ),
        ),
        ServiceErrorView::PathBusy(p) => answer(
            409,
            error_with("path_busy"@, "path"@, JsonView::Str(p)),
        ),
        ServiceErrorView::Exists(p) => answer(
            412,
            error_with("exists"@, "path"@, JsonView::Str(p)),
        ),
        ServiceErrorView::InsufficientCapacity { requested, available } => answer(
            507,
            error_with_two(
                "insufficient_capacity"@,
                "requested"@,
                requested,
                "available"@,
                available,
            ),
        ),
        ServiceErrorView::NotWritable(why) => answer(
            503,
            error_with("read_only"@, "detail"@, JsonView::Str(why)),
        ),
        ServiceErrorView::BadPath(p) => answer(
            400,
            error_with("bad_path"@, "path"@, JsonView::Str(p)),
        ),
        ServiceErrorView::Io(e) => answer(
            500,
            error_with("spool_io"@, "detail"@, JsonView::Str(e)),
        ),
        ServiceErrorView::NotFound(p) => answer(
            404,
            error_with("not_found"@, "path"@, JsonView::Str(p)),
        ),
        ServiceErrorView::IsDirectory(p) => answer(
            409,
            error_with("is_directory"@, "path"@, JsonView::Str(p)),
        ),
        ServiceErrorView::NotDirectory(p) => answer(
            409,
            error_with("not_directory"@, "path"@, JsonView::Str(p)),
        ),
        ServiceErrorView::NotEmpty(p) => answer(
            409,
            error_with("not_empty"@, "path"@, JsonView::Str(p)),
        ),
        ServiceErrorView::CrossDevice(p) => answer(
            409,
            error_with("cross_device"@, "path"@, JsonView::Str(p)),
        ),
        ServiceErrorView::NoAttribute(k) => answer(
            404,
            error_with("no_attribute"@, "detail"@, JsonView::Str(k)),
        ),
        ServiceErrorView::ProtectedAttribute(k) => answer(
            409,
            error_with("protected_attribute"@, "detail"@, JsonView::Str(k)),
        ),
        ServiceErrorView::AttributeTooLarge => answer(507, error_doc("attribute_too_large"@)),
    }
}

/// What a refusal of the file service is answered.
pub fn service_error(e: &ServiceError, leader: u64, addrs: &IdMap<String>) -> (r: Answer)
    ensures
        r@ == refused(e@, leader, addrs@),
{
    match e {
        ServiceError::NotServing(why) => refer("not_serving", why.as_str(), leader, addrs),
        ServiceError::SwitchingTape(why) => error_and_text(
            503,
            "switching_tape",
            "detail",
            why.as_str(),
        ),
        ServiceError::NoTape(why) => error_and_text(507, "no_tape", "detail", why.as_str()),
        ServiceError::TooLarge { requested, tape_capacity } => error_and_numbers(
            507,
            "too_large",
            "requested",
            *requested,
            "tape_capacity",
            *tape_capacity,
        ),
        ServiceError::PathBusy(p) => error_and_text(409, "path_busy", "path", p.as_str()),
        ServiceError::Exists(p) => error_and_text(412, "exists", "path", p.as_str()),
        ServiceError::InsufficientCapacity { requested, available } => error_and_numbers(
            507,
            "insufficient_capacity",
            "requested",
            *requested,
            "available",
            *available,
        ),
        ServiceError::NotWritable(why) => error_and_text(503, "read_only", "detail", why.as_str()),
        ServiceError::BadPath(p) => error_and_text(400, "bad_path", "path", p.as_str()),
        ServiceError::Io(e) => error_and_text(500, "spool_io", "detail", e.as_str()),
        ServiceError::NotFound(p) => error_and_text(404, "not_found", "path", p.as_str()),
        ServiceError::IsDirectory(p) => error_and_text(409, "is_directory", "path", p.as_str()),
        ServiceError::NotDirectory(p) => error_and_text(409, "not_directory", "path", p.as_str()),
        ServiceError::NotEmpty(p) => error_and_text(409, "not_empty", "path", p.as_str()),
        ServiceError::CrossDevice(p) => error_and_text(409, "cross_device", "path", p.as_str()),
        ServiceError::NoAttribute(k) => error_and_text(404, "no_attribute", "detail", k.as_str()),
        ServiceError::ProtectedAttribute(k) => error_and_text(
            409,
            "protected_attribute",
            "detail",
            k.as_str(),
        ),
        ServiceError::AttributeTooLarge => plain_error(507, "attribute_too_large"),
    }
}

/// What came of a command that a client sent.
#[derive(Debug)]
pub enum AdminOutcome {
    /// The node's loop is gone.
    Gone,
    Reply(AdminReply),
    /// No reply in time: the command may have been applied or not.
    Unknown,
}

/// What whoever sent a command is answered.
pub open spec fn admin_doc(o: AdminOutcome, addrs: Map<u64, Seq<char>>) -> AnswerView {
    match o {
        AdminOutcome::Gone => answer(503, error_doc("node_gone"@)),
        AdminOutcome::Reply(reply) => match reply@ {
            AdminReplyView::Done(s) => answer(
                200,
                JsonView::Obj(map!["result"@ => JsonView::Str(s)]),
            ),
            AdminReplyView::Rejected(why) => answer(
                409,
                error_with("rejected"@, "detail"@, JsonView::Str(why)),
            ),
            AdminReplyView::NotLeader(leader) => answer(
                503,
                elsewhere(
                    "not_leader"@,
                    "管理命令只由 Raft Leader 受理"@,
                    leader,
                    addrs,
                ),
            ),
        },
        AdminOutcome::Unknown => answer(
            504,
            error_with(
                "indeterminate"@,
                "detail"@,
                JsonView::Str(
                    "命令结论未知，请查询后决定是否重发"@,
                ),
            ),
        ),
    }
}

/// What whoever sent a command is answered.
pub fn admin_answer(o: &AdminOutcome, addrs: &IdMap<String>) -> (r: Answer)
    ensures
        r@ == admin_doc(*o, addrs@),
{
    match o {
        AdminOutcome::Gone => plain_error(503, "node_gone"),
        AdminOutcome::Reply(AdminReply::Done(s)) => answered(
            200,
            Fields::new().with("result", Json::str_of(s.as_str())).done(),
        ),
        AdminOutcome::Reply(AdminReply::Rejected(why)) => error_and_text(
            409,
            "rejected",
            "detail",
            why.as_str(),
        ),
        AdminOutcome::Reply(AdminReply::NotLeader(leader)) => refer(
            "not_leader",
            "管理命令只由 Raft Leader 受理",
            *leader,
            addrs,
        ),
        AdminOutcome::Unknown => error_and_text(
            504,
            "indeterminate",
            "detail",
            "命令结论未知，请查询后决定是否重发",
        ),
    }
}

/// What the state of a task is answered.
pub open spec fn task_doc(id: u64, st: TaskView) -> AnswerView {
    match st {
        TaskView::Staged => answer(
            202,
            JsonView::Obj(map!["task"@ => JsonView::Num(id), "status"@ => JsonView::Str("staged"@)]),
        ),
        TaskView::Committed { generation } => answer(
            201,
            JsonView::Obj(
                map![
                    "task"@ => JsonView::Num(id),
                    "status"@ => JsonView::Str("committed"@),
                    "generation"@ => JsonView::Num(generation),
                ],
            ),
        ),
        TaskView::Failed { reason } => answer(
            500,
            JsonView::Obj(
                map![
                    "task"@ => JsonView::Num(id),
                    "status"@ => JsonView::Str("failed"@),
                    "detail"@ => JsonView::Str(reason),
                ],
            ),
        ),
        TaskView::Indeterminate { reason } => answer(
            500,
            JsonView::Obj(
                map![
                    "task"@ => JsonView::Num(id),
                    "status"@ => JsonView::Str("indeterminate"@),
                    "detail"@ => JsonView::Str(reason),
                ],
            ),
        ),
    }
}

/// What the state of a task is answered to who made it.
pub fn task_answer(id: u64, st: &TaskStatus) -> (r: Answer)
    ensures
        r@ == task_doc(id, st@),
{
    let head = Fields::new().with("task", Json::Num(id));
    match st {
        TaskStatus::Staged => answered(202, head.with("status", Json::str_of("staged")).done()),
        TaskStatus::Committed { generation } => answered(
            201,
            head.with("status", Json::str_of("committed")).with(
                "generation",
                Json::Num(*generation),
            ).done(),
        ),
        TaskStatus::Failed { reason } => answered(
            500,
            head.with("status", Json::str_of("failed")).with(
                "detail",
                Json::str_of(reason.as_str()),
            ).done(),
        ),
        TaskStatus::Indeterminate { reason } => answered(
            500,
            head.with("status", Json::str_of("indeterminate")).with(
                "detail",
                Json::str_of(reason.as_str()),
            ).done(),
        ),
    }
}

/// What a question for a task is answered: the question succeeds whatever became of the task.
pub fn task_query(id: u64, st: &Option<TaskStatus>) -> (r: Answer)
    ensures
        r@ == (match *st {
            Some(s) => answer(200, task_doc(id, s@).body),
            None => answer(
                404,
                error_with(
                    "unknown_task"@,
                    "detail"@,
                    JsonView::Str(
                        "任务记录不跨节点、不跨进程保留"@,
                    ),
                ),
            ),
        }),
{
    match st {
        Some(s) => answered(200, task_answer(id, s).body),
        None => error_and_text(
            404,
            "unknown_task",
            "detail",
            "任务记录不跨节点、不跨进程保留",
        ),
    }
}

/// A committed version.
pub open spec fn committed_fields(s: StatView) -> Map<Seq<char>, JsonView> {
    map![
        "length"@ => JsonView::Num(s.len),
        "generation"@ => JsonView::Num(s.generation),
        "round"@ => JsonView::Num(s.round),
        "barcode"@ => JsonView::Str(s.barcode),
        "sha256"@ => JsonView::Str(s.sha256),
    ]
}

/// The name of a change under way.
pub open spec fn flight_name(k: InFlight) -> Seq<char> {
    match k {
        InFlight::Uploading => "uploading"@,
        InFlight::Staged => "staged"@,
        InFlight::Deleting => "deleting"@,
    }
}

/// What a question for a path is answered. While a new version is under way, its state comes
/// first and the committed version stands beside it.
pub open spec fn stat_doc(
    path: Seq<char>,
    committed: Option<StatView>,
    in_flight: Option<Flight>,
) -> AnswerView {
    match in_flight {
        None => match committed {
            None => answer(
                404,
                JsonView::Obj(
                    map!["path"@ => JsonView::Str(path), "committed"@ => JsonView::Bool(false)],
                ),
            ),
            Some(s) => answer(
                200,
                JsonView::Obj(
                    committed_fields(s).insert("path"@, JsonView::Str(path)).insert(
                        "state"@,
                        JsonView::Str("committed"@),
                    ).insert("committed"@, JsonView::Bool(true)),
                ),
            ),
        },
        Some(f) => {
            let base = map![
                "path"@ => JsonView::Str(path),
                "state"@ => JsonView::Str(flight_name(f.kind)),
                "length"@ => JsonView::Num(f.len),
                "committed"@ => JsonView::Bool(false),
            ];
            answer(
                200,
                JsonView::Obj(
                    match committed {
                        Some(s) => base.insert("current"@, JsonView::Obj(committed_fields(s))),
                        None => base,
                    },
                ),
            )
        },
    }
}

fn committed_json(s: &Stat) -> (r: Fields)
    ensures
        r@ == committed_fields(s@),
{
    let r = Fields::new().with("length", Json::Num(s.len)).with(
        "generation",
        Json::Num(s.generation),
    ).with("round", Json::Num(s.round)).with("barcode", Json::str_of(s.barcode.as_str())).with(
        "sha256",
        Json::str_of(s.sha256.as_str()),
    );
    assert(r@ =~= committed_fields(s@));
    r
}

/// What a question for a path is answered.
pub fn stat_answer(path: &str, st: &PathState) -> (r: Answer)
    ensures
        r@ == stat_doc(path@, files::stat_view(st.committed), st.in_flight),
{
    match &st.in_flight {
        None => match &st.committed {
            None => answered(
                404,
                Fields::new().with("path", Json::str_of(path)).with(
                    "committed",
                    Json::Bool(false),
                ).done(),
            ),
            Some(s) => answered(
                200,
                committed_json(s).with("path", Json::str_of(path)).with(
                    "state",
                    Json::str_of("committed"),
                ).with("committed", Json::Bool(true)).done(),
            ),
        },
        Some(f) => {
            let base = Fields::new().with("path", Json::str_of(path)).with(
                "state",
                Json::str_of(f.kind.as_str()),
            ).with("length", Json::Num(f.len)).with("committed", Json::Bool(false));
            match &st.committed {
                Some(s) => answered(200, base.with("current", committed_json(s).done()).done()),
                None => answered(200, base.done()),
            }
        },
    }
}

/// Why a path is not read, if it is not: nothing is committed there.
pub open spec fn unreadable(
    path: Seq<char>,
    committed: Option<StatView>,
    in_flight: Option<Flight>,
) -> Option<AnswerView> {
    match committed {
        Some(_) => None,
        None => match in_flight {
            Some(f) => Some(
                answer(
                    409,
                    JsonView::Obj(
                        map![
                            "error"@ => JsonView::Str("not_committed"@),
                            "path"@ => JsonView::Str(path),
                            "state"@ => JsonView::Str(flight_name(f.kind)),
                        ],
                    ),
                ),
            ),
            None => Some(answer(404, error_with("not_found"@, "path"@, JsonView::Str(path)))),
        },
    }
}

/// Why a path is not read, if it is not.
pub fn read_gate(path: &str, st: &PathState) -> (r: Option<Answer>)
    ensures
        match unreadable(path@, files::stat_view(st.committed), st.in_flight) {
            Some(a) => r is Some && r->0@ == a,
            None => r is None,
        },
{
    match (&st.committed, &st.in_flight) {
        (Some(_), _) => None,
        (None, Some(f)) => Some(
            answered(
                409,
                Fields::new().with("error", Json::str_of("not_committed")).with(
                    "path",
                    Json::str_of(path),
                ).with("state", Json::str_of(f.kind.as_str())).done(),
            ),
        ),
        (None, None) => Some(error_and_text(404, "not_found", "path", path)),
    }
}

/// What came of reading a file.
#[derive(Debug)]
pub enum ReadOutcome {
    /// The device thread is gone.
    Gone,
    /// This many bytes were read.
    Bytes(u64),
    Failed(ReadError),
    /// Not read in time.
    Late,
}

/// How a read is answered: with bytes, or with a document.
#[derive(Debug)]
pub enum ReadAnswer {
    /// The whole file.
    Whole,
    /// The bytes from `start` to before `end`.
    Part { start: u64, end: u64 },
    Refused(Answer),
}

/// How a read is answered.
pub open spec fn read_result(range: Option<Seq<char>>, o: ReadOutcome, r: ReadAnswer) -> bool {
    match o {
        ReadOutcome::Gone => r is Refused && r->Refused_0@ == answer(
            503,
            error_doc("executor_gone"@),
        ),
        ReadOutcome::Late => r is Refused && r->Refused_0@ == answer(
            504,
            error_doc("read_timeout"@),
        ),
        ReadOutcome::Failed(e) => {
            &&& r is Refused
            &&& r->Refused_0@ == (if e is Busy {
                answer(
                    503,
                    error_with("drive_busy"@, "detail"@, JsonView::Str(e@.message())),
                )
            } else {
                answer(404, error_with("read_failed"@, "detail"@, JsonView::Str(e@.message())))
            })
        },
        ReadOutcome::Bytes(n) => match range {
            None => r is Whole,
            Some(v) => match request::range_of(v, n) {
                None => r is Whole,
                Some(Ok((a, b))) => r == (ReadAnswer::Part { start: a, end: b }),
                Some(Err(_)) => r is Refused && r->Refused_0@ == answer(
                    416,
                    error_with("bad_range"@, "length"@, JsonView::Num(n)),
                ),
            },
        },
    }
}

/// How a read is answered.
pub fn read_answer(range: &Option<String>, o: &ReadOutcome) -> (r: ReadAnswer)
    ensures
        read_result(
            match *range {
                Some(v) => Some(v@),
                None => None,
            },
            *o,
            r,
        ),
{
    match o {
        ReadOutcome::Gone => ReadAnswer::Refused(plain_error(503, "executor_gone")),
        ReadOutcome::Late => ReadAnswer::Refused(plain_error(504, "read_timeout")),
        ReadOutcome::Failed(e) => {
            let detail = e.message();
            match e {
                ReadError::Busy(_) => ReadAnswer::Refused(
                    error_and_text(503, "drive_busy", "detail", detail.as_str()),
                ),
                _ => ReadAnswer::Refused(
                    error_and_text(404, "read_failed", "detail", detail.as_str()),
                ),
            }
        },
        ReadOutcome::Bytes(n) => match range {
            None => ReadAnswer::Whole,
            Some(v) => match request::parse_range(v.as_str(), *n) {
                None => ReadAnswer::Whole,
                Some(Ok((a, b))) => ReadAnswer::Part { start: a, end: b },
                Some(Err(_)) => ReadAnswer::Refused(
                    answered(
                        416,
                        Fields::new().with("error", Json::str_of("bad_range")).with(
                            "length",
                            Json::Num(*n),
                        ).done(),
                    ),
                ),
            },
        },
    }
}

/// The most bytes of a refused upload that are read and dropped, so that the client sees the
/// refusal.
pub const DRAIN_LIMIT: u64 = 0x1000_0000;

/// Whether the content of a refused upload is read and dropped. Who waits for a go-ahead has sent
/// none, and with much content it is better to fail early.
pub fn drains_refused(expects_continue: bool, len: u64) -> (r: bool)
    ensures
        r == (!expects_continue && len <= DRAIN_LIMIT),
{
    !expects_continue && len <= DRAIN_LIMIT
}

/// An entry of a directory.
pub open spec fn entry_doc(name: Seq<char>, e: DirEntry) -> JsonView {
    match e {
        DirEntry::Dir => JsonView::Obj(
            map!["name"@ => JsonView::Str(name), "type"@ => JsonView::Str("dir"@)],
        ),
        DirEntry::File { committed, in_flight } => {
            let base = map![
                "name"@ => JsonView::Str(name),
                "type"@ => JsonView::Str("file"@),
                "state"@ => JsonView::Str(
                    match in_flight {
                        Some(f) => flight_name(f.kind),
                        None => "committed"@,
                    },
                ),
            ];
            let sized = match committed {
                Some(n) => base.insert("committed_length"@, JsonView::Num(n)),
                None => base,
            };
            JsonView::Obj(
                match in_flight {
                    Some(f) => sized.insert("staged_length"@, JsonView::Num(f.len)),
                    None => sized,
                },
            )
        },
    }
}

fn entry_json(name: &str, e: &DirEntry) -> (r: Json)
    ensures
        r@ == entry_doc(name@, *e),
{
    match e {
        DirEntry::Dir => Fields::new().with("name", Json::str_of(name)).with(
            "type",
            Json::str_of("dir"),
        ).done(),
        DirEntry::File { committed, in_flight } => {
            let state: &str = match in_flight {
                Some(f) => f.kind.as_str(),
                None => "committed",
            };
            let base = Fields::new().with("name", Json::str_of(name)).with(
                "type",
                Json::str_of("file"),
            ).with("state", Json::str_of(state));
            let sized = match committed {
                Some(n) => base.with("committed_length", Json::Num(*n)),
                None => base,
            };
            match in_flight {
                Some(f) => sized.with("staged_length", Json::Num(f.len)).done(),
                None => sized.done(),
            }
        },
    }
}

/// What a question for a directory is answered, in the order of the names.
pub open spec fn dir_doc(dir: Seq<char>, entries: Option<Map<Seq<char>, DirEntry>>) -> AnswerView {
    match entries {
        Some(m) => answer(
            200,
            JsonView::Obj(
                map![
                    "dir"@ => JsonView::Str(dir),
                    "entries"@ => JsonView::Arr(
                        strmap::sorted_keys(m).map_values(|k: Seq<char>| entry_doc(k, m[k])),
                    ),
                ],
            ),
        ),
        None => answer(404, error_with("not_found"@, "dir"@, JsonView::Str(dir))),
    }
}

/// What a question for a directory is answered.
pub fn dir_answer(dir: &str, entries: &Option<StrMap<DirEntry>>) -> (r: Answer)
    ensures
        r@ == dir_doc(
            dir@,
            match *entries {
                Some(m) => Some(m@),
                None => None,
            },
        ),
{
    match entries {
        None => error_and_text(404, "not_found", "dir", dir),
        Some(m) => {
            let mut out = Items::new();
            let n = m.len();
            let ghost ks = strmap::sorted_keys(m@);
            let ghost f = |k: Seq<char>| entry_doc(k, m@[k]);
            let mut i: usize = 0;
            while i < n
                invariant
                    i <= n == ks.len(),
                    ks == strmap::sorted_keys(m@),
                    f == (|k: Seq<char>| entry_doc(k, m@[k])),
                    out@ == ks.take(i as int).map_values(f),
                decreases n - i,
            {
                out.push(entry_json(m.key_at(i).as_str(), m.value_at(i)));
                assert(out@ =~= ks.take(i + 1).map_values(f));
                i += 1;
            }
            assert(ks.take(i as int) =~= ks);
            answered(
                200,
                Fields::new().with("dir", Json::str_of(dir)).with("entries", out.done()).done(),
            )
        },
    }
}

/// All committed files with their lengths.
pub open spec fn files_doc(m: Map<Seq<char>, u64>) -> AnswerView {
    answer(
        200,
        JsonView::Obj(
            map!["files"@ => JsonView::Obj(Map::new(
                |k: Seq<char>| m.contains_key(k),
                |k: Seq<char>| JsonView::Num(m[k]),
            ))],
        ),
    )
}

/// All committed files with their lengths.
pub fn files_answer(m: &StrMap<u64>) -> (r: Answer)
    ensures
        r@ == files_doc(m@),
{
    let mut out = Fields::new();
    let n = m.len();
    let ghost ks = strmap::sorted_keys(m@);
    let mut i: usize = 0;
    while i < n
        invariant
            i <= n == ks.len(),
            ks == strmap::sorted_keys(m@),
            forall|k: Seq<char>| #[trigger]
                out@.contains_key(k) <==> ks.take(i as int).contains(k),
            forall|k: Seq<char>| #[trigger]
                out@.contains_key(k) ==> out@[k] == JsonView::Num(m@[k]),
        decreases n - i,
    {
        let ghost was = out@;
        out = out.with(m.key_at(i).as_str(), Json::Num(*m.value_at(i)));
        proof {
            let now = ks.take(i + 1);
            let before = ks.take(i as int);
            assert(now =~= before.push(ks[i as int]));
            assert(now[i as int] == ks[i as int]);
            assert forall|k: Seq<char>| #[trigger] out@.contains_key(k) <==> now.contains(k) by {
                assert(was.contains_key(k) <==> before.contains(k));
                if before.contains(k) {
                    let j = choose|j: int| 0 <= j < before.len() && before[j] == k;
                    assert(now[j] == k);
                }
            }
        }
        i += 1;
    }
    proof {
        assert(ks.take(i as int) =~= ks);
        let all = Map::new(
            |k: Seq<char>| m@.contains_key(k),
            |k: Seq<char>| JsonView::Num(m@[k]),
        );
        assert forall|k: Seq<char>| #[trigger] out@.contains_key(k) <==> all.contains_key(k) by {
            assert(ks.contains(k) <==> m@.dom().contains(k));
        }
        assert(out@ =~= all);
    }
    answered(200, Fields::new().with("files", out.done()).done())
}

/// The live files on a tape and their bytes.
#[derive(Debug, Clone, Copy, PartialEq, Eq, Structural)]
pub struct Live {
    pub files: u64,
    pub bytes: u64,
}

impl View for Live {
    type V = Live;

    open spec fn view(&self) -> Live {
        *self
    }
}

/// The bytes of a tape that a reclamation wins back: what was written, less what is still live.
/// Where the bytes written are not known, those in the index stand for them.
pub open spec fn reclaimable(t: TapeRowView, live_bytes: u64) -> u64 {
    let written = if t.bytes_written > t.bytes_used {
        t.bytes_written
    } else {
        t.bytes_used
    };
    if written > live_bytes {
        (written - live_bytes) as u64
    } else {
        0
    }
}

/// The bytes of a tape that a reclamation wins back.
pub fn reclaimable_bytes(t: &TapeRow, live_bytes: u64) -> (r: u64)
    ensures
        r == reclaimable(t@, live_bytes),
{
    let written: u64 = if t.bytes_written > t.bytes_used {
        t.bytes_written
    } else {
        t.bytes_used
    };
    written.saturating_sub(live_bytes)
}

/// What is said of a tape of a pool.
pub open spec fn tape_detail(
    barcode: Seq<char>,
    tapes: Map<Seq<char>, TapeRowView>,
    live: Map<Seq<char>, Live>,
) -> JsonView {
    if tapes.contains_key(barcode) {
        let t = tapes[barcode];
        let l = if live.contains_key(barcode) {
            live[barcode]
        } else {
            Live { files: 0, bytes: 0 }
        };
        JsonView::Obj(
            map![
                "barcode"@ => JsonView::Str(barcode),
                "state"@ => JsonView::Str(t.state),
                "generation"@ => JsonView::Num(t.generation),
                "files"@ => JsonView::Num(t.files),
                "bytes_used"@ => JsonView::Num(t.bytes_used),
                "bytes_written"@ => JsonView::Num(t.bytes_written),
                "live_files"@ => JsonView::Num(l.files),
                "live_bytes"@ => JsonView::Num(l.bytes),
                "reclaimable_bytes"@ => JsonView::Num(reclaimable(t, l.bytes)),
            ],
        )
    } else {
        JsonView::Obj(map!["barcode"@ => JsonView::Str(barcode)])
    }
}

/// What is said of a pool.
pub open spec fn pool_detail(
    p: PoolRowView,
    tapes: Map<Seq<char>, TapeRowView>,
    live: Map<Seq<char>, Live>,
) -> JsonView {
    JsonView::Obj(
        map![
            "uuid"@ => JsonView::Str(p.uuid),
            "name"@ => JsonView::Str(p.name),
            "file_limit"@ => JsonView::Num(p.file_limit),
            "tapes"@ => status::names_doc(p.tapes),
            "tape_details"@ => JsonView::Arr(
                p.tapes.map_values(|b: Seq<char>| tape_detail(b, tapes, live)),
            ),
        ],
    )
}

/// What a question for the pools is answered.
pub open spec fn pools_doc(s: StatusView, live: Map<Seq<char>, Live>) -> AnswerView {
    answer(
        200,
        JsonView::Obj(
            map![
                "pools"@ => JsonView::Arr(
                    s.pools.map_values(|p: PoolRowView| pool_detail(p, s.tapes, live)),
                ),
                "applied_index"@ => JsonView::Num(s.applied_index),
                "answered_by"@ => JsonView::Num(s.id),
            ],
        ),
    )
}

fn tape_detail_json(barcode: &str, tapes: &StrMap<TapeRow>, live: &StrMap<Live>) -> (r: Json)
    ensures
        r@ == tape_detail(barcode@, tapes@, live@),
{
    match tapes.get(barcode) {
        None => Fields::new().with("barcode", Json::str_of(barcode)).done(),
        Some(t) => {
            let l = match live.get(barcode) {
                Some(x) => *x,
                None => Live { files: 0, bytes: 0 },
            };
            let r = Fields::new().with("barcode", Json::str_of(barcode)).with(
                "state",
                Json::str_of(t.state.as_str()),
            ).with("generation", Json::Num(t.generation)).with("files", Json::Num(t.files)).with(
                "bytes_used",
                Json::Num(t.bytes_used),
            ).with("bytes_written", Json::Num(t.bytes_written)).with(
                "live_files",
                Json::Num(l.files),
            ).with("live_bytes", Json::Num(l.bytes)).with(
                "reclaimable_bytes",
                Json::Num(reclaimable_bytes(t, l.bytes)),
            ).done();
            assert(r@ =~= tape_detail(barcode@, tapes@, live@));
            r
        },
    }
}

fn pool_detail_json(p: &PoolRow, tapes: &StrMap<TapeRow>, live: &StrMap<Live>) -> (r: Json)
    ensures
        r@ == pool_detail(p@, tapes@, live@),
{
    let mut out = Items::new();
    let ghost f = |b: Seq<char>| tape_detail(b, tapes@, live@);
    let ghost bs = text::string_views(p.tapes@);
    let mut i: usize = 0;
    while i < p.tapes.len()
        invariant
            i <= p.tapes@.len(),
            bs == text::string_views(p.tapes@),
            f == (|b: Seq<char>| tape_detail(b, tapes@, live@)),
            out@ == bs.take(i as int).map_values(f),
        decreases p.tapes@.len() - i,
    {
        out.push(tape_detail_json(p.tapes[i].as_str(), tapes, live));
        assert(out@ =~= bs.take(i + 1).map_values(f));
        i += 1;
    }
    assert(bs.take(i as int) =~= bs);
    let r = Fields::new().with("uuid", Json::str_of(p.uuid.as_str())).with(
        "name",
        Json::str_of(p.name.as_str()),
    ).with("file_limit", Json::Num(p.file_limit)).with(
        "tapes",
        status::names_json(&p.tapes),
    ).with("tape_details", out.done()).done();
    assert(r@ =~= pool_detail(p@, tapes@, live@));
    r
}

/// What a question for the pools is answered. `live` tells of each tape what the directory still
/// has on it.
pub fn pools_answer(s: &NodeStatus, live: &StrMap<Live>) -> (r: Answer)
    ensures
        r@ == pools_doc(s@, live@),
{
    let mut out = Items::new();
    let ghost f = |p: PoolRowView| pool_detail(p, s@.tapes, live@);
    let mut i: usize = 0;
    while i < s.pools.len()
        invariant
            i <= s.pools@.len(),
            f == (|p: PoolRowView| pool_detail(p, s@.tapes, live@)),
            out@ == s@.pools.take(i as int).map_values(f),
        decreases s.pools@.len() - i,
    {
        out.push(pool_detail_json(&s.pools[i], &s.tapes, live));
        assert(out@ =~= s@.pools.take(i + 1).map_values(f));
        i += 1;
    }
    assert(s@.pools.take(i as int) =~= s@.pools);
    answered(
        200,
        Fields::new().with("pools", out.done()).with(
            "applied_index",
            Json::Num(s.applied_index),
        ).with("answered_by", Json::Num(s.id)).done(),
    )
}

/// The last reclamation of a node.
#[derive(Debug, Clone, PartialEq, Eq)]
pub struct ReclaimReport {
    pub round: u64,
    pub barcode: String,
    pub outcome: String,
    pub detail: String,
}

/// What a question for the cluster is answered.
pub open spec fn cluster_doc(
    s: StatusView,
    serving_round: Option<u64>,
    drives: JsonView,
    last: Option<ReclaimReport>,
) -> AnswerView {
    answer(
        200,
        JsonView::Obj(
            map![
                "id"@ => JsonView::Num(s.id),
                "role"@ => JsonView::Str(s.role),
                "term"@ => JsonView::Num(s.term),
                "leader"@ => JsonView::Num(s.leader),
                "local"@ => JsonView::Str(s.local),
                "executor"@ => match s.executor {
                    Some(e) => JsonView::Obj(
                        map![
                            "node"@ => JsonView::Num(e.node),
                            "round"@ => JsonView::Num(e.round),
                            "fenced"@ => JsonView::Bool(e.fenced),
                        ],
                    ),
                    None => JsonView::Null,
                },
                "serving_round"@ => match serving_round {
                    Some(r) => JsonView::Num(r),
                    None => JsonView::Null,
                },
                "drives"@ => drives,
                "last_reclaim"@ => match last {
                    Some(l) => JsonView::Obj(
                        map![
                            "round"@ => JsonView::Num(l.round),
                            "barcode"@ => JsonView::Str(l.barcode@),
                            "outcome"@ => JsonView::Str(l.outcome@),
                            "detail"@ => JsonView::Str(l.detail@),
                        ],
                    ),
                    None => JsonView::Null,
                },
            ],
        ),
    )
}

/// What a question for the cluster is answered.
pub fn cluster_answer(
    s: &NodeStatus,
    serving_round: Option<u64>,
    drives: Json,
    last: &Option<ReclaimReport>,
) -> (r: Answer)
    ensures
        r@ == cluster_doc(s@, serving_round, drives@, *last),
{
    let executor = match s.executor {
        Some(e) => Fields::new().with("node", Json::Num(e.node)).with(
            "round",
            Json::Num(e.round),
        ).with("fenced", Json::Bool(e.fenced)).done(),
        None => Json::Null,
    };
    let serving = match serving_round {
        Some(r) => Json::Num(r),
        None => Json::Null,
    };
    let report = match last {
        Some(l) => Fields::new().with("round", Json::Num(l.round)).with(
            "barcode",
            Json::str_of(l.barcode.as_str()),
        ).with("outcome", Json::str_of(l.outcome.as_str())).with(
            "detail",
            Json::str_of(l.detail.as_str()),
        ).done(),
        None => Json::Null,
    };
    let ghost d = drives@;
    let body = Fields::new().with("id", Json::Num(s.id)).with(
        "role",
        Json::str_of(s.role.as_str()),
    ).with("term", Json::Num(s.term)).with("leader", Json::Num(s.leader)).with(
        "local",
        Json::str_of(s.local.as_str()),
    ).with("executor", executor).with("serving_round", serving).with("drives", drives).with(
        "last_reclaim",
        report,
    ).done();
    let r = answered(200, body);
    assert(r@ =~= cluster_doc(s@, serving_round, d, *last));
    r
}

/// The head of an answer.
pub open spec fn head_of(code: u16, reason: Seq<char>, ctype: Seq<char>, len: nat) -> Seq<char> {
    "HTTP/1.1 "@ + text::decimal(code as nat) + " "@ + reason + "\r\nContent-Type: "@ + ctype
        + "\r\nContent-Length: "@ + text::decimal(len) + "\r\nConnection: close\r\n\r\n"@
}

/// The head of an answer with `len` bytes of content.
pub fn head(code: u16, reason: &str, ctype: &str, len: u64) -> (r: String)
    ensures
        r@ == head_of(code, reason@, ctype@, len as nat),
{
    let mut t = text::cat4("HTTP/1.1 ", text::decimal_text(code as u64).as_str(), " ", reason);
    t.push_str("\r\nContent-Type: ");
    t.push_str(ctype);
    t.push_str("\r\nContent-Length: ");
    t.push_str(text::decimal_text(len).as_str());
    t.push_str("\r\nConnection: close\r\n\r\n");
    t
}

/// The head of an answer with the bytes from `start`, `len` of them, out of `total`.
pub open spec fn range_head_of(start: u64, len: u64, total: u64) -> Seq<char> {
    "HTTP/1.1 206 Partial Content\r\nContent-Type: application/octet-stream\r\nContent-Range: bytes "@
        + text::decimal(start as nat) + "-"@ + text::decimal(
        (if start + len > 0 {
            start + len - 1
        } else {
            0
        }) as nat,
    ) + "/"@ + text::decimal(total as nat) + "\r\nContent-Length: "@ + text::decimal(len as nat)
        + "\r\nConnection: close\r\n\r\n"@
}

/// The head of an answer with the bytes from `start`, `len` of them, out of `total`.
pub fn range_head(start: u64, len: u64, total: u64) -> (r: String)
    requires
        start + len <= u64::MAX,
    ensures
        r@ == range_head_of(start, len, total),
{
    let end: u64 = start + len;
    let mut t = text::cat4(
        "HTTP/1.1 206 Partial Content\r\nContent-Type: application/octet-stream\r\nContent-Range: bytes ",
        text::decimal_text(start).as_str(),
        "-",
        text::decimal_text(end.saturating_sub(1)).as_str(),
    );
    t.push_str("/");
    t.push_str(text::decimal_text(total).as_str());
    t.push_str("\r\nContent-Length: ");
    t.push_str(text::decimal_text(len).as_str());
    t.push_str("\r\nConnection: close\r\n\r\n");
    t
}

/// Only a node that does not serve, or does not lead, sends a client to another node.
pub proof fn law_only_not_serving_points_elsewhere(
    e: ServiceErrorView,
    leader: u64,
    addrs: Map<u64, Seq<char>>,
)
    ensures
        refused(e, leader, addrs).body->Obj_0.contains_key("leader_url"@) <==> e is NotServing,
{
    reveal_strlit("leader_url");
    reveal_strlit("error");
    reveal_strlit("detail");
    reveal_strlit("path");
    reveal_strlit("requested");
    reveal_strlit("available");
    reveal_strlit("tape_capacity");
    assert("leader_url"@.len() == 10);
    assert("error"@.len() == 5);
    assert("detail"@.len() == 6);
    assert("path"@.len() == 4);
    assert("requested"@.len() == 9);
    assert("available"@.len() == 9);
    assert("tape_capacity"@.len() == 13);
}

/// A refusal never has a code that tells of success.
pub proof fn law_refusals_are_errors(e: ServiceErrorView, leader: u64, addrs: Map<u64, Seq<char>>)
    ensures
        refused(e, leader, addrs).code >= 400,
{
}

/// An upload is confirmed, with 201, only once it is on tape.
pub proof fn law_created_means_committed(id: u64, st: TaskView)
    ensures
        task_doc(id, st).code == 201 <==> st is Committed,
{
}

/// What a request is answered from, besides the file service: what the directory and the node say.
#[derive(Debug)]
pub struct Facts {
    pub status: NodeStatus,
    /// What the directory has at the path that is asked for.
    pub row: Option<Stat>,
    /// What the directory has in the pool.
    pub rows: Vec<NodeRow>,
    /// What the directory still has on each tape.
    pub live: StrMap<Live>,
    pub drives: Json,
    pub last_reclaim: Option<ReclaimReport>,
    /// Where clients reach each node.
    pub addrs: IdMap<String>,
}

/// What is done with a request.
#[derive(Debug)]
pub enum Plan {
    /// It is answered.
    Send(Answer),
    /// A command goes into the log, and what comes of it is answered.
    Submit,
    /// The state of a task is answered.
    Task { id: u64 },
    /// A file is read.
    Read { path: String },
    /// Content of this length is taken in.
    Receive { path: String, len: u64 },
}

#[verifier::ext_equal]
pub enum PlanView {
    Send(AnswerView),
    Submit,
    Task { id: u64 },
    Read { path: Seq<char> },
    Receive { path: Seq<char>, len: u64 },
}

impl View for Plan {
    type V = PlanView;

    open spec fn view(&self) -> PlanView {
        match *self {
            Plan::Send(a) => PlanView::Send(a@),
            Plan::Submit => PlanView::Submit,
            Plan::Task { id } => PlanView::Task { id },
            Plan::Read { path } => PlanView::Read { path: path@ },
            Plan::Receive { path, len } => PlanView::Receive { path: path@, len },
        }
    }
}

/// What is done with a request.
pub open spec fn plan_of(
    r: RouteView,
    length: Option<u64>,
    svc: ServiceView,
    f: Facts,
) -> PlanView {
    let leader = f.status@.leader;
    match r {
        RouteView::Cluster => PlanView::Send(
            cluster_doc(
                f.status@,
                match svc.serving {
                    Some(s) => Some(s.round),
                    None => None,
                },
                f.drives@,
                f.last_reclaim,
            ),
        ),
        RouteView::Pools => PlanView::Send(pools_doc(f.status@, f.live@)),
        RouteView::PoolMissing => PlanView::Send(answer(400, error_doc("pool_required"@))),
        RouteView::BadTask => PlanView::Send(answer(400, error_doc("bad_task_id"@))),
        RouteView::Unknown => PlanView::Send(answer(404, error_doc("no_such_route"@))),
        RouteView::ListDir { dir, pending } => PlanView::Send(
            match svc.dir_listing(dir, pending, f.rows@) {
                Ok(m) => dir_doc(dir, m),
                Err(e) => refused(e, leader, f.addrs@),
            },
        ),
        RouteView::List => PlanView::Send(
            match svc.reading() {
                Ok(_) => files_doc(svc.file_lengths(f.rows@)),
                Err(e) => refused(e, leader, f.addrs@),
            },
        ),
        RouteView::Stat { path } => PlanView::Send(
            match svc.stat(path, files::stat_view(f.row)) {
                Ok(st) => stat_doc(path, st, svc.in_flight(paths::normal(path))),
                Err(e) => refused(e, leader, f.addrs@),
            },
        ),
        RouteView::Task { id } => PlanView::Task { id },
        RouteView::Read { path } => match svc.stat(path, files::stat_view(f.row)) {
            Err(e) => PlanView::Send(refused(e, leader, f.addrs@)),
            Ok(st) => match unreadable(path, st, svc.in_flight(paths::normal(path))) {
                Some(a) => PlanView::Send(a),
                None => PlanView::Read { path },
            },
        },
        RouteView::Put { path } => match length {
            Some(len) => PlanView::Receive { path, len },
            None => PlanView::Send(answer(411, error_doc("length_required"@))),
        },
        _ => PlanView::Submit,
    }
}

/// What is done with a request.
pub fn plan(route: &Route, h: &Headers, svc: &FileService, f: Facts) -> (r: Plan)
    ensures
        r@ == plan_of(route@, h@.content_length, svc@, f),
{
    let leader: u64 = f.status.leader;
    match route {
        Route::Cluster => Plan::Send(
            cluster_answer(&f.status, svc.serving_round(), f.drives, &f.last_reclaim),
        ),
        Route::Pools => Plan::Send(pools_answer(&f.status, &f.live)),
        Route::PoolMissing => Plan::Send(plain_error(400, "pool_required")),
        Route::BadTask => Plan::Send(plain_error(400, "bad_task_id")),
        Route::Unknown => Plan::Send(plain_error(404, "no_such_route")),
        Route::ListDir { dir, pending } => match svc.list_dir(dir.as_str(), *pending, &f.rows) {
            Ok(m) => Plan::Send(dir_answer(dir.as_str(), &m)),
            Err(e) => Plan::Send(service_error(&e, leader, &f.addrs)),
        },
        Route::List => match svc.list(&f.rows) {
            Ok(m) => Plan::Send(files_answer(&m)),
            Err(e) => Plan::Send(service_error(&e, leader, &f.addrs)),
        },
        Route::Stat { path } => match svc.stat_full(path.as_str(), f.row) {
            Ok(st) => Plan::Send(stat_answer(path.as_str(), &st)),
            Err(e) => Plan::Send(service_error(&e, leader, &f.addrs)),
        },
        Route::Task { id } => Plan::Task { id: *id },
        Route::Read { path } => match svc.stat_full(path.as_str(), f.row) {
            Err(e) => Plan::Send(service_error(&e, leader, &f.addrs)),
            Ok(st) => match read_gate(path.as_str(), &st) {
                Some(a) => Plan::Send(a),
                None => Plan::Read { path: path.clone() },
            },
        },
        Route::Put { path } => match h.content_length {
            Some(len) => Plan::Receive { path: path.clone(), len },
            None => Plan::Send(plain_error(411, "length_required")),
        },
        _ => Plan::Submit,
    }
}

/// A node that does not serve answers a question for a path, if the path is good, with its leader.
pub proof fn law_questions_elsewhere_point_to_the_leader(
    path: Seq<char>,
    svc: ServiceView,
    f: Facts,
)
    requires
        svc.serving is None,
        svc.read_only is None,
        paths::good_path(path),
    ensures
        plan_of(RouteView::Stat { path }, None, svc, f) == PlanView::Send(
            answer(
                503,
                elsewhere("not_serving"@, svc.why_not, f.status@.leader, f.addrs@),
            ),
        ),
        plan_of(RouteView::Read { path }, None, svc, f) == PlanView::Send(
            answer(
                503,
                elsewhere("not_serving"@, svc.why_not, f.status@.leader, f.addrs@),
            ),
        ),
{
}

/// A file is read only where the service has a committed version of it.
pub proof fn law_only_committed_files_are_read(
    path: Seq<char>,
    length: Option<u64>,
    svc: ServiceView,
    f: Facts,
)
    requires
        plan_of(RouteView::Read { path }, length, svc, f) is Read,
    ensures
        svc.stat(path, files::stat_view(f.row)) matches Ok(st) && st is Some,
{
}

} // verus!
