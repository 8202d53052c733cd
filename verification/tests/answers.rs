//! What the HTTP interface answers.
use std::sync::Arc;

use tape_rs::daemon::files::{FileService, PathState, Stat, TaskStatus};
use tape_rs::daemon::http::{
    admin_answer, cluster_answer, drains_refused, files_answer, head, plan, plain_error, range_head,
    read_answer, read_gate, service_error, stat_answer, task_answer, task_query, AdminOutcome,
    Facts, Live, Plan, ReadAnswer, ReadOutcome, DRAIN_LIMIT,
};
use tape_rs::daemon::node::AdminReply;
use tape_rs::daemon::paths::ServiceError;
use tape_rs::daemon::reading::ReadError;
use tape_rs::daemon::request::{query_param, route, Headers, Route};
use tape_rs::daemon::state::{Command, ControlState};
use tape_rs::daemon::status::NodeStatus;
use tape_rs::idmap::IdMap;
use tape_rs::json::Json;
use tape_rs::strmap::StrMap;

fn addrs() -> IdMap<String> {
    let mut m: IdMap<String> = IdMap::new();
    m.insert(2, "n2:7401".into());
    m
}

fn body(j: &Json) -> String {
    String::from_utf8(j.write()).unwrap()
}

#[test]
fn only_a_node_that_does_not_serve_points_elsewhere() {
    let a = service_error(&ServiceError::NotServing("换届".into()), 2, &addrs());
    assert_eq!(a.code, 503);
    assert!(body(&a.body).contains("n2:7401"));
    let a = service_error(&ServiceError::NotServing("换届".into()), 3, &addrs());
    assert!(!body(&a.body).contains("n2:7401"));
    for (e, code) in [
        (ServiceError::PathBusy("/a".into()), 409),
        (ServiceError::Exists("/a".into()), 412),
        (ServiceError::BadPath("a".into()), 400),
        (ServiceError::InsufficientCapacity { requested: 5, available: 1 }, 507),
        (ServiceError::NotFound("/a".into()), 404),
    ] {
        let a = service_error(&e, 2, &addrs());
        assert_eq!(a.code, code, "{:?}", e);
        assert!(!body(&a.body).contains("n2:7401"));
    }
    assert_eq!(plain_error(400, "x").code, 400);
}

#[test]
fn tasks_are_answered_by_their_state() {
    assert_eq!(task_answer(1, &TaskStatus::Staged).code, 202);
    let done = task_answer(1, &TaskStatus::Committed { generation: 4 });
    assert_eq!(done.code, 201);
    assert_eq!(done.body.num_in("generation"), Some(4));
    assert!(task_answer(1, &TaskStatus::Failed { reason: "x".into() }).code >= 400);
    assert!(task_answer(1, &TaskStatus::Indeterminate { reason: "x".into() }).code >= 400);
    assert_eq!(task_query(1, &None).code, 404);
    assert_eq!(
        admin_answer(&AdminOutcome::Reply(AdminReply::Done("u".into())), &addrs()).code,
        200
    );
    assert_eq!(
        admin_answer(&AdminOutcome::Reply(AdminReply::Rejected("no".into())), &addrs()).code,
        409
    );
    assert_eq!(
        admin_answer(&AdminOutcome::Reply(AdminReply::NotLeader(2)), &addrs()).code,
        503
    );
}

fn committed() -> PathState {
    PathState {
        committed: Some(Stat {
            len: 100,
            generation: 4,
            round: 7,
            barcode: "T1".into(),
            sha256: "ab".into(),
            deleted: false,
            version: (7, 1),
            metadata: Arc::new(Json::Null),
        }),
        in_flight: None,
    }
}

#[test]
fn only_committed_files_are_read() {
    let none = PathState { committed: None, in_flight: None };
    assert_eq!(stat_answer("/a", &none).code, 404);
    assert_eq!(stat_answer("/a", &committed()).code, 200);
    assert_eq!(stat_answer("/a", &committed()).body.num_in("length"), Some(100));
    assert!(read_gate("/a", &committed()).is_none());
    assert_eq!(read_gate("/a", &none).unwrap().code, 404);
    assert!(matches!(read_answer(&None, &ReadOutcome::Bytes(100)), ReadAnswer::Whole));
    assert!(matches!(
        read_answer(&Some("bytes=0-9".into()), &ReadOutcome::Bytes(100)),
        ReadAnswer::Part { start: 0, end: 10 }
    ));
    assert!(matches!(
        read_answer(&Some("bytes=100-".into()), &ReadOutcome::Bytes(100)),
        ReadAnswer::Refused(a) if a.code == 416
    ));
    assert!(matches!(
        read_answer(&None, &ReadOutcome::Failed(ReadError::Busy("x".into()))),
        ReadAnswer::Refused(_)
    ));
    assert!(matches!(read_answer(&None, &ReadOutcome::Late), ReadAnswer::Refused(_)));
}

#[test]
fn heads_are_written() {
    let h = head(200, "OK", "application/json", 12);
    assert!(h.starts_with("HTTP/1.1 200 OK\r\n"));
    assert!(h.contains("Content-Length: 12\r\n"));
    assert!(h.ends_with("\r\n\r\n"));
    let h = range_head(10, 5, 100);
    assert!(h.contains("206"));
    assert!(h.contains("bytes 10-14/100"));
    assert!(drains_refused(false, 10));
    assert!(!drains_refused(true, 10));
    assert!(!drains_refused(false, DRAIN_LIMIT + 1));
}

#[test]
fn routes_are_told_apart() {
    assert_eq!(route("GET", "/cluster", ""), Route::Cluster);
    assert_eq!(route("GET", "/admin/pools", ""), Route::Pools);
    assert_eq!(route("GET", "/list", ""), Route::List);
    assert_eq!(route("GET", "/tasks/12", ""), Route::Task { id: 12 });
    assert_eq!(route("GET", "/tasks/x", ""), Route::BadTask);
    assert_eq!(route("POST", "/admin/tapes/T1", ""), Route::PoolMissing);
    assert_eq!(route("PATCH", "/x", ""), Route::Unknown);
    assert_eq!(query_param("a=1&b=%20x", "b"), Some("%20x".to_string()));
    assert_eq!(query_param("a=1", "b"), None);
    // A pool gets an identifier of its own.
    let r = route("POST", "/admin/pools/p", "file_limit=5");
    let one = r.command().unwrap();
    let two = r.command().unwrap();
    match (&one, &two) {
        (
            Command::PoolCreate { uuid: a, name, file_limit },
            Command::PoolCreate { uuid: b, .. },
        ) => {
            assert_eq!(a.len(), 36);
            assert_ne!(a, b);
            assert_eq!((name.as_str(), *file_limit), ("p", 5));
        }
        other => panic!("{:?}", other),
    }
    assert_eq!(Route::Cluster.command(), None);
}

fn facts() -> Facts {
    Facts {
        status: NodeStatus::of(1, "Leader", 4, 1, &ControlState::default(), ""),
        row: None,
        rows: vec![],
        live: StrMap::new(),
        drives: Json::Null,
        last_reclaim: None,
        addrs: addrs(),
    }
}

#[test]
fn a_request_is_planned_by_its_route() {
    let svc = FileService::new();
    let h = Headers::new();
    assert!(matches!(plan(&Route::Cluster, &h, &svc, facts()), Plan::Send(a) if a.code == 200));
    assert!(matches!(plan(&Route::Unknown, &h, &svc, facts()), Plan::Send(a) if a.code == 404));
    assert!(matches!(
        plan(&Route::Put { path: "/a".into() }, &h, &svc, facts()),
        Plan::Send(a) if a.code == 411
    ));
    let mut sized = Headers::new();
    sized.take("Content-Length: 5");
    assert!(matches!(
        plan(&Route::Put { path: "/a".into() }, &sized, &svc, facts()),
        Plan::Receive { len: 5, .. }
    ));
    assert!(matches!(
        plan(&Route::TapeUnassign { barcode: "T1".into() }, &h, &svc, facts()),
        Plan::Submit
    ));
    assert!(matches!(
        plan(&Route::Stat { path: "/a".into() }, &h, &svc, facts()),
        Plan::Send(a) if a.code == 503
    ));
}

#[test]
fn lists_are_answered() {
    let mut m: StrMap<u64> = StrMap::new();
    m.insert("/b".into(), 2);
    m.insert("/a".into(), 1);
    let a = files_answer(&m);
    assert_eq!(a.code, 200);
    let text = body(&a.body);
    assert!(text.find("/a").unwrap() < text.find("/b").unwrap());
    let s = NodeStatus::of(1, "Leader", 4, 1, &ControlState::default(), "");
    assert_eq!(cluster_answer(&s, Some(7), Json::Null, &None).code, 200);
    let live: StrMap<Live> = StrMap::new();
    assert_eq!(tape_rs::daemon::http::pools_answer(&s, &live).code, 200);
}
