//! The client: what it asks, whom it asks, and what it makes of the answers.
use tape_rs::client::reply::{
    admin_result, body_json, content_result, dir_result, files_listed, pools, range_result,
    stat_result, ClientError, FileStat, PathStat,
};
use tape_rs::client::search::{After, Client};
use tape_rs::client::upload::{put_headers, Put, PutOutcome, PutReply, PutStep};
use tape_rs::client::wire::{
    assign_route, dir_route, file_route, is_go_ahead, plan_range, pool_route, put_route, range_header,
    read_status, reclaim_route, stat_route, take_header, unassign_route, write_head, Header,
};
use tape_rs::daemon::request::{parse_range, read_line, route, Headers, Route};

#[test]
fn the_server_reads_what_the_client_asks() {
    let asked = |method: &str, target: String| -> Route {
        let (head, _) = write_head(method, &target, "n1:80", &vec![], None);
        let l = read_line(head.lines().next().unwrap()).unwrap();
        assert_eq!(l.method, method);
        route(&l.method, &l.path, &l.query)
    };
    assert_eq!(asked("GET", stat_route("/a b")), Route::Stat { path: "/a b".into() });
    assert_eq!(asked("GET", file_route("/日/x&y")), Route::Read { path: "/日/x&y".into() });
    assert_eq!(asked("PUT", put_route("/p", false)), Route::Put { path: "/p".into() });
    assert!(read_line(&format!("PUT {} HTTP/1.1", put_route("/p", true))).unwrap().wait);
    assert_eq!(
        asked("GET", dir_route("/d/&=", true)),
        Route::ListDir { dir: "/d/&=".into(), pending: true }
    );
    assert_eq!(
        asked("POST", pool_route("a b", Some(9))),
        Route::PoolCreate { name: "a b".into(), file_limit: 9 }
    );
    assert_eq!(
        asked("POST", pool_route("p", None)),
        Route::PoolCreate { name: "p".into(), file_limit: 200_000 }
    );
    assert_eq!(
        asked("POST", assign_route("T1", "p")),
        Route::TapeAssign { barcode: "T1".into(), pool: "p".into() }
    );
    for pool in ["a&b", "a=b", "带 池", "100%", "a?b"] {
        assert_eq!(
            asked("POST", assign_route("T1", pool)),
            Route::TapeAssign { barcode: "T1".into(), pool: pool.into() }
        );
    }
    assert_eq!(
        asked("DELETE", unassign_route("T1")),
        Route::TapeUnassign { barcode: "T1".into() }
    );
    assert_eq!(
        asked("POST", reclaim_route("T1")),
        Route::TapeReclaim { barcode: "T1".into() }
    );
    assert_eq!(range_header(5, 10), "bytes=5-14");
    assert_eq!(plan_range(5, 10), "bytes=5-14");
    // Where nothing is wanted the byte at the start is asked for: a start past the end is refused.
    assert_eq!(plan_range(5, 0), "bytes=5-5");
    assert_eq!(plan_range(u64::MAX, 0), "bytes=18446744073709551615-18446744073709551615");
}

#[test]
fn a_request_head_asks_first_before_a_large_body() {
    let h = vec![Header { name: "If-None-Match".into(), value: "*".into() }];
    let (small, ask) = write_head("PUT", "/x", "n1:80", &h, Some(10));
    assert!(!ask);
    assert!(small.starts_with("PUT /x HTTP/1.1\r\n"));
    assert!(small.contains("If-None-Match: *\r\n"));
    assert!(small.contains("Content-Length: 10\r\n"));
    assert!(small.ends_with("\r\n\r\n"));
    let (large, ask) = write_head("PUT", "/x", "n1:80", &vec![], Some(1_000_000));
    assert!(ask);
    assert!(large.contains("100-continue"));
    let mut seen = Headers::new();
    for line in large.split("\r\n").skip(1) {
        if !line.is_empty() {
            seen.take(line);
        }
    }
    assert_eq!(seen.content_length, Some(1_000_000));
    assert!(seen.expects_continue);
    assert_eq!(read_status("HTTP/1.1 404 Not Found"), Some(404));
    assert_eq!(read_status("garbage"), None);
    assert!(is_go_ahead("HTTP/1.1 100 Continue"));
    assert_eq!(take_header(None, "Content-Length: 12"), Some(12));
    assert_eq!(take_header(Some(3), "X: 12"), Some(3));
}

#[test]
fn answers_are_read() {
    let body = br#"{"path":"/a","committed":true,"length":5,"generation":3,"round":2,"barcode":"T1","sha256":"ab","state":"committed"}"#;
    let st = stat_result(200, body).unwrap().unwrap();
    assert_eq!(st.state, "committed");
    assert_eq!(st.length, 5);
    assert!(stat_result(404, b"{}").unwrap().is_none());
    assert!(matches!(
        stat_result(500, b"boom"),
        Err(ClientError::Rejected { status: 500, .. })
    ));
    assert_eq!(content_result(200, vec![1, 2]).unwrap(), vec![1, 2]);
    assert!(matches!(content_result(404, vec![]), Err(ClientError::NotFound)));
    assert_eq!(range_result(206, vec![1, 2], 10, 2).unwrap(), vec![1, 2]);
    assert_eq!(range_result(206, vec![1], 10, 0).unwrap(), Vec::<u8>::new());
    assert_eq!(range_result(200, vec![0, 1, 2, 3], 1, 0).unwrap(), Vec::<u8>::new());
    for status in [200, 416] {
        assert!(matches!(
            range_result(status, vec![], 10, 0),
            Err(ClientError::Rejected { status: 416, .. })
        ));
    }
    // A whole file in place of the range: the range is cut out of it.
    assert_eq!(range_result(200, vec![0, 1, 2, 3], 1, 2).unwrap(), vec![1, 2]);
    assert_eq!(range_result(200, vec![0, 1, 2, 3], 3, 9).unwrap(), vec![3]);
    for offset in [4, 5, u64::MAX] {
        assert!(matches!(
            range_result(200, vec![0, 1, 2, 3], offset, 1),
            Err(ClientError::Rejected { status: 416, .. })
        ));
    }
    assert!(matches!(
        range_result(416, vec![], 10, 2),
        Err(ClientError::Rejected { status: 416, .. })
    ));
    assert!(matches!(range_result(404, vec![], 10, 2), Err(ClientError::NotFound)));
    assert!(matches!(dir_result(404, b""), Err(ClientError::NotFound)));
    assert!(admin_result(200, br#"{"result":"ok"}"#).is_ok());
    assert!(matches!(
        admin_result(409, b"no"),
        Err(ClientError::Rejected { status: 409, .. })
    ));
    let p = pools(&body_json(
        br#"{"pools":[{"uuid":"u","name":"p","file_limit":7,"tapes":["T1"]}]}"#,
    ));
    assert_eq!(p.len(), 1);
    assert_eq!((p[0].uuid.as_str(), p[0].name.as_str(), p[0].file_limit), ("u", "p", 7));
    assert_eq!(p[0].tapes, vec!["T1".to_string()]);
    assert!(body_json(b"not json").is_null());
    let _ = files_listed(&body_json(b"{}"));
}

#[test]
fn every_node_is_asked_and_a_hint_is_followed() {
    let mut c = Client::new(vec!["a".into(), "b".into(), "c".into()]);
    let mut s = c.begin(String::new());
    assert_eq!(c.next_node(&mut s), Some("a".to_string()));
    // This node does not serve, and says who does.
    let hint = body_json(br#"{"error":"not_serving","leader_url":"http://d"}"#);
    let after = c.answered(&mut s, "a", 503, &hint);
    assert_eq!(after, After::GoOn);
    assert_eq!(c.next_node(&mut s), Some("d".to_string()));
    assert_eq!(c.answered(&mut s, "d", 200, &body_json(b"{}")), After::Take);
    assert_eq!(c.leader, Some("d".to_string()));
    // The next question goes there first.
    let mut s = c.begin(String::new());
    assert_eq!(c.next_node(&mut s), Some("d".to_string()));
    assert_eq!(c.broke_off(&mut s, "d", false, false, "连接被拒"), After::GoOn);
    assert_eq!(c.leader, None);
    assert_eq!(c.next_node(&mut s), Some("a".to_string()));
    assert_eq!(c.broke_off(&mut s, "a", true, true, "断开"), After::GiveUp);
    assert!(c.all_asked(&s, true).is_some());
}

fn stat(len: u64, digest: &str) -> PathStat {
    PathStat {
        state: "committed".into(),
        length: len,
        current: Some(FileStat {
            length: len,
            generation: 8,
            round: 1,
            barcode: "T1".into(),
            sha256: digest.into(),
        }),
    }
}

#[test]
fn an_upload_succeeds_only_where_it_is_certain() {
    let p = Put::of("/a", b"abc", false);
    assert_eq!(
        (p.len, p.digest.as_str(), p.wait, p.attempts),
        (3, "ba7816bf8f01cfea414140de5dae2223b00361a396177a9cb410ff61f20015ad", false, 0)
    );
    assert!(put_headers(false).is_empty());
    assert_eq!(
        put_headers(true),
        vec![Header { name: "If-None-Match".into(), value: "*".into() }]
    );
    let mut p = Put::new("/a", 5, "ab", true);
    p.send();
    let r = p.replied(
        PutReply::Answer { status: 201, body: br#"{"generation":8}"#.to_vec() },
        false,
    );
    assert!(matches!(
        r,
        PutStep::Done(PutOutcome { generation: 8, attempts: 1, resolved_by_query: false, .. })
    ));
    let r = p.replied(PutReply::Answer { status: 409, body: b"{}".to_vec() }, false);
    assert!(!matches!(r, PutStep::Done(_)));
    // Broken off: the path is looked up before anything is sent again.
    let r = p.replied(PutReply::Failed(ClientError::Io("断开".into())), false);
    assert!(matches!(r, PutStep::Ask));
    assert!(matches!(
        p.found(&Some(stat(5, "ab")), true, false),
        PutStep::Done(PutOutcome { generation: 8, resolved_by_query: true, .. })
    ));
    assert!(!matches!(p.found(&Some(stat(5, "cd")), true, false), PutStep::Done(_)));
    assert!(!matches!(p.found(&None, true, false), PutStep::Done(_)));
}

#[test]
fn client_errors_say_what_happened() {
    assert!(ClientError::NoLeader("x".into()).message().contains("x"));
    assert!(ClientError::Rejected { status: 409, body: "b".into() }.message().contains("409"));
    assert!(!ClientError::NotFound.message().is_empty());
    assert!(ClientError::Exists("/a".into()).message().contains("/a"));
    assert!(ClientError::Io("e".into()).message().contains("e"));
}

#[test]
fn a_range_is_granted_as_it_is_asked_for() {
    let content: Vec<u8> = (0..10).collect();
    for (offset, len, want) in [(2, 3, &content[2..5]), (8, 5, &content[8..]), (9, 0, &content[9..9])] {
        match parse_range(&plan_range(offset, len), 10) {
            Some(Ok((start, end))) => {
                let sent = content[start as usize..end as usize].to_vec();
                assert_eq!(range_result(206, sent, offset, len).unwrap(), want);
                assert_eq!(range_result(200, content.clone(), offset, len).unwrap(), want);
            }
            other => panic!("{:?}", other),
        }
    }
    for (offset, len) in [(10, 1), (10, 0), (u64::MAX, 0)] {
        assert_eq!(parse_range(&plan_range(offset, len), 10), Some(Err(())));
    }
}
