use http_replay_proxy::cli::CliArguments;
use http_replay_proxy::pipeline::{respond_with, Action, ProxyState, SnapshotLoad};
use http_replay_proxy::records::{Record, RecordFile};
use http_replay_proxy::response::Response;
use http_replay_proxy::session::get_session;
use http_replay_proxy::strmap::StrMap;

const SEEDED: &str = "{\"GET:/todos/1\":[{\"status\":\"200 OK\",\"headers\":{\"content-type\":\"application/json; charset=utf-8\"},\"body\":\"{\\\"userId\\\":1,\\\"id\\\":1,\\\"title\\\":\\\"delectus aut autem\\\",\\\"completed\\\":false}\"},{\"status\":\"200 OK\",\"headers\":{},\"body\":\"{\\\"userId\\\":1,\\\"id\\\":1,\\\"title\\\":\\\"second\\\",\\\"completed\\\":true}\"}],\"GET:/todos/2\":[{\"status\":\"200 OK\",\"headers\":{},\"body\":\"{\\\"userId\\\":1,\\\"id\\\":2,\\\"title\\\":\\\"quis\\\",\\\"completed\\\":false}\"}],\"GET:/nothing\":[]}";

fn replaying_args(dir: &str) -> CliArguments {
    CliArguments {
        forward_to: "https://jsonplaceholder.typicode.com/".to_string(),
        record: false,
        record_dir: dir.to_string(),
        listen_addr: "localhost".to_string(),
        port: 3333,
    }
}

fn respond(action: Action) -> Response {
    match action {
        Action::Respond(response) => response,
        other => panic!("{:?}", other),
    }
}

fn is_success(response: &Response) -> bool {
    200 <= response.status && response.status < 300
}

fn cookie_of(response: &Response) -> String {
    let value = &response
        .headers
        .iter()
        .find(|(name, _)| name.eq_ignore_ascii_case("set-cookie"))
        .unwrap()
        .1;
    value.split(';').next().unwrap().to_string()
}

fn start(app: &mut ProxyState, name: &str) -> String {
    let res = respond(app.handle_request("POST", &format!("/start-record/{}", name), None, None));
    assert!(is_success(&res));
    cookie_of(&res)
}

fn get_from(app: &mut ProxyState, target: &str, cookie: &str, file: Option<&str>) -> Response {
    match app.handle_request("GET", target, Some(cookie), None) {
        Action::Replay { session_id, fingerprint, filepath } => {
            assert_eq!(filepath, "./tests/data/test.snap");
            assert_eq!(fingerprint, format!("GET:{}", target));
            app.replay(&session_id, fingerprint, SnapshotLoad::from_text(file))
        },
        other => panic!("{:?}", other),
    }
}

fn get(app: &mut ProxyState, target: &str, cookie: &str) -> Response {
    get_from(app, target, cookie, Some(SEEDED))
}

fn record(status: &str, body: &str) -> Record {
    Record { status: status.to_string(), headers: Vec::new(), body: body.to_string() }
}

#[test]
fn test_replay_mode_start() {
    let mut app = replaying_args("./tests/data").launch();
    let res = respond(app.handle_request("POST", "/start-record/test", None, None));
    assert!(is_success(&res));
    assert!(res.headers.iter().any(|(name, _)| name.eq_ignore_ascii_case("set-cookie")));
    assert_ne!(get_session(Some(&cookie_of(&res))), None);
}

#[test]
fn test_replaying_mode_start_then_end() {
    let mut app = replaying_args("./tests/data/").launch();
    let cookie = start(&mut app, "test");
    let res = respond(app.handle_request("POST", "/end-record", Some(&cookie), None));
    assert!(is_success(&res));
    assert_eq!(res.body, "Not recording");
    assert!(app.sessions.sessions.entries.is_empty());
}

#[test]
fn test_replaying_mode_start_then_a_request_then_end() {
    let mut app = replaying_args("./tests/data/").launch();
    let cookie = start(&mut app, "test");
    assert_ne!(get_session(Some(&cookie)), None);
    let res2 = get(&mut app, "/todos/1", &cookie);
    assert_eq!(res2.status, 200);
    let user: serde_json::Value = serde_json::from_str(&res2.body).unwrap();
    assert_eq!(user.get("id").unwrap().as_i64(), Some(1));
    assert_eq!(
        res2.body,
        "{\"userId\":1,\"id\":1,\"title\":\"delectus aut autem\",\"completed\":false}"
    );
    let res = respond(app.handle_request("POST", "/end-record", Some(&cookie), None));
    assert!(is_success(&res));
}

#[test]
fn test_replaying_mode_start_then_multiple_requests_then_end() {
    let mut app = replaying_args("./tests/data/").launch();
    let cookie = start(&mut app, "test");
    assert_ne!(get_session(Some(&cookie)), None);
    assert!(is_success(&get(&mut app, "/todos/1", &cookie)));
    assert!(is_success(&get(&mut app, "/todos/1", &cookie)));
    assert!(is_success(&get(&mut app, "/todos/2", &cookie)));
    let res = respond(app.handle_request("POST", "/end-record", Some(&cookie), None));
    assert!(is_success(&res));
}

#[test]
fn replays_come_in_the_order_of_the_recording() {
    let mut app = replaying_args("./tests/data").launch();
    let cookie = start(&mut app, "test");
    let first = get(&mut app, "/todos/1", &cookie);
    assert!(first.body.contains("delectus aut autem"));
    assert_eq!(
        first.headers,
        vec![("content-type".to_string(), "application/json; charset=utf-8".to_string())]
    );
    let other = get(&mut app, "/todos/2", &cookie);
    assert!(other.body.contains("quis"));
    let second = get(&mut app, "/todos/1", &cookie);
    assert!(second.body.contains("second"));
    let third = get(&mut app, "/todos/1", &cookie);
    assert_eq!(third.status, 404);
    assert_eq!(third.body, "No record in position 2 found");
    let again = get(&mut app, "/todos/1", &cookie);
    assert_eq!(again.body, "No record in position 2 found");
    let id = get_session(Some(&cookie)).unwrap();
    assert_eq!(app.sessions.get(&id).unwrap().cursor("GET:/todos/1"), 2);
    assert_eq!(app.sessions.get(&id).unwrap().cursor("GET:/todos/2"), 1);
}

#[test]
fn a_missing_snapshot_is_not_found() {
    let mut app = replaying_args("./tests/data").launch();
    let cookie = start(&mut app, "test");
    let res = get_from(&mut app, "/todos/1", &cookie, None);
    assert_eq!(res.status, 404);
    assert_eq!(res.body, "No file found");
    let id = get_session(Some(&cookie)).unwrap();
    assert_eq!(app.sessions.get(&id).unwrap().cursor("GET:/todos/1"), 0);
}

#[test]
fn a_snapshot_that_cannot_be_read_is_a_server_error() {
    let mut app = replaying_args("./tests/data").launch();
    let cookie = start(&mut app, "test");
    let res = get_from(&mut app, "/todos/1", &cookie, Some("{ not a snapshot"));
    assert_eq!(res.status, 500);
    assert_eq!(res.body, "Cannot parse record file");
    let id = get_session(Some(&cookie)).unwrap();
    assert_eq!(app.sessions.get(&id).unwrap().cursor("GET:/todos/1"), 0);
    let fine = get(&mut app, "/todos/1", &cookie);
    assert_eq!(fine.status, 200);
}

#[test]
fn an_unknown_fingerprint_is_not_found() {
    let mut app = replaying_args("./tests/data").launch();
    let cookie = start(&mut app, "test");
    let res = get(&mut app, "/todos/3", &cookie);
    assert_eq!(res.status, 404);
    assert_eq!(res.body, "No identifier found");
    let post = match app.handle_request("POST", "/todos/1", Some(&cookie), None) {
        Action::Replay { session_id, fingerprint, .. } => {
            app.replay(&session_id, fingerprint, SnapshotLoad::from_text(Some(SEEDED)))
        },
        other => panic!("{:?}", other),
    };
    assert_eq!(post.body, "No identifier found");
}

#[test]
fn an_empty_sequence_is_exhausted_at_once() {
    let mut app = replaying_args("./tests/data").launch();
    let cookie = start(&mut app, "test");
    let res = get(&mut app, "/nothing", &cookie);
    assert_eq!(res.status, 404);
    assert_eq!(res.body, "No record in position 0 found");
}

#[test]
fn a_request_without_a_session_is_refused_while_replaying() {
    let mut app = replaying_args("./tests/data").launch();
    let none = respond(app.handle_request("GET", "/todos/1", None, None));
    assert_eq!(none.status, 400);
    assert_eq!(none.body, "No session started");
    let stale = respond(app.handle_request("GET", "/todos/1", Some("r-session=gone"), None));
    assert_eq!(stale.status, 400);
}

#[test]
fn clear_sessions_ends_replaying() {
    let mut app = replaying_args("./tests/data").launch();
    let cookie = start(&mut app, "test");
    assert_eq!(get(&mut app, "/todos/1", &cookie).status, 200);
    let cleared = respond(app.handle_request("POST", "/clear-sessions", None, None));
    assert_eq!(cleared.body, "Sessions cleared");
    let res = respond(app.handle_request("GET", "/todos/1", Some(&cookie), None));
    assert_eq!(res.status, 400);
    assert_eq!(res.body, "No session started");
    let id = get_session(Some(&cookie)).unwrap();
    let late = app.replay(&id, "GET:/todos/1".to_string(), SnapshotLoad::from_text(Some(SEEDED)));
    assert_eq!(late.status, 400);
    assert_eq!(late.body, "No session started");
}

#[test]
fn a_new_session_starts_at_the_first_record() {
    let mut app = replaying_args("./tests/data").launch();
    let first = start(&mut app, "test");
    assert!(get(&mut app, "/todos/1", &first).body.contains("delectus"));
    let second = start(&mut app, "test");
    assert!(get(&mut app, "/todos/1", &second).body.contains("delectus"));
    assert!(get(&mut app, "/todos/1", &first).body.contains("second"));
}

#[test]
fn many_replays_serve_each_position_once() {
    let mut log = Vec::new();
    for i in 0..50 {
        log.push(record("200", &i.to_string()));
    }
    let mut app = replaying_args("d").launch();
    app.start_record_as("n", "s".to_string());
    for _ in 0..7 {
        app.sessions.advance_cursor("s", "GET:/x".to_string());
    }
    let mut served = Vec::new();
    for _ in 0..20 {
        let file = RecordFile {
            records: StrMap { entries: vec![("GET:/x".to_string(), log.clone())] },
        };
        let res = app.replay("s", "GET:/x".to_string(), SnapshotLoad::Loaded(file));
        assert_eq!(res.status, 200);
        served.push(res.body.parse::<usize>().unwrap());
    }
    assert_eq!(served, (7..27).collect::<Vec<usize>>());
    assert_eq!(app.sessions.get("s").unwrap().cursor("GET:/x"), 27);
}

#[test]
fn a_record_is_answered_as_it_is_stored() {
    let stored = Record {
        status: "418 I'm a teapot".to_string(),
        headers: vec![
            ("x-a".to_string(), "1".to_string()),
            ("Connection".to_string(), "close".to_string()),
            ("x-b".to_string(), "2".to_string()),
        ],
        body: "short and stout".to_string(),
    };
    let res = respond_with(&stored);
    assert_eq!(res.status, 418);
    assert_eq!(
        res.headers,
        vec![("x-a".to_string(), "1".to_string()), ("x-b".to_string(), "2".to_string())]
    );
    assert_eq!(res.body, "short and stout");
    assert_eq!(respond_with(&record("teapot", "x")).status, 200);
    assert_eq!(respond_with(&record("", "x")).status, 200);
}

#[test]
fn reading_a_snapshot_text_gives_missing_malformed_or_loaded() {
    assert_eq!(SnapshotLoad::from_text(None), SnapshotLoad::Missing);
    assert_eq!(SnapshotLoad::from_text(Some("")), SnapshotLoad::Malformed);
    assert_eq!(SnapshotLoad::from_text(Some("[]")), SnapshotLoad::Malformed);
    assert_eq!(
        SnapshotLoad::from_text(Some("{}")),
        SnapshotLoad::Loaded(RecordFile { records: StrMap::new() })
    );
}

#[test]
fn what_was_recorded_is_replayed() {
    let mut recorder = CliArguments {
        forward_to: "http://up.example/".to_string(),
        record: true,
        record_dir: "snaps".to_string(),
        listen_addr: "localhost".to_string(),
        port: 3333,
    }
    .launch();
    recorder.start_record_as("run", "rec".to_string());
    let exchanges = vec![
        (200, vec![("content-type", "text/plain"), ("connection", "close")], "first"),
        (404, vec![("x-why", "gone")], "second \"quoted\"\n"),
        (500, vec![], ""),
    ];
    let mut given = Vec::new();
    for (status, headers, body) in exchanges {
        let upstream = http_replay_proxy::capture::Upstream::Answered {
            status,
            headers: headers
                .iter()
                .map(|(n, v)| (n.to_string(), v.as_bytes().to_vec()))
                .collect(),
            body: body.as_bytes().to_vec(),
        };
        given.push(recorder.captured("rec", "GET:/x".to_string(), upstream));
    }
    let data = match recorder.end_record_for(Some("rec".to_string())) {
        Action::Persist { data, filepath, .. } => {
            assert_eq!(filepath, "snaps/run.snap");
            data
        },
        other => panic!("{:?}", other),
    };

    let mut replayer = replaying_args("snaps").launch();
    replayer.start_record_as("run", "rep".to_string());
    for expected in given {
        let load = SnapshotLoad::from_text(Some(&data));
        let served = replayer.replay("rep", "GET:/x".to_string(), load);
        assert_eq!(served, expected);
    }
    let load = SnapshotLoad::from_text(Some(&data));
    assert_eq!(replayer.replay("rep", "GET:/x".to_string(), load).status, 404);
}

#[test]
fn a_repeated_header_is_answered_with_its_last_value() {
    let text = "{\"GET:/d\":[{\"status\":\"200\",\"headers\":{\"a\":\"1\",\"b\":\"2\",\"a\":\"3\",\"Connection\":\"close\"},\"body\":\"\"}]}";
    let mut app = replaying_args("d").launch();
    app.start_record_as("n", "s".to_string());
    let res = app.replay("s", "GET:/d".to_string(), SnapshotLoad::from_text(Some(text)));
    assert_eq!(res.status, 200);
    assert_eq!(
        res.headers,
        vec![("a".to_string(), "3".to_string()), ("b".to_string(), "2".to_string())]
    );
}
