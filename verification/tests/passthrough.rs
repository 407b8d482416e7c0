use http_replay_proxy::cli::CliArguments;
use http_replay_proxy::forward::Target;
use http_replay_proxy::pipeline::{Action, ProxyState};
use http_replay_proxy::records::RecordOptions;

fn passthrough_args() -> CliArguments {
    CliArguments {
        forward_to: "https://jsonplaceholder.typicode.com/".to_string(),
        record: false,
        record_dir: "".to_string(),
        listen_addr: "localhost".to_string(),
        port: 3333,
    }
}

fn relay(url: &str, host_value: &str, host: &str, port: u16) -> Action {
    Action::Relay {
        target: Target {
            url: url.to_string(),
            host: host.to_string(),
            port,
            attach: vec![("Host".to_string(), host_value.to_string())],
        },
    }
}

fn typicode(path: &str) -> Action {
    relay(
        &format!("https://jsonplaceholder.typicode.com{}", path),
        "jsonplaceholder.typicode.com",
        "jsonplaceholder.typicode.com",
        80,
    )
}

#[test]
fn test_passthrough_mode_status() {
    let mut app = passthrough_args().launch();
    let action = app.handle_request("GET", "/todos/1", None, None);
    assert_eq!(action, typicode("/todos/1"));
}

#[test]
fn test_passthrough_mode_body() {
    let mut app = passthrough_args().launch();
    let action = app.handle_request("GET", "/todos/1", Some("other=cookie"), None);
    assert_eq!(action, typicode("/todos/1"));
    assert!(app.sessions.sessions.entries.is_empty());
}

#[test]
fn the_record_flag_counts_for_nothing_without_a_directory() {
    let state = ProxyState::new(
        RecordOptions { record: true, record_dir: "".to_string() },
        "http://up.example".to_string(),
    );
    assert_eq!(
        state.proxy("GET", "/a?b", None, None),
        relay("http://up.example/a?b", "up.example", "up.example", 80)
    );
    assert_eq!(
        state.proxy("GET", "/a?b", Some("r-session=abc"), None),
        relay("http://up.example/a?b", "up.example", "up.example", 80)
    );
}

#[test]
fn passthrough_keeps_path_and_query_and_takes_the_origin_of_the_upstream() {
    let state = ProxyState::new(
        RecordOptions { record: false, record_dir: "".to_string() },
        "http://localhost:9000/ignored".to_string(),
    );
    assert_eq!(
        state.proxy("DELETE", "http://client.side:1/x/y?z=1", None, None),
        relay("http://localhost:9000/x/y?z=1", "localhost:9000", "localhost", 9000)
    );
}

#[test]
fn the_address_of_the_client_is_passed_on() {
    let state = passthrough_args().launch();
    match state.proxy("GET", "/todos/1", None, Some("192.0.2.7")) {
        Action::Relay { target } => {
            assert_eq!(target.url, "https://jsonplaceholder.typicode.com/todos/1");
            assert_eq!(
                target.attach,
                vec![
                    ("Host".to_string(), "jsonplaceholder.typicode.com".to_string()),
                    ("X-Forwarded-For".to_string(), "192.0.2.7".to_string()),
                ]
            );
        },
        other => panic!("{:?}", other),
    }
}

#[test]
fn connect_is_tunnelled_to_the_authority() {
    let state = passthrough_args().launch();
    assert_eq!(
        state.proxy("CONNECT", "example.org:443", None, None),
        Action::Tunnel { addr: "example.org:443".to_string() }
    );
    match state.proxy("CONNECT", "/no/authority", None, None) {
        Action::Respond(response) => {
            assert_eq!(response.status, 400);
            assert_eq!(response.body, "CONNECT must be to a socket address");
        },
        other => panic!("{:?}", other),
    }
}

#[test]
fn an_upstream_that_is_no_address_cannot_be_reached() {
    let state = ProxyState::new(
        RecordOptions { record: false, record_dir: "".to_string() },
        "nonsense".to_string(),
    );
    match state.proxy("GET", "/a", None, None) {
        Action::Respond(response) => {
            assert_eq!(response.status, 502);
            assert_eq!(response.body, "Upstream unreachable");
        },
        other => panic!("{:?}", other),
    }
}

#[test]
fn proxy_for_decides_from_what_it_is_given() {
    let state = passthrough_args().launch();
    let sent = Target {
        url: "http://x/a".to_string(),
        host: "x".to_string(),
        port: 81,
        attach: vec![("Host".to_string(), "x:81".to_string())],
    };
    assert_eq!(
        state.proxy_for("GET", "/a", None, Some(sent), None),
        relay("http://x/a", "x:81", "x", 81)
    );
    assert_eq!(
        state.proxy_for("CONNECT", "h:1", None, None, Some("h:1".to_string())),
        Action::Tunnel { addr: "h:1".to_string() }
    );
    match state.proxy_for("GET", "/a", Some("s".to_string()), None, None) {
        Action::Respond(response) => assert_eq!(response.status, 502),
        other => panic!("{:?}", other),
    }
}

#[test]
fn control_endpoints_work_in_passthrough_too() {
    let mut app = passthrough_args().launch();
    match app.handle_request("POST", "/start-record/t", None, None) {
        Action::Respond(response) => {
            assert_eq!(response.status, 200);
            assert_eq!(response.body, "Session started");
        },
        other => panic!("{:?}", other),
    }
    assert_eq!(app.sessions.sessions.entries.len(), 1);
    assert_eq!(app.sessions.sessions.entries[0].1.filepath, "/t.snap");
    let id = app.sessions.sessions.entries[0].0.clone();
    assert_eq!(
        app.handle_request("GET", "/todos/1", Some(&format!("r-session={}", id)), None),
        typicode("/todos/1")
    );
    match app.handle_request("POST", "/end-record", Some(&format!("r-session={}", id)), None) {
        Action::Respond(response) => {
            assert_eq!(response.status, 200);
            assert_eq!(response.body, "Not recording");
        },
        other => panic!("{:?}", other),
    }
    assert!(app.sessions.sessions.entries.is_empty());
}
