use http_replay_proxy::cli::CliArguments;
use http_replay_proxy::config::{get_default_config, socket_address, Config};
use http_replay_proxy::records::Mode;
use http_replay_proxy::response::Response;
use http_replay_proxy::text::{
    chars_of, decimal, decode_or_empty, eq_ignore_case, has_prefix, join, str_eq, to_lower_char,
    to_upper_char, to_upper_text, trim_trailing_slashes,
};

#[test]
fn default_config_passes_requests_through() {
    let config = get_default_config();
    assert_eq!(
        config,
        Config {
            hosts_to_record: vec![".*".to_string()],
            listen_addr: "localhost".to_string(),
            listen_port: 3333,
            record_dir: "".to_string(),
        }
    );
    assert_eq!(config.mode(true), Mode::Passthrough);
    assert_eq!(config.mode(false), Mode::Passthrough);
    assert_eq!(config.listen_address(), "localhost:3333");
}

#[test]
fn config_mode_follows_directory_and_flag() {
    let mut config = get_default_config();
    config.record_dir = ".tmp".to_string();
    assert_eq!(config.mode(true), Mode::Record);
    assert_eq!(config.mode(false), Mode::Replay);
}

#[test]
fn socket_address_is_host_colon_port() {
    assert_eq!(socket_address("localhost", 3333), "localhost:3333");
    assert_eq!(socket_address("127.0.0.1", 0), "127.0.0.1:0");
    assert_eq!(socket_address("h", 65535), "h:65535");
}

#[test]
fn arguments_give_config_and_state() {
    let args = CliArguments {
        forward_to: "https://jsonplaceholder.typicode.com/".to_string(),
        record: true,
        record_dir: ".tmp/".to_string(),
        listen_addr: "localhost".to_string(),
        port: 3333,
    };
    let config = args.config();
    assert_eq!(config.listen_address(), "localhost:3333");
    assert_eq!(config.record_dir, ".tmp/");
    assert_eq!(config.hosts_to_record, vec![".*".to_string()]);
    let state = args.launch();
    assert!(state.options.record);
    assert_eq!(state.options.record_dir, ".tmp/");
    assert_eq!(state.forward_to, "https://jsonplaceholder.typicode.com/");
    assert!(state.sessions.sessions.entries.is_empty());
    let launched = config.launch(false, "http://up".to_string());
    assert!(!launched.options.record);
    assert_eq!(launched.forward_to, "http://up");
}

#[test]
fn decimal_writes_numbers() {
    assert_eq!(decimal(0), "0");
    assert_eq!(decimal(7), "7");
    assert_eq!(decimal(10), "10");
    assert_eq!(decimal(3333), "3333");
    assert_eq!(decimal(usize::MAX), usize::MAX.to_string());
}

#[test]
fn letters_change_case_and_nothing_else_does() {
    assert_eq!(to_upper_char('a'), 'A');
    assert_eq!(to_upper_char('z'), 'Z');
    assert_eq!(to_upper_char('A'), 'A');
    assert_eq!(to_upper_char('1'), '1');
    assert_eq!(to_upper_char('\u{e9}'), '\u{e9}');
    assert_eq!(to_upper_char('{'), '{');
    assert_eq!(to_upper_char('`'), '`');
    assert_eq!(to_lower_char('A'), 'a');
    assert_eq!(to_lower_char('Z'), 'z');
    assert_eq!(to_lower_char('['), '[');
    assert_eq!(to_lower_char('@'), '@');
    assert_eq!(to_lower_char('\u{c9}'), '\u{c9}');
    assert_eq!(to_upper_text("get \u{e9}/x1"), "GET \u{e9}/X1");
    assert_eq!(to_upper_text(""), "");
}

#[test]
fn texts_are_compared_without_case() {
    assert!(eq_ignore_case("Connection", "connection"));
    assert!(eq_ignore_case("", ""));
    assert!(eq_ignore_case("a1-B", "A1-b"));
    assert!(!eq_ignore_case("connection", "connections"));
    assert!(!eq_ignore_case("a", "b"));
    assert!(!eq_ignore_case("\u{e9}", "\u{c9}"));
    assert!(!eq_ignore_case("[", "{"));
}

#[test]
fn texts_are_split_and_joined() {
    let chars = chars_of("h\u{e9}llo");
    assert_eq!(chars, vec!['h', '\u{e9}', 'l', 'l', 'o']);
    assert_eq!(join("ab", "cd"), "abcd");
    assert!(has_prefix(&chars_of("/start-record/x"), &chars_of("/start-record/")));
    assert!(has_prefix(&chars_of("ab"), &chars_of("")));
    assert!(has_prefix(&chars_of("ab"), &chars_of("ab")));
    assert!(!has_prefix(&chars_of("ab"), &chars_of("abc")));
    assert!(!has_prefix(&chars_of("ab"), &chars_of("b")));
}

#[test]
fn trailing_slashes_are_trimmed() {
    assert_eq!(trim_trailing_slashes("a/b//"), "a/b");
    assert_eq!(trim_trailing_slashes("a/b"), "a/b");
    assert_eq!(trim_trailing_slashes("///"), "");
    assert_eq!(trim_trailing_slashes(""), "");
}

#[test]
fn bytes_are_decoded_or_dropped() {
    assert_eq!(decode_or_empty(b"plain".to_vec()), "plain");
    assert_eq!(decode_or_empty("\u{20ac}".as_bytes().to_vec()), "\u{20ac}");
    assert_eq!(decode_or_empty(vec![0xc3]), "");
    assert_eq!(decode_or_empty(vec![0xed, 0xa0, 0x80]), "");
    assert_eq!(decode_or_empty(Vec::new()), "");
}

#[test]
fn plain_responses_have_no_headers() {
    let response = Response::text(404, "No file found");
    assert_eq!(response.status, 404);
    assert!(response.headers.is_empty());
    assert_eq!(response.body, "No file found");
    let with = Response::text_with_cookie(200, "ok", "a=b".to_string());
    assert_eq!(with.headers, vec![("Set-Cookie".to_string(), "a=b".to_string())]);
    assert_eq!(with.status, 200);
    assert_eq!(with.body, "ok");
}

#[test]
fn texts_are_equal_where_their_characters_are() {
    assert!(str_eq("", ""));
    assert!(str_eq("r-session", "r-session"));
    assert!(str_eq("gr\u{fc}n \u{1f600}", "gr\u{fc}n \u{1f600}"));
    assert!(!str_eq("a", ""));
    assert!(!str_eq("", "a"));
    assert!(!str_eq("abc", "abd"));
    assert!(!str_eq("abc", "ab"));
    assert!(!str_eq("\u{e9}", "e"));
    assert!(!str_eq("\u{e9}", "\u{e8}"));
    assert!(!str_eq("A", "a"));
}
