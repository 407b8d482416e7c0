use http_replay_proxy::records::{Mode, Record, RecordOptions, RecordSession};
use http_replay_proxy::session::{
    drop_cookie_value, find_session, get_session, new_session_id, set_cookie_value,
};
use http_replay_proxy::store::SessionTable;
use http_replay_proxy::strmap::StrMap;

fn sample_record(body: &str) -> Record {
    Record {
        status: "200 OK".to_string(),
        headers: vec![("content-type".to_string(), "text/plain".to_string())],
        body: body.to_string(),
    }
}

#[test]
fn mode_follows_directory_and_flag() {
    let options = |record: bool, dir: &str| RecordOptions { record, record_dir: dir.to_string() };
    assert_eq!(options(false, "").mode(), Mode::Passthrough);
    assert_eq!(options(true, "").mode(), Mode::Passthrough);
    assert_eq!(options(true, ".tmp").mode(), Mode::Record);
    assert_eq!(options(false, ".tmp").mode(), Mode::Replay);
}

#[test]
fn record_options_are_cloned() {
    let options = RecordOptions { record: true, record_dir: "d".to_string() };
    assert_eq!(options.clone(), options);
}

#[test]
fn str_map_holds_the_last_value_of_a_key() {
    let mut map: StrMap<u32> = StrMap::new();
    assert_eq!(map.get("a"), None);
    map.insert("a".to_string(), 1);
    map.insert("b".to_string(), 2);
    map.insert("a".to_string(), 3);
    assert_eq!(map.get("a"), Some(&3));
    assert_eq!(map.get("b"), Some(&2));
    assert_eq!(map.entries.len(), 2);
    assert!(map.contains_key("b"));
    assert_eq!(map.position("b"), Some(1));
    assert_eq!(map.remove("a"), Some(3));
    assert_eq!(map.remove("a"), None);
    assert!(!map.contains_key("a"));
    map.clear();
    assert_eq!(map.entries.len(), 0);
}

#[test]
fn str_map_with_repeated_keys_reads_the_last_and_removes_all() {
    let mut map = StrMap {
        entries: vec![("k".to_string(), 1), ("x".to_string(), 5), ("k".to_string(), 2)],
    };
    assert_eq!(map.get("k"), Some(&2));
    map.insert("k".to_string(), 9);
    assert_eq!(map.get("k"), Some(&9));
    assert_eq!(map.remove("k"), Some(9));
    assert_eq!(map.get("k"), None);
    assert_eq!(map.entries, vec![("x".to_string(), 5)]);
}

#[test]
fn a_new_session_is_empty() {
    let session = RecordSession::new("dir/a.snap".to_string());
    assert_eq!(session.filepath, "dir/a.snap");
    assert_eq!(session.cursor("GET:/"), 0);
    assert_eq!(session.records.entries.len(), 0);
    assert_eq!(session.states.entries.len(), 0);
}

#[test]
fn append_keeps_the_order_of_the_records() {
    let mut session = RecordSession::new("f".to_string());
    session.append("GET:/a".to_string(), sample_record("1"));
    session.append("GET:/b".to_string(), sample_record("x"));
    session.append("GET:/a".to_string(), sample_record("2"));
    let a = session.records.get("GET:/a").unwrap();
    assert_eq!(a.len(), 2);
    assert_eq!(a[0].body, "1");
    assert_eq!(a[1].body, "2");
    assert_eq!(session.records.get("GET:/b").unwrap().len(), 1);
    assert_eq!(session.cursor("GET:/a"), 0);
}

#[test]
fn advance_moves_one_cursor_by_one() {
    let mut session = RecordSession::new("f".to_string());
    session.advance("GET:/a".to_string());
    session.advance("GET:/a".to_string());
    session.advance("GET:/b".to_string());
    assert_eq!(session.cursor("GET:/a"), 2);
    assert_eq!(session.cursor("GET:/b"), 1);
    assert_eq!(session.cursor("GET:/c"), 0);
}

#[test]
fn a_session_is_cloned_with_all_it_holds() {
    let mut session = RecordSession::new("f".to_string());
    session.append("GET:/a".to_string(), sample_record("1"));
    session.advance("GET:/a".to_string());
    let copy = session.clone();
    assert_eq!(copy, session);
    assert_eq!(sample_record("z").clone(), sample_record("z"));
}

#[test]
fn table_creates_gets_updates_removes_and_clears() {
    let mut table = SessionTable::new();
    assert!(table.create("s1".to_string(), "a.snap".to_string()));
    assert!(table.create("s2".to_string(), "b.snap".to_string()));
    assert!(table.contains("s1"));
    assert_eq!(table.get("s1").unwrap().filepath, "a.snap");
    assert!(table.get("s3").is_none());

    assert!(table.append_record("s1", "GET:/a".to_string(), sample_record("1")));
    assert!(!table.append_record("s3", "GET:/a".to_string(), sample_record("1")));
    assert!(table.advance_cursor("s2", "GET:/a".to_string()));
    assert!(!table.advance_cursor("s3", "GET:/a".to_string()));
    assert_eq!(table.get("s1").unwrap().records.get("GET:/a").unwrap().len(), 1);
    assert_eq!(table.get("s1").unwrap().cursor("GET:/a"), 0);
    assert_eq!(table.get("s2").unwrap().cursor("GET:/a"), 1);

    assert!(table.update("s2", RecordSession::new("c.snap".to_string())));
    assert!(!table.update("s3", RecordSession::new("c.snap".to_string())));
    assert_eq!(table.get("s2").unwrap().filepath, "c.snap");
    assert_eq!(table.get("s2").unwrap().cursor("GET:/a"), 0);

    let removed = table.remove("s1").unwrap();
    assert_eq!(removed.filepath, "a.snap");
    assert!(table.remove("s1").is_none());
    assert!(!table.contains("s1"));
    table.clear();
    assert!(!table.contains("s2"));
}

#[test]
fn an_identifier_in_use_is_refused() {
    let mut table = SessionTable::new();
    assert!(table.create("s1".to_string(), "a.snap".to_string()));
    table.append_record("s1", "GET:/a".to_string(), sample_record("1"));
    assert!(!table.create("s1".to_string(), "other.snap".to_string()));
    let kept = table.get("s1").unwrap();
    assert_eq!(kept.filepath, "a.snap");
    assert_eq!(kept.records.get("GET:/a").unwrap().len(), 1);
}

#[test]
fn session_cookie_is_http_only() {
    assert_eq!(set_cookie_value("abc"), "r-session=abc; HttpOnly");
    assert_eq!(
        set_cookie_value("123e4567-e89b-42d3-a456-426614174000"),
        "r-session=123e4567-e89b-42d3-a456-426614174000; HttpOnly"
    );
    assert_eq!(drop_cookie_value(), "r-session=; HttpOnly; Max-Age=0");
}

#[test]
fn session_is_read_from_the_cookie_header() {
    assert_eq!(get_session(None), None);
    assert_eq!(get_session(Some("")), None);
    assert_eq!(get_session(Some("r-session=abc")), Some("abc".to_string()));
    assert_eq!(get_session(Some("a=1; r-session=abc; b=2")), Some("abc".to_string()));
    assert_eq!(get_session(Some("a=1;; r-session = abc ")), Some("abc".to_string()));
    assert_eq!(get_session(Some("a=1; b=2")), None);
    assert_eq!(get_session(Some("r-session=a%20b")), Some("a b".to_string()));
    assert_eq!(get_session(Some("r-session=first; r-session=second")), Some("first".to_string()));
    assert_eq!(get_session(Some("R-Session=abc")), None);
}

#[test]
fn unreadable_cookies_are_passed_over() {
    assert_eq!(get_session(Some("garbage; r-session=abc")), Some("abc".to_string()));
    assert_eq!(get_session(Some("=x; r-session=abc")), Some("abc".to_string()));
    assert_eq!(get_session(Some("garbage")), None);
}

#[test]
fn find_session_takes_the_first_match() {
    let pairs = vec![
        None,
        Some(("a".to_string(), "1".to_string())),
        Some(("r-session".to_string(), "x".to_string())),
        Some(("r-session".to_string(), "y".to_string())),
    ];
    assert_eq!(find_session(&pairs), Some("x".to_string()));
    assert_eq!(find_session(&Vec::new()), None);
    assert_eq!(find_session(&vec![None, None]), None);
}

#[test]
fn a_new_session_id_is_a_version_four_uuid() {
    let id = new_session_id();
    assert_eq!(id.len(), 36);
    for (i, c) in id.chars().enumerate() {
        if i == 8 || i == 13 || i == 18 || i == 23 {
            assert_eq!(c, '-');
        } else {
            assert!(c.is_ascii_digit() || ('a'..='f').contains(&c));
        }
    }
    assert_eq!(id.chars().nth(14), Some('4'));
    assert!(['8', '9', 'a', 'b'].contains(&id.chars().nth(19).unwrap()));
    let parsed = uuid::Uuid::parse_str(&id).unwrap();
    assert_eq!(parsed.get_variant(), uuid::Variant::RFC4122);
    assert_eq!(parsed.get_version_num(), 4);
    assert_ne!(new_session_id(), id);
}

#[test]
fn the_session_cookie_is_read_back() {
    let id = new_session_id();
    let set = set_cookie_value(&id);
    let pair = set.split(';').next().unwrap();
    assert_eq!(get_session(Some(pair)), Some(id));
}

#[test]
fn odd_cookie_headers_do_no_harm() {
    for header in ["=", ";", ";;;", "a=", "a=;", " ; ", "%ff=1", "r-session", "r-session%", "\u{e9}=\u{e9}"] {
        assert_eq!(get_session(Some(header)), None, "{}", header);
    }
    assert_eq!(get_session(Some("r-session=")), Some("".to_string()));
    assert_eq!(get_session(Some("r-session=%ff")), None);
    assert_eq!(get_session(Some("r-session=%ff; r-session=ok")), Some("ok".to_string()));
    assert_eq!(get_session(Some("r%2Dsession=enc")), Some("enc".to_string()));
    assert_eq!(get_session(Some("r-session=a=b")), Some("a=b".to_string()));
    assert_eq!(get_session(Some("x=1;r-session=\"q\"")), Some("\"q\"".to_string()));
}
