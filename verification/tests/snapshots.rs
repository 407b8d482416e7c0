use http_replay_proxy::json::{
    find_literal_end, quote_checked, tokenize, write_token, write_tokens, Mark, Token,
};
use http_replay_proxy::records::{Record, RecordFile};
use http_replay_proxy::snapshot::{parse, parse_tokens, serialize, tokens_of_records};
use http_replay_proxy::strmap::StrMap;

fn record(status: &str, headers: &[(&str, &str)], body: &str) -> Record {
    Record {
        status: status.to_string(),
        headers: headers.iter().map(|(n, v)| (n.to_string(), v.to_string())).collect(),
        body: body.to_string(),
    }
}

fn sample() -> StrMap<Vec<Record>> {
    StrMap {
        entries: vec![
            (
                "GET:/todos/1".to_string(),
                vec![
                    record("200 OK", &[("content-type", "application/json"), ("x", "y")], "{\"id\": 1}"),
                    record("404 Not Found", &[], ""),
                ],
            ),
            ("GET:/todos/2".to_string(), vec![]),
            ("POST:/a?b=c".to_string(), vec![record("201", &[("k", "v")], "line\nbreak \"quoted\" \\ \u{1} \u{20ac}")]),
        ],
    }
}

fn text(s: &str) -> Token {
    Token::Text(s.to_string())
}

#[test]
fn an_empty_snapshot_is_an_empty_object() {
    let empty: StrMap<Vec<Record>> = StrMap::new();
    assert_eq!(serialize(&empty), Some("{}".to_string()));
    assert_eq!(parse("{}"), Some(RecordFile { records: StrMap::new() }));
    assert_eq!(parse(" { \n } "), Some(RecordFile { records: StrMap::new() }));
}

#[test]
fn a_snapshot_is_written_compactly() {
    let records = StrMap {
        entries: vec![("GET:/a".to_string(), vec![record("200 OK", &[("x", "y")], "hi")])],
    };
    assert_eq!(
        serialize(&records).unwrap(),
        "{\"GET:/a\":[{\"status\":\"200 OK\",\"headers\":{\"x\":\"y\"},\"body\":\"hi\"}]}"
    );
}

#[test]
fn a_snapshot_is_read_back_as_it_was_written() {
    let records = sample();
    let written = serialize(&records).unwrap();
    assert_eq!(parse(&written), Some(RecordFile { records }));
}

#[test]
fn tokens_are_read_back_as_they_were_written() {
    let records = sample();
    let tokens = tokens_of_records(&records);
    assert_eq!(parse_tokens(&tokens), Some(records));
    assert_eq!(tokenize(&write_tokens(&tokens).unwrap()), Some(tokens));
}

#[test]
fn what_is_written_is_json_that_serde_reads() {
    let written = serialize(&sample()).unwrap();
    let value: serde_json::Value = serde_json::from_str(&written).unwrap();
    let object = value.as_object().unwrap();
    assert_eq!(object.len(), 3);
    let first = object.get("GET:/todos/1").unwrap().as_array().unwrap();
    assert_eq!(first.len(), 2);
    assert_eq!(first[0].get("status").unwrap().as_str(), Some("200 OK"));
    assert_eq!(first[0].get("body").unwrap().as_str(), Some("{\"id\": 1}"));
    assert_eq!(
        first[0].get("headers").unwrap().get("content-type").unwrap().as_str(),
        Some("application/json")
    );
    assert_eq!(object.get("GET:/todos/2").unwrap().as_array().unwrap().len(), 0);
    let third = object.get("POST:/a?b=c").unwrap().as_array().unwrap();
    assert_eq!(
        third[0].get("body").unwrap().as_str(),
        Some("line\nbreak \"quoted\" \\ \u{1} \u{20ac}")
    );
}

#[test]
fn a_snapshot_with_white_space_is_read() {
    let pretty = "{\n  \"GET:/todos/1\": [\n    {\n      \"status\": \"200\",\n      \"headers\": { \"a\" : \"b\" ,\t\"c\":\"d\" },\r\n      \"body\": \"x\"\n    }\n  ]\n}\n";
    let file = parse(pretty).unwrap();
    assert_eq!(
        file.records.entries,
        vec![("GET:/todos/1".to_string(), vec![record("200", &[("a", "b"), ("c", "d")], "x")])]
    );
}

#[test]
fn the_members_of_a_record_are_read_in_any_order() {
    let expected = vec![("k".to_string(), vec![record("200", &[("a", "b")], "x")])];
    for text in [
        "{\"k\":[{\"status\":\"200\",\"headers\":{\"a\":\"b\"},\"body\":\"x\"}]}",
        "{\"k\":[{\"status\":\"200\",\"body\":\"x\",\"headers\":{\"a\":\"b\"}}]}",
        "{\"k\":[{\"headers\":{\"a\":\"b\"},\"status\":\"200\",\"body\":\"x\"}]}",
        "{\"k\":[{\"headers\":{\"a\":\"b\"},\"body\":\"x\",\"status\":\"200\"}]}",
        "{\"k\":[{\"body\":\"x\",\"status\":\"200\",\"headers\":{\"a\":\"b\"}}]}",
        "{\"k\":[{\"body\":\"x\",\"headers\":{\"a\":\"b\"},\"status\":\"200\"}]}",
    ] {
        assert_eq!(parse(text).unwrap().records.entries, expected, "{}", text);
    }
}

#[test]
fn escapes_in_strings_are_read() {
    let file = parse("{\"k\\u0041\":[{\"status\":\"200\",\"headers\":{},\"body\":\"a\\\"b\\\\c\\n\\ud83d\\ude00\"}]}").unwrap();
    assert_eq!(file.records.entries[0].0, "kA");
    assert_eq!(file.records.entries[0].1[0].body, "a\"b\\c\n\u{1f600}");
}

#[test]
fn a_repeated_fingerprint_counts_with_its_last_records() {
    let file = parse("{\"k\":[],\"k\":[{\"status\":\"200\",\"headers\":{},\"body\":\"2\"}]}").unwrap();
    assert_eq!(file.records.entries.len(), 2);
    assert_eq!(file.records.get("k").unwrap().len(), 1);
}

#[test]
fn what_is_no_snapshot_is_refused() {
    for bad in [
        "",
        "[]",
        "{",
        "}",
        "{}{}",
        "{} x",
        "null",
        "{\"k\":{}}",
        "{\"k\":[],}",
        "{,\"k\":[]}",
        "{\"k\":[1]}",
        "{\"k\":[{}]}",
        "{\"k\":[{\"status\":\"200\",\"headers\":{},\"body\":\"x\"},]}",
        "{\"k\":[{\"status\":\"200\",\"headers\":{},\"body\":\"x\"}]",
        "{\"k\":[{\"status\":200,\"headers\":{},\"body\":\"x\"}]}",
        "{\"k\":[{\"status\":\"200\",\"headers\":[],\"body\":\"x\"}]}",
        "{\"k\":[{\"status\":\"200\",\"headers\":{\"a\":1},\"body\":\"x\"}]}",
        "{\"k\":[{\"status\":\"200\",\"headers\":{\"a\":\"b\",},\"body\":\"x\"}]}",
        "{\"k\":[{\"status\":\"200\",\"headers\":{},\"body\":null}]}",
        "{\"k\":[{\"status\":\"200\",\"headers\":{}}]}",
        "{\"k\":[{\"status\":\"200\",\"body\":\"x\"}]}",
        "{\"k\":[{\"status\":\"200\",\"status\":\"200\",\"headers\":{},\"body\":\"x\"}]}",
        "{\"k\":[{\"status\":\"200\",\"headers\":{},\"headers\":{},\"body\":\"x\"}]}",
        "{\"k\":[{\"status\":\"200\",\"headers\":{},\"body\":\"x\",\"body\":\"x\"}]}",
        "{\"k\":[{\"status\":\"200\",\"headers\":{},\"body\":\"x\",}]}",
        "{\"k\":[{,\"status\":\"200\",\"headers\":{},\"body\":\"x\"}]}",
        "{\"k\":[{\"status\" \"200\",\"headers\":{},\"body\":\"x\"}]}",
        "{\"k\":[{\"Status\":\"200\",\"headers\":{},\"body\":\"x\"}]}",
        "{\"k\":[{\"status\":\"200\",\"headers\":{},\"body\":\"x\",\"more\":\"y\"}]}",
        "{\"k\":[{\"status\":\"200\",\"headers\":{},\"body\":\"unterminated}]}",
        "{\"k\":[{\"status\":\"200\",\"headers\":{},\"body\":\"bad \\q escape\"}]}",
        "{k:[]}",
        "{\"k\" []}",
    ] {
        assert_eq!(parse(bad), None, "{}", bad);
    }
}

#[test]
fn a_text_is_split_into_tokens() {
    assert_eq!(tokenize(""), Some(Vec::new()));
    assert_eq!(tokenize(" \n\t\r"), Some(Vec::new()));
    assert_eq!(
        tokenize("{ } [ ] : ,"),
        Some(vec![
            Token::Punct(Mark::Open),
            Token::Punct(Mark::Close),
            Token::Punct(Mark::OpenList),
            Token::Punct(Mark::CloseList),
            Token::Punct(Mark::Colon),
            Token::Punct(Mark::Comma),
        ])
    );
    assert_eq!(
        tokenize("\"a\":\"b\\\"c\""),
        Some(vec![text("a"), Token::Punct(Mark::Colon), text("b\"c")])
    );
    assert_eq!(tokenize("\"\""), Some(vec![text("")]));
    assert_eq!(tokenize("\"a\\\\\"}"), Some(vec![text("a\\"), Token::Punct(Mark::Close)]));
}

#[test]
fn what_is_no_token_is_refused() {
    assert_eq!(tokenize("x"), None);
    assert_eq!(tokenize("1"), None);
    assert_eq!(tokenize("true"), None);
    assert_eq!(tokenize("\"open"), None);
    assert_eq!(tokenize("\"open\\"), None);
    assert_eq!(tokenize("\"open\\\""), None);
    assert_eq!(tokenize("\"tab\tinside\""), None);
    assert_eq!(tokenize("{\u{a0}}"), None);
}

#[test]
fn tokens_are_written_without_space() {
    let tokens = vec![
        Token::Punct(Mark::Open),
        text("a\"b"),
        Token::Punct(Mark::Colon),
        Token::Punct(Mark::OpenList),
        text("\n"),
        Token::Punct(Mark::Comma),
        text("\u{e9}"),
        Token::Punct(Mark::CloseList),
        Token::Punct(Mark::Close),
    ];
    assert_eq!(write_tokens(&tokens).unwrap(), "{\"a\\\"b\":[\"\\n\",\"\u{e9}\"]}");
    let mut out = String::from("x");
    assert!(write_token(&mut out, &text("q\\")));
    assert!(write_token(&mut out, &Token::Punct(Mark::Comma)));
    assert_eq!(out, "x\"q\\\\\",");
}

#[test]
fn the_end_of_a_literal_is_its_first_free_quotation_mark() {
    let chars = |s: &str| s.chars().collect::<Vec<char>>();
    assert_eq!(find_literal_end(&chars("\"abc\" x"), 1), Some(4));
    assert_eq!(find_literal_end(&chars("\"a\\\"c\" x"), 1), Some(5));
    assert_eq!(find_literal_end(&chars("\"a\\\\\" x"), 1), Some(4));
    assert_eq!(find_literal_end(&chars("\"abc"), 1), None);
    assert_eq!(find_literal_end(&chars("\"abc\\"), 1), None);
    assert_eq!(find_literal_end(&chars(""), 0), None);
    assert_eq!(find_literal_end(&chars("\""), 0), Some(0));
}

#[test]
fn every_character_is_written_and_read_back() {
    let mut all = String::new();
    let mut code: u32 = 0;
    while code < 0x3000 {
        if let Some(c) = char::from_u32(code) {
            all.push(c);
        }
        code += 1;
    }
    all.push('\u{1f600}');
    all.push('\u{10ffff}');
    let records = StrMap {
        entries: vec![(all.clone(), vec![record(&all, &[(&all, &all)], &all)])],
    };
    assert_eq!(parse(&serialize(&records).unwrap()), Some(RecordFile { records }));
}

#[test]
fn a_text_is_quoted_as_a_json_string() {
    assert_eq!(quote_checked(""), Some("\"\"".to_string()));
    assert_eq!(quote_checked("plain"), Some("\"plain\"".to_string()));
    assert_eq!(quote_checked("a\"b"), Some("\"a\\\"b\"".to_string()));
    assert_eq!(quote_checked("back\\slash"), Some("\"back\\\\slash\"".to_string()));
    assert_eq!(quote_checked("\n\t\r"), Some("\"\\n\\t\\r\"".to_string()));
    assert_eq!(quote_checked("\u{1}"), Some("\"\\u0001\"".to_string()));
    assert_eq!(quote_checked("\u{e9}\u{1f600}"), Some("\"\u{e9}\u{1f600}\"".to_string()));
}
