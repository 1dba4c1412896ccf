use potemkin::json::{parse_json, write_json, Json};
use potemkin::lsp::{frame, frame_body, payload, read_header, HeaderStep};
use potemkin::mock_lsp::read_mock_header;
use potemkin::mux::frame_value;
use potemkin::number::{decimal_text, unsigned_of};
use potemkin::text::{
    blank, contains_text, lines_text, list_holds, lower_text, space, split_text, trim_text,
};

#[test]
fn a_frame_gives_its_payload_back() {
    let message = frame("{\"a\":\"\u{e4}\r\n\r\n\"}");
    assert_eq!(message, "Content-Length: 14\r\n\r\n{\"a\":\"\u{e4}\r\n\r\n\"}");
    assert_eq!(payload(&message), Some("{\"a\":\"\u{e4}\r\n\r\n\"}"));
    assert_eq!(payload("Content-Length: 3\r\n"), None);
}

#[test]
fn header_blocks() {
    let step = |length: Option<usize>, line: &str| match read_header(length, line) {
        HeaderStep::More(n) => format!("more {n:?}"),
        HeaderStep::Body(n) => format!("body {n}"),
        HeaderStep::Missing => "missing".to_string(),
        HeaderStep::Invalid(v) => format!("invalid {v}"),
    };
    assert_eq!(step(None, "content-LENGTH:  +12 \r\n"), "more Some(12)");
    assert_eq!(step(Some(12), "Content-Type: x:y\r\n"), "more Some(12)");
    assert_eq!(step(Some(12), "no colon\n"), "more Some(12)");
    assert_eq!(step(Some(12), "\r\n"), "body 12");
    assert_eq!(step(None, "\n"), "missing");
    assert_eq!(step(Some(1), "Content-Length: 1x\r\n"), "invalid 1x");
    assert_eq!(step(None, "Content-Length:\r\n"), "invalid ");
}

#[test]
fn bodies_are_framed_again() {
    assert_eq!(frame_body(b"{}".to_vec()).as_deref(), Some("Content-Length: 2\r\n\r\n{}"));
    assert_eq!(frame_body(vec![0xff]), None);
}

#[test]
fn headers_of_the_mock_server() {
    assert_eq!(read_mock_header(None, "Content-Length: 7\r\n"), (Some(7), false));
    assert_eq!(read_mock_header(Some(7), "content-length: 8\r\n"), (Some(7), false));
    assert_eq!(read_mock_header(Some(7), "Content-Length: x\r\n"), (None, false));
    assert_eq!(read_mock_header(Some(7), " \r\n"), (Some(7), true));
}

#[test]
fn white_space_is_what_unicode_says() {
    for c in '\0'..=char::MAX {
        assert_eq!(space(c), c.is_whitespace(), "{c:?}");
    }
}

#[test]
fn trimming_splitting_and_case() {
    assert_eq!(trim_text("\u{3000} a b\u{85}\n"), "a b");
    assert_eq!(trim_text(" \t"), "");
    assert!(blank(" \u{2003}") && !blank(" x "));
    assert_eq!(split_text("a,,b,", ','), vec!["a", "", "b", ""]);
    assert_eq!(split_text("", ','), vec![""]);
    assert_eq!(lines_text("a\r\nb\n\nc\r"), vec!["a", "b", "", "c\r"]);
    assert!(lines_text("").is_empty());
    assert_eq!(lower_text("AZaz\u{c4}09[@"), "azaz\u{c4}09[@");
    assert!(contains_text("abcabd", "abd") && !contains_text("abab", "abc"));
    assert!(contains_text("", ""));
    let list = vec!["a".to_string()];
    assert!(list_holds(&list, "a") && !list_holds(&list, "A"));
}

#[test]
fn numbers_as_text() {
    assert_eq!(decimal_text(0), "0");
    assert_eq!(decimal_text(u64::MAX), "18446744073709551615");
    assert_eq!(unsigned_of("007", 255), Some(7));
    assert_eq!(unsigned_of("+255", 255), Some(255));
    assert_eq!(unsigned_of("256", 255), None);
    assert_eq!(unsigned_of("", 255), None);
    assert_eq!(unsigned_of("+", 255), None);
    assert_eq!(unsigned_of("-0", 255), None);
    assert_eq!(unsigned_of("18446744073709551616", u64::MAX), None);
}

#[test]
fn json_is_read_and_written() {
    let text = r#"{"a":[null,true,-3,18446744073709551615,1.5,"x\n\"\u0001"],"b":{}}"#;
    let v = parse_json(text).unwrap();
    assert_eq!(write_json(&v), text);
    assert!(v.same(&v.dup()));
    assert_eq!(v.get("a").map(|a| a.has("x")), Some(false));
    assert!(parse_json("{").is_none());
    let deep = |n: usize| format!("{}{}", "[".repeat(n), "]".repeat(n));
    assert!(parse_json(&deep(127)).is_some());
    assert!(parse_json(&deep(128)).is_none());
    // The last of two equal keys counts.
    let twice = parse_json(r#"{"k":1,"k":2}"#).unwrap();
    assert_eq!(twice.get("k").unwrap().as_i64(), Some(2));
    let pair = Json::Object(vec![
        ("k".to_string(), Json::integer(1)),
        ("k".to_string(), Json::integer(2)),
    ]);
    assert_eq!(write_json(&pair), r#"{"k":2}"#);
    assert!(pair.same(&twice) && pair.dup().same(&twice));
    assert_eq!(write_json(&pair.with("k", Json::Null).with("l", Json::Null)), r#"{"k":null,"l":null}"#);
    assert_eq!(write_json(&Json::Null.with("k", Json::Bool(true))), r#"{"k":true}"#);
}

#[test]
fn equal_json_values() {
    let same = |a: &str, b: &str| parse_json(a).unwrap().same(&parse_json(b).unwrap());
    assert!(same(r#"{"a":1,"b":[2]}"#, r#"{"b":[2],"a":1}"#));
    assert!(!same(r#"{"a":1}"#, r#"{"a":1,"b":2}"#));
    assert!(!same(r#"{"a":1,"b":2}"#, r#"{"a":1}"#));
    assert!(!same("1", "1.0") && same("1.0", "1.00") && !same("1.0", "1.5"));
    assert!(same("0.0", "-0.0") && !same("0", "0.0"));
    assert!(!same("[1]", "[1,1]") && !same("null", "false") && same("\"x\"", "\"x\""));
}

#[test]
fn numbers_in_json() {
    let int = |t: &str| parse_json(t).unwrap().as_i64();
    assert_eq!(int("-9223372036854775808"), Some(i64::MIN));
    assert_eq!(int("9223372036854775808"), None);
    assert_eq!(int("1.0"), None);
    assert_eq!(int("\"1\""), None);
    assert_eq!(write_json(&Json::integer(i64::MIN)), "-9223372036854775808");
    assert_eq!(write_json(&Json::unsigned(u64::MAX)), "18446744073709551615");
    assert_eq!(Json::unsigned(5).as_i64(), Some(5));
    assert_eq!(Json::unsigned(u64::MAX).as_i64(), None);
}

#[test]
fn a_framed_value_is_found_again() {
    let v = parse_json(r#"{"id":[1,{"k":"\r\n\r\n"}]}"#).unwrap();
    let message = frame_value(&v);
    assert!(parse_json(payload(&message).unwrap()).unwrap().same(&v));
}
