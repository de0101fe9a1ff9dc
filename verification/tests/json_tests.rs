//! The JSON codec: exact serialization, parsing, and the round trip.

use jira_cli::json::{to_json_text, JsonValue};
use jira_cli::json_parse::from_json_text;

fn s(text: &str) -> String {
    text.to_string()
}

#[test]
fn serialize_simple_object() {
    let v = JsonValue::Obj(vec![
        (s("a"), JsonValue::Str(s("b"))),
        (s("n"), JsonValue::Num(s("42"))),
        (s("t"), JsonValue::Bool(true)),
        (s("z"), JsonValue::Null),
    ]);
    assert_eq!(to_json_text(&v), "{\"a\":\"b\",\"n\":42,\"t\":true,\"z\":null}");
}

#[test]
fn serialize_array_and_nesting() {
    let v = JsonValue::Arr(vec![
        JsonValue::Str(s("x")),
        JsonValue::Arr(vec![JsonValue::Bool(false)]),
        JsonValue::Obj(vec![(s("k"), JsonValue::Num(s("-7")))]),
    ]);
    assert_eq!(to_json_text(&v), "[\"x\",[false],{\"k\":-7}]");
}

#[test]
fn serialize_escapes() {
    let v = JsonValue::Str(s("a\"b\\c\nd"));
    assert_eq!(to_json_text(&v), "\"a\\\"b\\\\c\\u000ad\"");
}

#[test]
fn parse_simple_object() {
    let v = from_json_text("{\"a\":\"b\",\"n\":42}").unwrap();
    assert_eq!(to_json_text(&v), "{\"a\":\"b\",\"n\":42}");
}

#[test]
fn parse_skips_whitespace() {
    let v = from_json_text(" {\n\t\"a\" :\r [ 1 , 2 ] } ").unwrap();
    assert_eq!(to_json_text(&v), "{\"a\":[1,2]}");
}

#[test]
fn parse_literals() {
    assert_eq!(to_json_text(&from_json_text("null").unwrap()), "null");
    assert_eq!(to_json_text(&from_json_text("true").unwrap()), "true");
    assert_eq!(to_json_text(&from_json_text("false").unwrap()), "false");
    assert_eq!(to_json_text(&from_json_text("-120").unwrap()), "-120");
    assert_eq!(to_json_text(&from_json_text("0").unwrap()), "0");
}

#[test]
fn parse_escape_sequences() {
    let v = from_json_text("\"a\\n\\t\\\\\\\"\\u0041\\u00e9\"").unwrap();
    match &v {
        JsonValue::Str(t) => assert_eq!(t, "a\n\t\\\"A\u{e9}"),
        _ => panic!("expected a string"),
    }
}

#[test]
fn parse_empty_containers() {
    assert_eq!(to_json_text(&from_json_text("{}").unwrap()), "{}");
    assert_eq!(to_json_text(&from_json_text("[ ]").unwrap()), "[]");
    assert_eq!(to_json_text(&from_json_text("{ }").unwrap()), "{}");
}

#[test]
fn round_trip_keeps_unicode() {
    let v = JsonValue::Obj(vec![(s("Epic Link \u{e9}\u{4e2d}"), JsonValue::Str(s("caf\u{e9}")))]);
    let text = to_json_text(&v);
    let back = from_json_text(&text).unwrap();
    assert_eq!(to_json_text(&back), text);
}

#[test]
fn parse_keeps_fraction_and_exponent_text() {
    assert_eq!(to_json_text(&from_json_text("1.5").unwrap()), "1.5");
    assert_eq!(to_json_text(&from_json_text("1e3").unwrap()), "1e3");
    assert_eq!(to_json_text(&from_json_text("-0.25E+2").unwrap()), "-0.25E+2");
    assert_eq!(to_json_text(&from_json_text("[1.0,2e-7]").unwrap()), "[1.0,2e-7]");
}

#[test]
fn parse_rejects_malformed_numbers() {
    assert!(from_json_text("1.").is_err());
    assert!(from_json_text("1e").is_err());
    assert!(from_json_text("1e+").is_err());
    assert!(from_json_text(".5").is_err());
    assert!(from_json_text("01.5").is_err());
}

#[test]
fn parse_surrogate_pair_escape() {
    let v = from_json_text("\"\\ud83d\\ude00\"").unwrap();
    match &v {
        JsonValue::Str(t) => assert_eq!(t, "\u{1F600}"),
        _ => panic!("expected a string"),
    }
}

#[test]
fn parse_rejects_lone_surrogate_escapes() {
    // a low surrogate alone, and a high surrogate without its partner
    assert!(from_json_text("\"\\udc00\"").is_err());
    assert!(from_json_text("\"\\ud800x\"").is_err());
    assert!(from_json_text("\"\\ud800\\u0041\"").is_err());
}

#[test]
fn parse_rejects_malformed_documents() {
    assert!(from_json_text("").is_err());
    assert!(from_json_text("{").is_err());
    assert!(from_json_text("{\"a\":}").is_err());
    assert!(from_json_text("[1,]").is_err());
    assert!(from_json_text("\"unterminated").is_err());
    assert!(from_json_text("{\"a\":1} trailing").is_err());
    assert!(from_json_text("\"bad\\q\"").is_err());
    assert!(from_json_text("\"surrogate\\ud800\"").is_err());
    assert!(from_json_text("01").is_err());
}

#[test]
fn round_trip_payload_shape() {
    let payload = JsonValue::Obj(vec![(
        s("fields"),
        JsonValue::Obj(vec![
            (s("summary"), JsonValue::Str(s("A \"quoted\" summary\n"))),
            (s("labels"), JsonValue::Arr(vec![JsonValue::Str(s("one")), JsonValue::Str(s("two"))])),
            (s("issuetype"), JsonValue::Obj(vec![(s("name"), JsonValue::Str(s("Story")))])),
            (s("customfield_10101"), JsonValue::Str(s("EPIC-9"))),
        ]),
    )]);
    let text = to_json_text(&payload);
    let back = from_json_text(&text).unwrap();
    assert_eq!(to_json_text(&back), text);
}

#[test]
fn output_is_valid_json_for_serde() {
    let payload = JsonValue::Obj(vec![(
        s("fields"),
        JsonValue::Obj(vec![
            (s("summary"), JsonValue::Str(s("line1\nline2\t\"x\"\\"))),
            (s("count"), JsonValue::Num(s("-42"))),
        ]),
    )]);
    let text = to_json_text(&payload);
    let parsed: serde_json::Value = serde_json::from_str(&text).unwrap();
    assert_eq!(parsed["fields"]["summary"], "line1\nline2\t\"x\"\\");
    assert_eq!(parsed["fields"]["count"], -42);
}

#[test]
fn parses_serde_compact_output() {
    let mut map = serde_json::Map::new();
    map.insert("Epic Link".to_string(), serde_json::Value::String("customfield_10101".to_string()));
    map.insert("Team".to_string(), serde_json::Value::String("customfield_10500".to_string()));
    let text = serde_json::to_string(&serde_json::Value::Object(map)).unwrap();
    let v = from_json_text(&text).unwrap();
    assert_eq!(to_json_text(&v), text);
}
