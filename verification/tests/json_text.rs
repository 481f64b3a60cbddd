use claw_ql::json::{to_json_string, JsonValue};
use claw_ql::json_text::parse_json;

fn cs(t: &str) -> Vec<char> {
    t.chars().collect()
}

fn round(text: &str) -> Option<String> {
    parse_json(text).map(|v| to_json_string(&v))
}

#[test]
fn scalars_are_read() {
    assert_eq!(parse_json("null"), Some(JsonValue::Null));
    assert_eq!(parse_json(" true "), Some(JsonValue::Bool(true)));
    assert_eq!(parse_json("false"), Some(JsonValue::Bool(false)));
    assert_eq!(parse_json("\"a\""), Some(JsonValue::Str(cs("a"))));
    assert_eq!(parse_json("nul"), None);
    assert_eq!(parse_json(""), None);
    assert_eq!(parse_json("   "), None);
}

#[test]
fn whole_numbers_within_i64_are_integers() {
    assert_eq!(parse_json("0"), Some(JsonValue::Int(0)));
    assert_eq!(parse_json("-12"), Some(JsonValue::Int(-12)));
    assert_eq!(parse_json("9223372036854775807"), Some(JsonValue::Int(i64::MAX)));
    assert_eq!(parse_json("-9223372036854775808"), Some(JsonValue::Int(i64::MIN)));
    assert_eq!(parse_json("9223372036854775808"), Some(JsonValue::Number(cs("9223372036854775808"))));
    assert_eq!(
        parse_json("123456789012345678901234567890"),
        Some(JsonValue::Number(cs("123456789012345678901234567890")))
    );
}

#[test]
fn other_numbers_keep_their_text() {
    assert_eq!(parse_json("1.50"), Some(JsonValue::Number(cs("1.50"))));
    assert_eq!(parse_json("-0.5e+3"), Some(JsonValue::Number(cs("-0.5e+3"))));
    assert_eq!(parse_json("2E10"), Some(JsonValue::Number(cs("2E10"))));
    assert_eq!(parse_json("1."), None);
    assert_eq!(parse_json("1e"), None);
    assert_eq!(parse_json("-"), None);
    assert_eq!(parse_json(".5"), None);
    assert_eq!(parse_json("01"), None);
}

#[test]
fn string_escapes_are_decoded() {
    assert_eq!(
        parse_json(r#""a\"b\\c\/d\b\f\n\r\t""#),
        Some(JsonValue::Str(cs("a\"b\\c/d\u{8}\u{c}\n\r\t")))
    );
    assert_eq!(parse_json(r#""\u00e9\u0041""#), Some(JsonValue::Str(cs("éA"))));
    assert_eq!(parse_json(r#""\ud83d\ude00""#), Some(JsonValue::Str(cs("😀"))));
    assert_eq!(parse_json(r#""\ud83d""#), None);
    assert_eq!(parse_json(r#""\ude00""#), None);
    assert_eq!(parse_json(r#""\x""#), None);
    assert_eq!(parse_json("\"a\nb\""), None);
    assert_eq!(parse_json("\"open"), None);
}

#[test]
fn arrays_and_objects_are_read_in_order() {
    assert_eq!(round("[1, [true, null], {}]"), Some("[1,[true,null],{}]".to_string()));
    assert_eq!(round(r#"{"b": 1, "a": {"c": "x"}}"#), Some(r#"{"b":1,"a":{"c":"x"}}"#.to_string()));
    assert_eq!(round("[]"), Some("[]".to_string()));
    assert_eq!(round("{ }"), Some("{}".to_string()));
}

#[test]
fn commas_between_items_may_be_left_out() {
    assert_eq!(round("[1 2 3]"), Some("[1,2,3]".to_string()));
    assert_eq!(round(r#"{"a": 1 "b": 2}"#), Some(r#"{"a":1,"b":2}"#.to_string()));
    assert_eq!(round("[{} {}]"), Some("[{},{}]".to_string()));
}

#[test]
fn malformed_text_is_refused() {
    assert_eq!(parse_json("[1,]"), None);
    assert_eq!(parse_json("[,1]"), None);
    assert_eq!(parse_json("[1"), None);
    assert_eq!(parse_json(r#"{"a" 1}"#), None);
    assert_eq!(parse_json(r#"{a: 1}"#), None);
    assert_eq!(parse_json("{} x"), None);
    assert_eq!(parse_json("not json"), None);
}

#[test]
fn written_text_reads_back_as_the_value() {
    let v = JsonValue::Object(vec![
        (cs("na\"me\n"), JsonValue::Str(cs("t\u{1}ab\té"))),
        (cs("n"), JsonValue::Array(vec![
            JsonValue::Int(i64::MIN),
            JsonValue::Number(cs("1.5e3")),
            JsonValue::Number(cs("99999999999999999999")),
            JsonValue::Null,
            JsonValue::Bool(false),
        ])),
        (cs("empty"), JsonValue::Object(vec![])),
    ]);
    let text = to_json_string(&v);
    assert_eq!(parse_json(&text), Some(v));
}
