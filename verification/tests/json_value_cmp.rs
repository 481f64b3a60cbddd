use claw_ql::json::JsonValue;
use claw_ql::json_value_cmp::Value;

fn cs(t: &str) -> Vec<char> {
    t.chars().collect()
}

fn record(id: i64, title: &str) -> JsonValue {
    JsonValue::Object(vec![
        (cs("id"), JsonValue::Int(id)),
        (cs("attributes"), JsonValue::Object(vec![(cs("title"), JsonValue::Str(cs(title)))])),
    ])
}

#[test]
fn no_comp_matches_anything() {
    assert!(Value::NoComp.eq(&JsonValue::Null));
    assert!(Value::NoComp.eq(&record(1, "a")));
}

#[test]
fn scalars_match_the_same_scalar() {
    assert!(Value::Null.eq(&JsonValue::Null));
    assert!(!Value::Null.eq(&JsonValue::Bool(false)));
    assert!(Value::Bool(true).eq(&JsonValue::Bool(true)));
    assert!(!Value::Bool(true).eq(&JsonValue::Bool(false)));
    assert!(Value::Int(7).eq(&JsonValue::Int(7)));
    assert!(!Value::Int(7).eq(&JsonValue::Number(cs("7.5"))));
    assert!(Value::Number(cs("1.5")).eq(&JsonValue::Number(cs("1.5"))));
    assert!(Value::String(cs("x")).eq(&JsonValue::Str(cs("x"))));
    assert!(!Value::String(cs("x")).eq(&JsonValue::Str(cs("y"))));
}

#[test]
fn objects_match_member_by_member_ignoring_order() {
    let pattern = Value::Object(vec![
        (cs("attributes"), Value::NoComp),
        (cs("id"), Value::Int(1)),
    ]);
    assert!(pattern.eq(&record(1, "anything")));
    assert!(!pattern.eq(&record(2, "anything")));
    let short = Value::Object(vec![(cs("id"), Value::Int(1))]);
    assert!(!short.eq(&record(1, "a")));
    let missing = Value::Object(vec![(cs("id"), Value::Int(1)), (cs("links"), Value::NoComp)]);
    assert!(!missing.eq(&record(1, "a")));
}

#[test]
fn arrays_match_item_by_item() {
    let pattern = Value::Array(vec![Value::NoComp, Value::Int(2)]);
    assert!(pattern.eq(&JsonValue::Array(vec![JsonValue::Null, JsonValue::Int(2)])));
    assert!(!pattern.eq(&JsonValue::Array(vec![JsonValue::Int(2), JsonValue::Null])));
    assert!(!pattern.eq(&JsonValue::Array(vec![JsonValue::Null])));
    assert!(!pattern.eq(&JsonValue::Null));
}

#[test]
fn a_value_matches_the_pattern_written_from_it() {
    let v = JsonValue::Array(vec![
        record(1, "a"),
        JsonValue::Null,
        JsonValue::Bool(true),
        JsonValue::Number(cs("2.5")),
        JsonValue::Object(vec![]),
    ]);
    let p = Value::from(clone_value(&v));
    assert!(p.eq(&v));
    assert!(!p.eq(&JsonValue::Array(vec![record(2, "a")])));
    assert!(!Value::from(record(1, "a")).eq(&record(1, "b")));
    assert!(Value::from_ref(&record(1, "a")).eq(&record(1, "a")));
}

#[test]
fn a_pattern_with_a_repeated_member_name_finds_the_first() {
    let v = JsonValue::Object(vec![(cs("a"), JsonValue::Int(1)), (cs("a"), JsonValue::Int(2))]);
    assert!(!Value::from_ref(&v).eq(&v));
}

fn clone_value(v: &JsonValue) -> JsonValue {
    claw_ql::json::clone_json(v)
}
