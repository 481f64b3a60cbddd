use claw_ql::json::JsonValue;
use claw_ql::json_text::parse_json;
use claw_ql::partial_serde::{AnyVisitor, ArcSubStrJCV1, PartialDeserializeV1};
use std::sync::Arc;

fn s(t: &str) -> JsonValue {
    JsonValue::Str(t.chars().collect())
}

fn obj(entries: Vec<(&str, JsonValue)>) -> JsonValue {
    JsonValue::Object(entries.into_iter().map(|(k, v)| (k.chars().collect(), v)).collect())
}

fn text(p: &PartialDeserializeV1) -> &str {
    p.0.as_str()
}

#[test]
fn test_partial_serde() {
    let input = "
{
    'base': 'todo',
    'data': {
        'title': 'new_todo',
        'done': false,
        'description': 'description',
        'extra': {
            'extra_title': 'extra_title'
        }
    }
}
"
    .replace("'", "\"");
    let input = parse_json(&input).unwrap();
    let (base, data) = match &input {
        JsonValue::Object(es) => (&es[0].1, &es[1].1),
        _ => unreachable!(),
    };
    assert_eq!(base, &s("todo"));
    let data = PartialDeserializeV1::deserialize(data).unwrap();
    assert_eq!(
        text(&data),
        "{\"title\": \"new_todo\", \"done\": false, \"description\": \"description\", \"extra\": {\"extra_title\":\"extra_title\"}}"
    );

    let input = "
[
    'first_value', 'second_value'
]
"
    .replace("'", "\"");
    let input = parse_json(&input).unwrap();
    let (first, second) = match &input {
        JsonValue::Array(items) => (&items[0], &items[1]),
        _ => unreachable!(),
    };
    assert_eq!(first, &s("first_value"));
    let second = PartialDeserializeV1::deserialize(second).unwrap();
    assert_eq!(text(&second), "\"second_value\"");
}

#[test]
fn arc_str() {
    let input: Arc<str> = Arc::from("hello world");

    let clone_of_first_alloc: Arc<str> = input.clone();
    let slice_of_first_alloc: ArcSubStrJCV1 = ArcSubStrJCV1::from_arc(&input, 0..5);

    assert_eq!(slice_of_first_alloc.as_str(), "hello");

    assert_eq!(Arc::strong_count(&input), 3);
    drop(clone_of_first_alloc);
}

#[test]
fn arc_str_cuts_at_char_boundaries() {
    let input: Arc<str> = Arc::from("héllo wörld");
    let sub = ArcSubStrJCV1::from_arc(&input, 7..13);
    assert_eq!(sub.as_str(), "wörld");
    let empty = ArcSubStrJCV1::from_arc(&input, 3..3);
    assert_eq!(empty.as_str(), "");
}

#[test]
fn visitor_keeps_strings_without_escaping() {
    let v = AnyVisitor.visit(&s("a\"b")).unwrap();
    assert_eq!(v, "\"a\"b\"");
    assert_eq!(AnyVisitor.visit(&JsonValue::Bool(true)).unwrap(), "true");
    assert_eq!(AnyVisitor.visit(&obj(vec![])).unwrap(), "{}");
}

#[test]
fn visitor_refuses_numbers_null_and_arrays() {
    assert!(AnyVisitor.visit(&JsonValue::Int(3)).is_none());
    assert!(AnyVisitor.visit(&JsonValue::Null).is_none());
    assert!(AnyVisitor.visit(&JsonValue::Array(vec![])).is_none());
    assert!(PartialDeserializeV1::deserialize(&JsonValue::Int(1)).is_none());
}

#[test]
fn visitor_writes_nested_values_compactly() {
    let v = obj(vec![
        ("n", JsonValue::Int(-12)),
        ("l", JsonValue::Array(vec![JsonValue::Null, JsonValue::Bool(false)])),
        ("q", s("x\"y")),
    ]);
    assert_eq!(
        AnyVisitor.visit(&v).unwrap(),
        "{\"n\": -12, \"l\": [null,false], \"q\": \"x\\\"y\"}"
    );
}
