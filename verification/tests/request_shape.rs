use claw_ql::client::{Begin, Client};
use claw_ql::json::to_json_string;
use claw_ql::json_text::parse_json;
use claw_ql::request::{decode_field_input, decode_filter_one, deserialize_supported_type_partial};
use claw_ql::schema::SupportedType;

fn reply(client: &mut Client, text: &str) -> String {
    match client.exec_text(text) {
        Begin::Answer(a) => to_json_string(&a),
        Begin::Migrate(_, a) => to_json_string(&a),
        Begin::Session(_) => "session".to_string(),
    }
}

#[test]
fn array_types_are_read_ty_then_of() {
    let t = parse_json(r#"{"ty": "Array", "of": "String"}"#).unwrap();
    assert!(matches!(deserialize_supported_type_partial(&t), Some(SupportedType::Array(b)) if matches!(*b, SupportedType::String)));
    let swapped = parse_json(r#"{"of": "String", "ty": "Array"}"#).unwrap();
    assert!(deserialize_supported_type_partial(&swapped).is_none());
    let extra = parse_json(r#"{"ty": "Array", "of": "String", "x": 1}"#).unwrap();
    assert!(deserialize_supported_type_partial(&extra).is_none());
    let name = parse_json(r#""Array""#).unwrap();
    assert!(deserialize_supported_type_partial(&name).is_none());
}

#[test]
fn fields_are_read_member_by_member() {
    let f = parse_json(r#"{"name": "title", "type_info": "String", "is_optional": false}"#).unwrap();
    assert!(decode_field_input(&f).is_some());
    let swapped = parse_json(r#"{"type_info": "String", "name": "title", "is_optional": false}"#).unwrap();
    assert!(decode_field_input(&swapped).is_none());
    let missing = parse_json(r#"{"name": "title", "type_info": "String"}"#).unwrap();
    assert!(decode_field_input(&missing).is_none());
}

#[test]
fn filters_take_ty_first_and_no_other_member() {
    let f = parse_json(r#"{"ty": "col_eq", "col": "title", "eq": "x"}"#).unwrap();
    assert!(decode_filter_one(&f).is_some());
    let swapped = parse_json(r#"{"col": "title", "ty": "col_eq", "eq": "x"}"#).unwrap();
    assert!(decode_filter_one(&swapped).is_none());
    let extra = parse_json(r#"{"ty": "col_is_null", "col": "title", "eq": "x"}"#).unwrap();
    assert!(decode_filter_one(&extra).is_none());
}

#[test]
fn requests_are_op_then_body() {
    let mut client = Client::new();
    assert_eq!(
        reply(&mut client, r#"{"body": {"name": "todo", "fields": []}, "op": "add_collection"}"#),
        r#"{"error":"invalid_input"}"#
    );
    assert_eq!(
        reply(&mut client, r#"{"op": "add_collection", "body": {"fields": [], "name": "todo"}}"#),
        r#"{"error":"invalid_body"}"#
    );
    assert_eq!(
        reply(&mut client, r#"{"op": "add_collection", "body": {"name": "todo", "fields": [
            {"name": "title", "type_info": "String", "is_optional": false}]}}"#),
        r#"{"output":null}"#
    );
}
