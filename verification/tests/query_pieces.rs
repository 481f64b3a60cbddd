use claw_ql::json::{to_json_string, JsonValue};
use claw_ql::query::{DynamicAliasedMembers, StoredMemberNames};
use claw_ql::sql::StatementBuilder;
use claw_ql::values::CollectionToSerialize;

fn cs(t: &str) -> Vec<char> {
    t.chars().collect()
}

#[test]
fn stored_member_names_are_listed() {
    let names = StoredMemberNames { cols: vec![cs("title"), cs("done")] };
    let mut b = StatementBuilder::new();
    names.expression(" (", ", ", &mut b);
    assert_eq!(b.sql, r#" ("title", "done""#);
    let none = StoredMemberNames { cols: vec![] };
    let mut b = StatementBuilder::new();
    none.expression("SELECT ", ", ", &mut b);
    assert_eq!(b.sql, "");
}

#[test]
fn aliased_members_carry_alias_number_and_column() {
    let members = DynamicAliasedMembers {
        table: cs("Category"),
        cols: vec![cs("id"), cs("title")],
        alias: cs("l"),
        num: Some(0),
    };
    let mut b = StatementBuilder::new();
    members.expression("", ", ", &mut b);
    assert_eq!(b.sql, r#""Category"."id" AS "l0id", "Category"."title" AS "l0title""#);
    let plain = DynamicAliasedMembers { table: cs("Todo"), cols: vec![cs("title")], alias: cs("b"), num: None };
    let mut b = StatementBuilder::new();
    plain.expression("SELECT ", ", ", &mut b);
    assert_eq!(b.sql, r#"SELECT "Todo"."title" AS "btitle""#);
    assert_eq!(plain.aliased(&cs("done")), cs("bdone"));
    let numbered = DynamicAliasedMembers { table: cs("T"), cols: vec![], alias: cs("l"), num: Some(12) };
    assert_eq!(numbered.aliased(&cs("x")), cs("l12x"));
}

#[test]
fn attributes_serialize_ordered_by_name() {
    let mut attrs = CollectionToSerialize::new();
    assert!(attrs.insert(cs("title"), JsonValue::Str(cs("a"))).is_none());
    assert!(attrs.insert(cs("done"), JsonValue::Bool(true)).is_none());
    assert!(attrs.insert(cs("description"), JsonValue::Null).is_none());
    assert_eq!(
        to_json_string(&attrs.serialize()),
        r#"{"description":null,"done":true,"title":"a"}"#
    );
    assert_eq!(to_json_string(&CollectionToSerialize::new().serialize()), "{}");
}

#[test]
fn attributes_hold_each_name_once() {
    let mut attrs = CollectionToSerialize::new();
    attrs.insert(cs("title"), JsonValue::Str(cs("a")));
    assert_eq!(attrs.insert(cs("title"), JsonValue::Str(cs("b"))), Some(JsonValue::Str(cs("a"))));
    assert_eq!(attrs.get(&cs("title")), Some(&JsonValue::Str(cs("b"))));
    assert_eq!(attrs.get(&cs("done")), None);
    assert_eq!(to_json_string(&attrs.serialize()), r#"{"title":"b"}"#);
}
