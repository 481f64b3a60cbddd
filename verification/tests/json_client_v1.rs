use claw_ql::json::JsonValue;
use claw_ql::json_client_channel as channel;
use claw_ql::json_client_v1::{
    check_new_collection, parse_supported_filter, plan_fetch_many, resolve_order_by, AddCollectionInput,
    ColumnEqual, DeclarationError, DynamicOrderBy, FetchManyInput, FirstItem, InvalidFilter, JsonClientSetting,
    OrderDirection, PageError, PageLink, PagniationOrderBy, Pagination, SupportedFilter, SupportedLinkFetchMany,
    TypeSpec, TypedField,
};
use claw_ql::registry::{AddLinkInput, Registry};
use claw_ql::schema::{AddCollectionInput as Declaration, DynamicFieldInput, SupportedType};
use claw_ql::sql::{BindValue, ColumnType, StatementBuilder};

fn field(name: &str) -> TypedField {
    TypedField { name: name.to_string(), type_info: TypeSpec::String, is_optional: false }
}

fn declaration(name: &str, fields: &[&str]) -> AddCollectionInput {
    AddCollectionInput { name: name.to_string(), fields: fields.iter().map(|f| field(f)).collect() }
}

fn registry() -> Registry {
    let mut reg = Registry::new();
    let todo = Declaration {
        name: "todo".to_string(),
        fields: vec![
            DynamicFieldInput { name: "title".to_string(), type_info: SupportedType::String, is_optional: false },
            DynamicFieldInput { name: "done".to_string(), type_info: SupportedType::Boolean, is_optional: false },
        ],
    };
    let category = Declaration {
        name: "category".to_string(),
        fields: vec![DynamicFieldInput {
            name: "title".to_string(),
            type_info: SupportedType::String,
            is_optional: false,
        }],
    };
    reg.add_collection(&todo).unwrap();
    reg.add_collection(&category).unwrap();
    reg.add_link(&AddLinkInput::OptionalToMany { from: "todo".to_string(), to: "category".to_string() }).unwrap();
    reg.add_link(&AddLinkInput::Timestamp { collection: "todo".to_string() }).unwrap();
    reg
}

fn page(base: &str) -> FetchManyInput {
    FetchManyInput {
        base: base.to_string(),
        filters: vec![],
        links: vec![],
        pagination: Pagination { limit: 10, first_item: None, order_by: vec![] },
    }
}

fn s(t: &str) -> JsonValue {
    JsonValue::Str(t.chars().collect())
}

#[test]
fn default_settings_check_unique_filters() {
    assert!(JsonClientSetting::default_setting().check_for_unique_filters_on_update);
    assert!(channel::JsonClientSetting::default_setting().check_for_unique_filters_on_update);
}

#[test]
fn type_specs_map_to_columns() {
    assert_eq!(TypeSpec::String.column_type(), ColumnType::Text);
    assert_eq!(TypeSpec::Boolean.column_type(), ColumnType::Boolean);
    assert_eq!(channel::TypeSpec::Boolean.column_type(), ColumnType::Boolean);
}

#[test]
fn declarations_are_checked_in_order() {
    assert_eq!(declaration("", &["id"]).check(), Err(DeclarationError::NameIsEmpty));
    assert_eq!(declaration("TodoItem", &[]).check(), Err(DeclarationError::NameNotSnakeCase));
    assert_eq!(declaration("ct_todo", &[]).check(), Err(DeclarationError::NameStartsWithCt));
    assert_eq!(declaration("meta_todo", &[]).check(), Err(DeclarationError::NameStartsWithMeta));
    assert_eq!(declaration("todo", &["title", "id_x", "fk_y"]).check(), Err(DeclarationError::FieldNameStartsWithId));
    assert_eq!(declaration("todo", &["title", "fk_y"]).check(), Err(DeclarationError::FieldNameStartsWithFk));
    assert_eq!(declaration("todo_item", &["title", "Done"]).check(), Ok(()));
    assert_eq!(DeclarationError::NameIsEmpty.message(), "Name is empty");
    assert_eq!(DeclarationError::NameNotSnakeCase.message(), "Name is not in snake case");
    assert_eq!(DeclarationError::FieldNameStartsWithFk.message(), "Field name starts with fk_");
    assert_eq!(DeclarationError::CollectionExists.message(), "collection exist");
}

#[test]
fn channel_declarations_follow_the_same_rules() {
    let d = channel::AddCollectionInput {
        name: "meta_x".to_string(),
        fields: vec![channel::TypedField {
            name: "a".to_string(),
            type_info: channel::TypeSpec::String,
            is_optional: true,
        }],
    };
    assert_eq!(d.check(), Err(DeclarationError::NameStartsWithMeta));
}

#[test]
fn new_collections_must_not_exist() {
    let reg = registry();
    assert_eq!(check_new_collection(&reg, &declaration("todo", &["title"])), Err(DeclarationError::CollectionExists));
    assert_eq!(check_new_collection(&reg, &declaration("tag", &["title"])), Ok(()));
    assert_eq!(check_new_collection(&reg, &declaration("ct_tag", &[])), Err(DeclarationError::NameStartsWithCt));
}

#[test]
fn filters_are_bound_or_refused() {
    let reg = registry();
    let base = reg.collection_at(reg.find_collection("todo").unwrap());
    let ok = parse_supported_filter(
        vec![SupportedFilter::ColEq(ColumnEqual { col: "done".to_string(), eq: JsonValue::Bool(true) })],
        base,
    )
    .unwrap();
    assert_eq!(ok.len(), 1);
    assert_eq!(ok[0].col, "done".chars().collect::<Vec<_>>());
    assert!(matches!(ok[0].eq, BindValue::Bool(true)));
    let missing = parse_supported_filter(
        vec![
            SupportedFilter::ColEq(ColumnEqual { col: "title".to_string(), eq: s("x") }),
            SupportedFilter::ColEq(ColumnEqual { col: "nope".to_string(), eq: s("x") }),
        ],
        base,
    );
    assert_eq!(missing.err(), Some(InvalidFilter::FieldNotFound("nope".to_string())));
    let mismatch = parse_supported_filter(
        vec![SupportedFilter::ColEq(ColumnEqual { col: "done".to_string(), eq: s("yes") })],
        base,
    );
    assert_eq!(mismatch.err(), Some(InvalidFilter::TypeMismatch("done".to_string())));
}

#[test]
fn orderings_are_written_as_sql() {
    let mut b = StatementBuilder::new();
    PagniationOrderBy { col: "title".to_string(), direction: OrderDirection::Asc }.expression(&mut b);
    assert_eq!(b.sql, r#""title" ASC"#);
    let mut b = StatementBuilder::new();
    DynamicOrderBy {
        table: "Todo".to_string(),
        col: "done".to_string(),
        column_type: ColumnType::Boolean,
        direction: OrderDirection::Desc,
    }
    .expression(&mut b);
    assert_eq!(b.sql, r#""Todo"."done" DESC"#);
}

#[test]
fn orderings_resolve_against_fields() {
    let reg = registry();
    let base = reg.collection_at(reg.find_collection("todo").unwrap());
    let o = resolve_order_by(base, &vec![PagniationOrderBy { col: "done".to_string(), direction: OrderDirection::Desc }])
        .unwrap();
    assert_eq!(o[0].table, "Todo");
    assert_eq!(o[0].column_type, ColumnType::Boolean);
    assert!(resolve_order_by(base, &vec![PagniationOrderBy { col: "x".to_string(), direction: OrderDirection::Asc }])
        .is_none());
}

#[test]
fn page_queries_are_planned_in_order() {
    let reg = registry();
    assert_eq!(plan_fetch_many(&reg, page("nothing")).err(), Some(PageError::CollectionNotFound));
    assert_eq!(PageError::CollectionNotFound.message(), Some("collection doesn't exist"));

    let mut q = page("todo");
    q.filters = vec![SupportedFilter::ColEq(ColumnEqual { col: "done".to_string(), eq: s("no") })];
    q.links = vec![SupportedLinkFetchMany::OptionalToMany { to: "missing".to_string() }];
    assert_eq!(
        plan_fetch_many(&reg, q).err(),
        Some(PageError::Filter(InvalidFilter::TypeMismatch("done".to_string())))
    );

    let mut q = page("todo");
    q.links = vec![SupportedLinkFetchMany::Timestamp, SupportedLinkFetchMany::OptionalToMany { to: "missing".to_string() }];
    assert_eq!(plan_fetch_many(&reg, q).err(), Some(PageError::RelatedCollectionNotFound));

    let mut q = page("category");
    q.links = vec![SupportedLinkFetchMany::Timestamp];
    assert_eq!(plan_fetch_many(&reg, q).err(), Some(PageError::NotTimestamped));
    assert_eq!(PageError::NotTimestamped.message(), Some("collection is not timestamped"));

    let mut q = page("todo");
    q.pagination.order_by = vec![PagniationOrderBy { col: "nope".to_string(), direction: OrderDirection::Asc }];
    assert_eq!(plan_fetch_many(&reg, q).err(), Some(PageError::ColumnNotFound));

    let mut q = page("todo");
    q.pagination.first_item = Some(FirstItem { id: 3, attributes: vec![("done".to_string(), s("x"))] });
    assert_eq!(plan_fetch_many(&reg, q).err(), Some(PageError::FailedToParse));
    assert_eq!(PageError::FailedToParse.message(), Some("faile to parse"));

    let mut q = page("todo");
    q.links = vec![SupportedLinkFetchMany::OptionalToMany { to: "category".to_string() }, SupportedLinkFetchMany::Timestamp];
    q.pagination.limit = 5;
    q.pagination.order_by = vec![PagniationOrderBy { col: "title".to_string(), direction: OrderDirection::Asc }];
    q.pagination.first_item = Some(FirstItem { id: 3, attributes: vec![("title".to_string(), s("b"))] });
    let plan = plan_fetch_many(&reg, q).unwrap();
    assert_eq!(plan.limit, 5);
    assert_eq!(plan.links.len(), 2);
    assert!(matches!(&plan.links[0], PageLink::OptionalToMany(c) if c.collection_name.pascal_case == "Category"));
    assert!(matches!(plan.links[1], PageLink::Timestamp));
    assert_eq!(plan.order_by[0].table, "Todo");
    let (id, binds) = plan.first_item.unwrap();
    assert_eq!(id, 3);
    assert_eq!(binds[0].table, "Todo");
    assert_eq!(binds[0].name, "title");
}

#[test]
fn links_must_be_declared() {
    let reg = registry();
    let mut q = page("todo");
    q.links = vec![SupportedLinkFetchMany::OptionalToMany { to: "todo".to_string() }];
    assert_eq!(plan_fetch_many(&reg, q).err(), Some(PageError::RelationNotFound));
    assert_eq!(PageError::RelationNotFound.message(), Some("relation doesn't exist between x, y"));
    assert_eq!(PageError::Filter(InvalidFilter::FieldNotFound("a".to_string())).message(), None);
}
