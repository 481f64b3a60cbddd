use claw_ql::client::{Begin, Client};
use claw_ql::json::{to_json_string, JsonValue};
use claw_ql::json_text::parse_json;
use claw_ql::session::Step;
use claw_ql::sql::{BindValue, ColumnType, Statement};
use claw_ql::values::{decode_json_scalar, JsonScalar};
use sqlx::sqlite::SqliteConnection;
use sqlx::{AssertSqlSafe, Connection, Row};

fn text(v: &[char]) -> String {
    v.iter().collect()
}

struct Db {
    rt: tokio::runtime::Runtime,
    conn: SqliteConnection,
    client: Client,
    log: Vec<String>,
}

impl Db {
    fn new() -> Db {
        let rt = tokio::runtime::Builder::new_current_thread().enable_all().build().unwrap();
        let mut conn = rt.block_on(SqliteConnection::connect("sqlite::memory:")).unwrap();
        rt.block_on(sqlx::raw_sql("PRAGMA foreign_keys = ON;").execute(&mut conn)).unwrap();
        Db { rt, conn, client: Client::new(), log: Vec::new() }
    }

    fn run(&mut self, st: &Statement) -> Vec<Vec<JsonValue>> {
        self.log.push(st.sql.clone());
        let mut q = sqlx::query(AssertSqlSafe(st.sql.clone()));
        for b in st.binds.iter() {
            q = match b {
                BindValue::Null => q.bind(None::<i64>),
                BindValue::Bool(b) => q.bind(*b),
                BindValue::Int(i) => q.bind(*i),
                BindValue::Real(t) => q.bind(text(t).parse::<f64>().unwrap()),
                BindValue::Text(t) => q.bind(text(t)),
            };
        }
        let rows = self.rt.block_on(q.fetch_all(&mut self.conn)).unwrap();
        rows.iter()
            .map(|row| {
                st.columns
                    .iter()
                    .map(|c| {
                        let name = text(&c.name);
                        let name = name.as_str();
                        match c.ty {
                            ColumnType::Text => match row.try_get::<Option<String>, _>(name).unwrap() {
                                Some(s) => JsonValue::Str(s.chars().collect()),
                                None => JsonValue::Null,
                            },
                            ColumnType::Boolean => match row.try_get::<Option<bool>, _>(name).unwrap() {
                                Some(b) => JsonValue::Bool(b),
                                None => JsonValue::Null,
                            },
                            ColumnType::Int => match row.try_get::<Option<i64>, _>(name).unwrap() {
                                Some(i) => JsonValue::Int(i),
                                None => JsonValue::Null,
                            },
                            ColumnType::Float => match row.try_get::<Option<f64>, _>(name).unwrap() {
                                Some(f) => match serde_json::Number::from_f64(f) {
                                    Some(n) => JsonValue::Number(n.to_string().chars().collect()),
                                    None => JsonValue::Null,
                                },
                                None => JsonValue::Null,
                            },
                            ColumnType::Array(_) => match row.try_get::<Option<String>, _>(name).unwrap() {
                                Some(s) => parse_json(&s).unwrap(),
                                None => JsonValue::Null,
                            },
                        }
                    })
                    .collect()
            })
            .collect()
    }

    fn exec(&mut self, request: &str) -> String {
        let answer = match self.client.exec_text(request) {
            Begin::Answer(a) => a,
            Begin::Migrate(sql, a) => {
                self.log.push(sql.clone());
                self.rt.block_on(sqlx::raw_sql(AssertSqlSafe(sql)).execute(&mut self.conn)).unwrap();
                a
            }
            Begin::Session(s) => {
                let mut results = Vec::new();
                loop {
                    match s.step(&results) {
                        Step::Run(stmts) => {
                            let batch = stmts.iter().map(|st| self.run(st)).collect();
                            results.push(batch);
                        }
                        Step::Done(j) => break j,
                        Step::Fail => panic!("rows of the wrong shape"),
                    }
                }
            }
        };
        to_json_string(&answer)
    }
}

const TODO: &str = r#"{"op": "add_collection", "body": {"name": "todo", "fields": [
    { "name": "title", "type_info": "String", "is_optional": false }
    { "name": "description", "type_info": "String", "is_optional": true }
    { "name": "done", "type_info": "Boolean", "is_optional": false }
]}}"#;

const CATEGORY: &str = r#"{"op": "add_collection", "body": {"name": "category", "fields": [
    { "name": "title", "type_info": "String", "is_optional": false }
]}}"#;

const TAG: &str = r#"{"op": "add_collection", "body": {"name": "tag", "fields": [
    { "name": "title", "type_info": "String", "is_optional": false }
]}}"#;

const TODO_TIMESTAMPED: &str = r#"{"op": "add_link", "body": {"ty": "timestamp", "collection": "todo"}}"#;

const TODO_TO_CATEGORY: &str =
    r#"{"op": "add_link", "body": {"ty": "optional_to_many", "from": "todo", "to": "category"}}"#;

const TODO_TO_TAG: &str = r#"{"op": "add_link", "body": {"ty": "many_to_many", "from": "todo", "to": "tag"}}"#;

const NULL_OUTPUT: &str = r#"{"output":null}"#;

fn todo_with_category() -> Db {
    let mut db = Db::new();
    assert_eq!(db.exec(TODO), NULL_OUTPUT);
    assert_eq!(db.exec(CATEGORY), NULL_OUTPUT);
    assert_eq!(db.exec(TODO_TO_CATEGORY), NULL_OUTPUT);
    db
}

fn clear_timestamps(db: &mut Db) {
    db.rt
        .block_on(
            sqlx::raw_sql(r#"UPDATE "Todo" SET "created_at" = 'demo created_at', "updated_at" = 'demo updated_at';"#)
                .execute(&mut db.conn),
        )
        .unwrap();
}

#[test]
fn exec_returns_invalid_input_for_non_json() {
    let mut db = Db::new();
    assert_eq!(db.exec("not json"), r#"{"error":"invalid_input"}"#);
}

#[test]
fn exec_returns_invalid_input_without_op_or_body() {
    let mut db = Db::new();
    assert_eq!(db.exec(r#"{"body": {}}"#), r#"{"error":"invalid_input"}"#);
    assert_eq!(db.exec(r#"{"op": "fetch_one"}"#), r#"{"error":"invalid_input"}"#);
    assert_eq!(db.exec(r#"[1, 2]"#), r#"{"error":"invalid_input"}"#);
}

#[test]
fn exec_returns_unsupported_operation() {
    let mut db = Db::new();
    assert_eq!(db.exec(r#"{"op": "drop_table", "body": {}}"#), r#"{"error":"unsupported_operation"}"#);
}

#[test]
fn exec_returns_invalid_body_for_malformed_add_collection() {
    let mut db = Db::new();
    let result = db.exec(r#"{"op": "add_collection", "body": ["todo", []]}"#);
    assert_eq!(result, r#"{"error":"invalid_body"}"#);
}

#[test]
fn add_collection_returns_null_output() {
    let mut db = Db::new();
    assert_eq!(db.exec(TODO), NULL_OUTPUT);
    assert_eq!(db.exec(CATEGORY), NULL_OUTPUT);
    assert_eq!(db.exec(TAG), NULL_OUTPUT);
    assert_eq!(
        db.log[0],
        r#"CREATE TABLE "Todo" ("id" INTEGER PRIMARY KEY AUTOINCREMENT, "title" TEXT NOT NULL, "description" TEXT, "done" BOOLEAN NOT NULL);"#
    );
}

#[test]
fn add_collection_rejects_duplicate() {
    let mut db = todo_with_category();
    let result = db.exec(
        r#"{"op": "add_collection", "body": {"name": "todo", "fields": [
            { "name": "title", "type_info": "String", "is_optional": false }]}}"#,
    );
    assert_eq!(result, r#"{"error":"CollectionAlreadyExists"}"#);
}

#[test]
fn add_collection_rejects_bad_names() {
    let mut db = Db::new();
    for name in ["", "Todo", "ct_todo", "meta_todo"] {
        let req = format!(
            r#"{{"op": "add_collection", "body": {{"name": "{}", "fields": []}}}}"#,
            name
        );
        assert_eq!(db.exec(&req), r#"{"error":"InvalidCollectionInput"}"#);
    }
    let req = r#"{"op": "add_collection", "body": {"name": "todo", "fields": [
        { "name": "id_ref", "type_info": "String", "is_optional": false }]}}"#;
    assert_eq!(db.exec(req), r#"{"error":"InvalidCollectionInput"}"#);
}

#[test]
fn add_link_rejects_duplicate() {
    let mut db = todo_with_category();
    assert_eq!(db.exec(TODO_TO_CATEGORY), r#"{"error":"LinkAlreadyExists"}"#);
}

#[test]
fn add_link_rejects_missing_collection() {
    let mut db = todo_with_category();
    let result =
        db.exec(r#"{"op": "add_link", "body": {"ty": "optional_to_many", "from": "todo", "to": "missing"}}"#);
    assert_eq!(result, r#"{"error":"CollectionNotFound"}"#);
}

#[test]
fn insert_one_category_returns_id_and_attributes() {
    let mut db = todo_with_category();
    let result =
        db.exec(r#"{"op": "insert_one", "body": {"base": "category", "data": { "title": "category_1" }, "links": []}}"#);
    assert_eq!(result, r#"{"output":{"id":1,"attributes":{"title":"category_1"},"links":[]}}"#);
}

#[test]
fn test_insert_one_sql() {
    let mut db = Db::new();
    db.exec(TODO);
    db.log.clear();
    db.exec(
        r#"{"op": "insert_one", "body": {"base": "todo",
            "data": {"title": "test_todo", "done": false, "description": "test_description"}, "links": []}}"#,
    );
    assert_eq!(
        db.log,
        vec![r#"INSERT INTO "Todo" ("title", "description", "done") VALUES ($1, $2, $3) RETURNING "id", "title", "description", "done";"#.to_string()]
    );
}

#[test]
fn insert_one_rejects_data_of_the_wrong_type() {
    let mut db = Db::new();
    db.exec(TODO);
    let result = db.exec(
        r#"{"op": "insert_one", "body": {"base": "todo", "data": {"title": 3, "done": false}, "links": []}}"#,
    );
    assert!(result.starts_with(r#"{"error":"#), "{}", result);
}

#[test]
fn update_one_updates_todo_by_id() {
    let mut db = Db::new();
    db.exec(TODO);
    db.exec(
        r#"{"op": "insert_one", "body": {"base": "todo",
            "data": {"title": "before_update", "done": false, "description": "desc"}, "links": []}}"#,
    );
    let result = db.exec(
        r#"{"op": "update_one", "body": {"base": "todo", "id": 1, "data": { "title": "after_update" }, "links": []}}"#,
    );
    assert_eq!(
        result,
        r#"{"output":{"id":1,"attributes":{"description":"desc","done":false,"title":"after_update"},"links":[]}}"#
    );
}

#[test]
fn fetch_one_returns_todo_with_optional_to_many_link() {
    let mut db = todo_with_category();
    db.exec(r#"{"op": "insert_one", "body": {"base": "category", "data": { "title": "work" }, "links": []}}"#);
    db.exec(
        r#"{"op": "insert_one", "body": {"base": "todo",
            "data": {"title": "todo_1", "done": true, "description": "desc"},
            "links": [{ "ty": "set_id", "to": "category", "id": 1 }]}}"#,
    );
    let result = db.exec(
        r#"{"op": "fetch_one", "body": {"base": "todo", "id": 1, "filters": [],
            "links": [{ "ty": "optional_to_many", "to": "category" }]}}"#,
    );
    assert_eq!(
        result,
        r#"{"output":{"id":1,"attributes":{"description":"desc","done":true,"title":"todo_1"},"links":[{"id":1,"attributes":{"title":"work"}}]}}"#
    );
}

#[test]
fn fetch_one_from_category_returns_many_todos() {
    let mut db = todo_with_category();
    db.exec(r#"{"op": "insert_one", "body": {"base": "category", "data": { "title": "work" }, "links": []}}"#);
    db.exec(
        r#"{"op": "insert_one", "body": {"base": "todo",
            "data": {"title": "todo_1", "done": true, "description": "desc"},
            "links": [{ "ty": "set_id", "to": "category", "id": 1 }]}}"#,
    );
    db.exec(
        r#"{"op": "insert_one", "body": {"base": "todo",
            "data": {"title": "todo_2", "done": false, "description": null},
            "links": [{ "ty": "set_id", "to": "category", "id": 1 }]}}"#,
    );
    let result = db.exec(
        r#"{"op": "fetch_one", "body": {"base": "category", "id": 1, "filters": [],
            "links": [{ "ty": "optional_to_many", "to": "todo" }]}}"#,
    );
    assert_eq!(
        result,
        r#"{"output":{"id":1,"attributes":{"title":"work"},"links":[{"many_output":[{"id":1,"attributes":{"description":"desc","done":true,"title":"todo_1"}},{"id":2,"attributes":{"description":null,"done":false,"title":"todo_2"}}]}]}}"#
    );
}

#[test]
fn fetch_many_returns_inserted_todo_with_timestamp_link() {
    let mut db = todo_with_category();
    db.exec(TODO_TIMESTAMPED);
    db.exec(
        r#"{"op": "insert_one", "body": {"base": "todo",
            "data": {"title": "todo_1", "done": true, "description": "description_1"}, "links": []}}"#,
    );
    clear_timestamps(&mut db);
    let result = db.exec(
        r#"{"op": "fetch_many", "body": {"base": "todo", "filters": [], "links": [{ "ty": "timestamp" }],
            "pagination": { "limit": 10, "first_item": null, "order_by": [] }}}"#,
    );
    assert_eq!(
        result,
        r#"{"output":{"items":[{"id":1,"attributes":{"description":"description_1","done":true,"title":"todo_1"},"links":[{"created_at":"demo created_at","updated_at":"demo updated_at"}]}],"next_item":null}}"#
    );
}

fn two_timestamped_todos() -> Db {
    let mut db = Db::new();
    db.exec(TODO);
    db.exec(TODO_TIMESTAMPED);
    db.exec(r#"{"op": "insert_one", "body": {"base": "todo", "data": {"title": "done_todo", "done": true}, "links": []}}"#);
    db.exec(r#"{"op": "insert_one", "body": {"base": "todo", "data": {"title": "open_todo", "done": false}, "links": []}}"#);
    clear_timestamps(&mut db);
    db
}

#[test]
fn fetch_many_col_eq_filter() {
    let mut db = two_timestamped_todos();
    let matching = db.exec(
        r#"{"op": "fetch_many", "body": {"base": "todo", "filters": [{ "ty": "col_eq", "col": "done", "eq": true }],
            "links": [{ "ty": "timestamp" }], "pagination": { "limit": 10, "first_item": null, "order_by": [] }}}"#,
    );
    assert_eq!(
        matching,
        r#"{"output":{"items":[{"id":1,"attributes":{"description":null,"done":true,"title":"done_todo"},"links":[{"created_at":"demo created_at","updated_at":"demo updated_at"}]}],"next_item":null}}"#
    );
    let not_done = db.exec(
        r#"{"op": "fetch_many", "body": {"base": "todo", "filters": [{ "ty": "col_eq", "col": "done", "eq": false }],
            "links": [{ "ty": "timestamp" }], "pagination": { "limit": 10, "first_item": null, "order_by": [] }}}"#,
    );
    assert_eq!(
        not_done,
        r#"{"output":{"items":[{"id":2,"attributes":{"description":null,"done":false,"title":"open_todo"},"links":[{"created_at":"demo created_at","updated_at":"demo updated_at"}]}],"next_item":null}}"#
    );
}

#[test]
fn fetch_many_rejects_unknown_filter_field() {
    let mut db = two_timestamped_todos();
    let result = db.exec(
        r#"{"op": "fetch_many", "body": {"base": "todo", "filters": [{ "ty": "col_eq", "col": "missing", "eq": "x" }],
            "links": [{ "ty": "timestamp" }], "pagination": { "limit": 10, "first_item": null, "order_by": [] }}}"#,
    );
    assert_eq!(result, r#"{"error":"InvalidFilter"}"#);
}

#[test]
fn fetch_many_rejects_filter_type_mismatch() {
    let mut db = two_timestamped_todos();
    let result = db.exec(
        r#"{"op": "fetch_many", "body": {"base": "todo", "filters": [{ "ty": "col_eq", "col": "done", "eq": "yes" }],
            "links": [], "pagination": { "limit": 10, "first_item": null, "order_by": [] }}}"#,
    );
    assert_eq!(result, r#"{"error":"InvalidFilter"}"#);
}

#[test]
fn fetch_many_pages_with_a_cursor() {
    let mut db = two_timestamped_todos();
    let first = db.exec(
        r#"{"op": "fetch_many", "body": {"base": "todo", "filters": [], "links": [],
            "pagination": { "limit": 1, "first_item": null, "order_by": [] }}}"#,
    );
    assert_eq!(
        first,
        r#"{"output":{"items":[{"id":1,"attributes":{"description":null,"done":true,"title":"done_todo"},"links":[]}],"next_item":{"id":2,"attributes":{}}}}"#
    );
    let second = db.exec(
        r#"{"op": "fetch_many", "body": {"base": "todo", "filters": [], "links": [],
            "pagination": { "limit": 1, "first_item": {"id": 2, "data": {}}, "order_by": [] }}}"#,
    );
    assert_eq!(
        second,
        r#"{"output":{"items":[{"id":2,"attributes":{"description":null,"done":false,"title":"open_todo"},"links":[]}],"next_item":null}}"#
    );
}

#[test]
fn delete_one_returns_the_deleted_row() {
    let mut db = Db::new();
    db.exec(TODO);
    db.exec(r#"{"op": "insert_one", "body": {"base": "todo", "data": {"title": "gone", "done": true}, "links": []}}"#);
    let result = db.exec(r#"{"op": "delete_one", "body": {"base": "todo", "id": 1, "links": []}}"#);
    assert_eq!(result, r#"{"output":{"id":1,"attributes":{"description":null,"done":true,"title":"gone"},"links":[]}}"#);
    let again = db.exec(r#"{"op": "fetch_one", "body": {"base": "todo", "id": 1, "filters": [], "links": []}}"#);
    assert_eq!(again, r#"{"error":"NotFound"}"#);
}

#[test]
fn many_to_many_links_are_fetched_and_removed() {
    let mut db = Db::new();
    db.exec(TODO);
    db.exec(TAG);
    assert_eq!(db.exec(TODO_TO_TAG), NULL_OUTPUT);
    db.exec(r#"{"op": "insert_one", "body": {"base": "tag", "data": {"title": "home"}, "links": []}}"#);
    db.exec(
        r#"{"op": "insert_one", "body": {"base": "todo", "data": {"title": "t", "done": false},
            "links": [{ "ty": "set_id", "to": "tag", "id": 1 }]}}"#,
    );
    let fetched = db.exec(
        r#"{"op": "fetch_one", "body": {"base": "todo", "id": 1, "filters": [],
            "links": [{ "ty": "many_to_many", "to": "tag" }]}}"#,
    );
    assert!(fetched.contains(r#""title":"home""#), "{}", fetched);
}

#[test]
fn test_todo_app() {
    let mut db = Db::new();
    db.exec(TODO);
    assert_eq!(
        db.log,
        vec![r#"CREATE TABLE "Todo" ("id" INTEGER PRIMARY KEY AUTOINCREMENT, "title" TEXT NOT NULL, "description" TEXT, "done" BOOLEAN NOT NULL);"#.to_string()]
    );
    db.log.clear();
    db.exec(CATEGORY);
    assert_eq!(
        db.log,
        vec![r#"CREATE TABLE "Category" ("id" INTEGER PRIMARY KEY AUTOINCREMENT, "title" TEXT NOT NULL);"#.to_string()]
    );
    db.log.clear();
    db.exec(TODO_TO_CATEGORY);
    assert_eq!(
        db.log,
        vec![r#"ALTER TABLE "Todo" ADD COLUMN "fk_category_def" INTEGER  REFERENCES "Category"("id") ON DELETE SET NULL;"#.to_string()]
    );
}

#[test]
fn all_crud_operations_with_sql() {
    let mut db = Db::new();
    db.exec(TODO);
    db.exec(CATEGORY);
    db.exec(TAG);
    assert_eq!(
        db.log[2],
        r#"CREATE TABLE "Tag" ("id" INTEGER PRIMARY KEY AUTOINCREMENT, "title" TEXT NOT NULL);"#
    );
    db.exec(TODO_TIMESTAMPED);
    db.log.clear();
    db.exec(TODO_TO_CATEGORY);
    assert_eq!(
        db.log,
        vec![r#"ALTER TABLE "Todo" ADD COLUMN "fk_category_def" INTEGER  REFERENCES "Category"("id") ON DELETE SET NULL;"#.to_string()]
    );
    db.log.clear();
    db.exec(TODO_TO_TAG);
    assert_eq!(
        db.log,
        vec![r#"CREATE TABLE "ct_todotag_def" ("todo_id" INTEGER NOT NULL  REFERENCES "Todo"("id") ON DELETE CASCADE, "tag_id" INTEGER NOT NULL  REFERENCES "Tag"("id") ON DELETE CASCADE, PRIMARY KEY ("todo_id", "tag_id"));"#.to_string()]
    );
    db.log.clear();
    assert_eq!(
        db.exec(r#"{"op": "insert_one", "body": {"base": "category", "data": { "title": "work" }, "links": []}}"#),
        r#"{"output":{"id":1,"attributes":{"title":"work"},"links":[]}}"#
    );
    assert_eq!(
        db.log,
        vec![r#"INSERT INTO "Category" ("title") VALUES ($1) RETURNING "id", "title";"#.to_string()]
    );
    db.log.clear();
    assert_eq!(
        db.exec(
            r#"{"op": "insert_one", "body": {"base": "todo", "data": {"title": "alpha", "done": true, "description": "a"},
                "links": [{ "ty": "set_id", "to": "category", "id": 1 }]}}"#
        ),
        r#"{"output":{"id":1,"attributes":{"description":"a","done":true,"title":"alpha"},"links":[{"id":1,"attributes":{"title":"work"}}]}}"#
    );
    assert_eq!(
        db.log,
        vec![
            r#"INSERT INTO "Todo" ("title", "description", "done", "fk_category_def") VALUES ($1, $2, $3, $4) RETURNING "id", "title", "description", "done", "fk_category_def";"#.to_string(),
            r#"SELECT "Category"."id" AS "iid", "Category"."title" AS "btitle" FROM "Category" WHERE "id" = $1;"#.to_string(),
        ]
    );
    clear_timestamps(&mut db);
    db.log.clear();
    assert_eq!(
        db.exec(
            r#"{"op": "fetch_one", "body": {"base": "todo", "id": 1,
                "filters": [{ "ty": "col_eq", "col": "done", "eq": true }],
                "links": [{ "ty": "optional_to_many", "to": "category" }, { "ty": "many_to_many", "to": "tag" }, { "ty": "timestamp" }]}}"#
        ),
        r#"{"output":{"id":1,"attributes":{"description":"a","done":true,"title":"alpha"},"links":[{"id":1,"attributes":{"title":"work"}},{"many_output":[]},{"created_at":"demo created_at","updated_at":"demo updated_at"}]}}"#
    );
    assert_eq!(
        db.log,
        vec![
            r#"SELECT "Todo"."id" AS "iid", "Todo"."title" AS "btitle", "Todo"."description" AS "bdescription", "Todo"."done" AS "bdone", "Category"."id" AS "l0id", "Category"."title" AS "l0title", "Todo"."id" AS "l1id", "Todo"."created_at" AS "l2created_at", "Todo"."updated_at" AS "l2updated_at" FROM "Todo" LEFT JOIN "Category" ON "Todo"."fk_category_def" = "Category"."id" WHERE "Todo"."id" = $1 AND "done" = $2;"#.to_string(),
            r#"SELECT "ct_todotag_def"."todo_id" AS "from_id", "Tag"."id", "Tag"."title" FROM "ct_todotag_def" INNER JOIN "Tag" ON "ct_todotag_def"."tag_id" = "Tag"."id" WHERE "ct_todotag_def"."todo_id" IN ($1);"#.to_string(),
        ]
    );
}

const TWO_TODOS: &str = r#"{"op": "insert_many", "body": {"base": "todo", "items": [
    {"data": {"title": "first", "done": false, "description": "d1"}, "links": []},
    {"data": {"title": "second", "done": true, "description": "d2"}, "links": []}
]}}"#;

#[test]
fn insert_many_inserts_batch_on_one_connection() {
    let mut db = Db::new();
    db.exec(TODO);
    db.log.clear();
    db.exec(TWO_TODOS);
    let insert = r#"INSERT INTO "Todo" ("title", "description", "done") VALUES ($1, $2, $3) RETURNING "id", "title", "description", "done";"#;
    assert_eq!(db.log, vec![insert.to_string(), insert.to_string()]);
}

#[test]
fn insert_many_returns_items_with_ids_and_attributes() {
    let mut db = Db::new();
    db.exec(TODO);
    assert_eq!(
        db.exec(TWO_TODOS),
        r#"{"output":{"items":[{"id":1,"attributes":{"description":"d1","done":false,"title":"first"},"links":[]},{"id":2,"attributes":{"description":"d2","done":true,"title":"second"},"links":[]}]}}"#
    );
}

#[test]
fn insert_many_empty_items_returns_invalid_data() {
    let mut db = Db::new();
    db.exec(TODO);
    assert_eq!(
        db.exec(r#"{"op": "insert_many", "body": {"base": "todo", "items": []}}"#),
        r#"{"error":"InvalidData"}"#
    );
}

#[test]
fn fetch_many_col_ne_contains_and_composite_filters() {
    let mut db = Db::new();
    db.exec(TODO);
    db.exec(TODO_TIMESTAMPED);
    db.exec(r#"{"op": "insert_one", "body": {"base": "todo", "data": { "title": "urgent_todo", "done": true }, "links": []}}"#);
    db.exec(r#"{"op": "insert_one", "body": {"base": "todo", "data": { "title": "open_todo", "done": false }, "links": []}}"#);
    clear_timestamps(&mut db);
    let page = |filters: &str| {
        format!(
            r#"{{"op": "fetch_many", "body": {{"base": "todo", "filters": [{}], "links": [{{ "ty": "timestamp" }}],
                "pagination": {{ "limit": 10, "first_item": null, "order_by": [] }}}}}}"#,
            filters
        )
    };
    let urgent = r#"{"id":1,"attributes":{"description":null,"done":true,"title":"urgent_todo"},"links":[{"created_at":"demo created_at","updated_at":"demo updated_at"}]}"#;
    let open = r#"{"id":2,"attributes":{"description":null,"done":false,"title":"open_todo"},"links":[{"created_at":"demo created_at","updated_at":"demo updated_at"}]}"#;
    assert_eq!(
        db.exec(&page(r#"{ "ty": "col_ne", "col": "done", "ne": true }"#)),
        format!(r#"{{"output":{{"items":[{}],"next_item":null}}}}"#, open)
    );
    assert_eq!(
        db.exec(&page(r#"{ "ty": "col_contains", "col": "title", "value": "urgent" }"#)),
        format!(r#"{{"output":{{"items":[{}],"next_item":null}}}}"#, urgent)
    );
    assert_eq!(
        db.exec(&page(
            r#"{ "ty": "or", "filters": [{ "ty": "col_eq", "col": "done", "eq": true }, { "ty": "col_contains", "col": "title", "value": "open" }] }"#
        )),
        format!(r#"{{"output":{{"items":[{},{}],"next_item":null}}}}"#, urgent, open)
    );
}

#[test]
fn add_collection_int_float_array_and_filter_by_int() {
    let mut db = Db::new();
    assert_eq!(
        db.exec(
            r#"{"op": "add_collection", "body": {"name": "item", "fields": [
                { "name": "label", "type_info": "String", "is_optional": false },
                { "name": "priority", "type_info": "Int", "is_optional": false },
                { "name": "score", "type_info": "Float64", "is_optional": true },
                { "name": "tags", "type_info": { "ty": "Array", "of": "String" }, "is_optional": true }]}}"#
        ),
        NULL_OUTPUT
    );
    db.exec(
        r#"{"op": "insert_one", "body": {"base": "item",
            "data": {"label": "low", "priority": 1, "score": 1.5, "tags": ["a", "b"]}, "links": []}}"#,
    );
    db.exec(
        r#"{"op": "insert_one", "body": {"base": "item",
            "data": {"label": "high", "priority": 10, "score": 9.9, "tags": ["z"]}, "links": []}}"#,
    );
    let result = db.exec(
        r#"{"op": "fetch_many", "body": {"base": "item", "filters": [{ "ty": "group", "filters": [
            { "ty": "col_gt", "col": "priority", "gt": 5 }, { "ty": "col_gte", "col": "score", "gte": 9.0 }] }],
            "links": [], "pagination": { "limit": 10, "first_item": null, "order_by": [] }}}"#,
    );
    assert_eq!(
        result,
        r#"{"output":{"items":[{"id":2,"attributes":{"label":"high","priority":10,"score":9.9,"tags":["z"]},"links":[]}],"next_item":null}}"#
    );
}

#[test]
fn insert_set_id_links_existing_category() {
    let mut db = todo_with_category();
    db.exec(r#"{"op": "insert_one", "body": {"base": "category", "data": { "title": "existing_category" }, "links": []}}"#);
    assert_eq!(
        db.exec(
            r#"{"op": "insert_one", "body": {"base": "todo",
                "data": {"title": "todo_with_category", "done": true, "description": "linked"},
                "links": [{ "ty": "set_id", "to": "category", "id": 1 }]}}"#
        ),
        r#"{"output":{"id":1,"attributes":{"description":"linked","done":true,"title":"todo_with_category"},"links":[{"id":1,"attributes":{"title":"existing_category"}}]}}"#
    );
}

#[test]
fn insert_set_new_creates_category_and_links() {
    let mut db = todo_with_category();
    assert_eq!(
        db.exec(
            r#"{"op": "insert_one", "body": {"base": "todo",
                "data": {"title": "todo_with_new_category", "done": false, "description": "set_new"},
                "links": [{ "ty": "set_new", "to": "category", "value": { "title": "new_category" } }]}}"#
        ),
        r#"{"output":{"id":1,"attributes":{"description":"set_new","done":false,"title":"todo_with_new_category"},"links":[{"id":1,"attributes":{"title":"new_category"}}]}}"#
    );
}

#[test]
fn set_id_sql() {
    let mut db = todo_with_category();
    db.log.clear();
    db.exec(r#"{"op": "insert_one", "body": {"base": "category", "data": { "title": "cat_for_set_id" }, "links": []}}"#);
    assert_eq!(db.log, vec![r#"INSERT INTO "Category" ("title") VALUES ($1) RETURNING "id", "title";"#.to_string()]);
    db.log.clear();
    db.exec(
        r#"{"op": "insert_one", "body": {"base": "todo", "data": {"title": "todo_set_id", "done": true},
            "links": [{ "ty": "set_id", "to": "category", "id": 1 }]}}"#,
    );
    assert_eq!(
        db.log,
        vec![
            r#"INSERT INTO "Todo" ("title", "description", "done", "fk_category_def") VALUES ($1, $2, $3, $4) RETURNING "id", "title", "description", "done", "fk_category_def";"#.to_string(),
            r#"SELECT "Category"."id" AS "iid", "Category"."title" AS "btitle" FROM "Category" WHERE "id" = $1;"#.to_string(),
        ]
    );
}

fn todo_to_update(db: &mut Db, description: &str) {
    let req = format!(
        r#"{{"op": "insert_one", "body": {{"base": "todo",
            "data": {{"title": "todo_to_update", "done": true, "description": "{}"}}, "links": []}}}}"#,
        description
    );
    db.exec(&req);
}

#[test]
fn update_set_id_links_existing_category() {
    let mut db = todo_with_category();
    db.exec(r#"{"op": "insert_one", "body": {"base": "category", "data": { "title": "existing_category" }, "links": []}}"#);
    db.exec(
        r#"{"op": "insert_one", "body": {"base": "todo",
            "data": {"title": "todo_to_update", "done": false, "description": "before"}, "links": []}}"#,
    );
    assert_eq!(
        db.exec(
            r#"{"op": "update_one", "body": {"base": "todo", "id": 1, "data": { "title": "linked_todo" },
                "links": [{ "ty": "set_id", "to": "category", "id": 1 }]}}"#
        ),
        r#"{"output":{"id":1,"attributes":{"description":"before","done":false,"title":"linked_todo"},"links":[{"id":1,"attributes":{"title":"existing_category"}}]}}"#
    );
}

#[test]
fn update_set_new_creates_category_and_links() {
    let mut db = todo_with_category();
    todo_to_update(&mut db, "set_new");
    assert_eq!(
        db.exec(
            r#"{"op": "update_one", "body": {"base": "todo", "id": 1, "data": { "description": "updated" },
                "links": [{ "ty": "set_new", "to": "category", "value": { "title": "new_category" } }]}}"#
        ),
        r#"{"output":{"id":1,"attributes":{"description":"updated","done":true,"title":"todo_to_update"},"links":[{"id":1,"attributes":{"title":"new_category"}}]}}"#
    );
}

#[test]
fn empty_data_with_set_new_links_category() {
    let mut db = todo_with_category();
    todo_to_update(&mut db, "set_new_only");
    assert_eq!(
        db.exec(
            r#"{"op": "update_one", "body": {"base": "todo", "id": 1, "data": {},
                "links": [{ "ty": "set_new", "to": "category", "value": { "title": "new_category" } }]}}"#
        ),
        r#"{"output":{"id":1,"attributes":{"description":"set_new_only","done":true,"title":"todo_to_update"},"links":[{"id":1,"attributes":{"title":"new_category"}}]}}"#
    );
}

#[test]
fn empty_data_without_set_contributing_links_returns_invalid_data() {
    let mut db = todo_with_category();
    db.exec(
        r#"{"op": "insert_one", "body": {"base": "todo",
            "data": {"title": "todo_only", "done": false, "description": null}, "links": []}}"#,
    );
    assert_eq!(
        db.exec(r#"{"op": "update_one", "body": {"base": "todo", "id": 1, "data": {}, "links": []}}"#),
        r#"{"error":"InvalidData"}"#
    );
}

#[test]
fn set_null_clears_category_link() {
    let mut db = todo_with_category();
    db.exec(r#"{"op": "insert_one", "body": {"base": "category", "data": { "title": "cat_to_clear" }, "links": []}}"#);
    db.exec(
        r#"{"op": "insert_one", "body": {"base": "todo",
            "data": {"title": "todo_linked", "done": false, "description": "before_null"},
            "links": [{ "ty": "set_id", "to": "category", "id": 1 }]}}"#,
    );
    assert_eq!(
        db.exec(
            r#"{"op": "update_one", "body": {"base": "todo", "id": 1, "data": {},
                "links": [{ "ty": "set_null", "to": "category" }]}}"#
        ),
        r#"{"output":{"id":1,"attributes":{"description":"before_null","done":false,"title":"todo_linked"},"links":[null]}}"#
    );
}

#[test]
fn update_link_sql() {
    let mut db = todo_with_category();
    db.exec(r#"{"op": "insert_one", "body": {"base": "category", "data": { "title": "cat_for_update_set_id" }, "links": []}}"#);
    db.exec(
        r#"{"op": "insert_one", "body": {"base": "todo",
            "data": {"title": "todo_before_update", "done": false, "description": "desc"}, "links": []}}"#,
    );
    db.log.clear();
    db.exec(
        r#"{"op": "update_one", "body": {"base": "todo", "id": 1, "data": { "title": "todo_after_update" },
            "links": [{ "ty": "set_id", "to": "category", "id": 1 }]}}"#,
    );
    assert_eq!(
        db.log,
        vec![
            r#"UPDATE "Todo" SET "title" = $1, "fk_category_def" = $2 WHERE "Todo"."id" = $3 RETURNING "id", "title", "description", "done", "fk_category_def";"#.to_string(),
            r#"SELECT "Category"."id" AS "iid", "Category"."title" AS "btitle" FROM "Category" WHERE "id" = $1;"#.to_string(),
        ]
    );
}

#[test]
fn deletes_todo_without_links() {
    let mut db = todo_with_category();
    db.exec(
        r#"{"op": "insert_one", "body": {"base": "todo",
            "data": {"title": "todo_to_delete", "done": false, "description": "gone"}, "links": []}}"#,
    );
    assert_eq!(
        db.exec(r#"{"op": "delete_one", "body": {"base": "todo", "id": 1, "links": []}}"#),
        r#"{"output":{"id":1,"attributes":{"description":"gone","done":false,"title":"todo_to_delete"},"links":[]}}"#
    );
}

#[test]
fn optional_to_many_returns_category_fk() {
    let mut db = todo_with_category();
    db.exec(r#"{"op": "insert_one", "body": {"base": "category", "data": { "title": "cat_for_delete" }, "links": []}}"#);
    db.exec(
        r#"{"op": "insert_one", "body": {"base": "todo",
            "data": {"title": "linked_todo", "done": true, "description": "with_cat"},
            "links": [{ "ty": "set_id", "to": "category", "id": 1 }]}}"#,
    );
    db.log.clear();
    assert_eq!(
        db.exec(
            r#"{"op": "delete_one", "body": {"base": "todo", "id": 1,
                "links": [{ "ty": "optional_to_many", "to": "category" }]}}"#
        ),
        r#"{"output":{"id":1,"attributes":{"description":"with_cat","done":true,"title":"linked_todo"},"links":[{"id":1,"attributes":{"title":"cat_for_delete"}}]}}"#
    );
    assert_eq!(
        db.log,
        vec![
            r#"SELECT "Todo"."id" AS "iid", "Todo"."title" AS "btitle", "Todo"."description" AS "bdescription", "Todo"."done" AS "bdone", "Category"."id" AS "lid", "Category"."title" AS "ltitle" FROM "Todo" LEFT JOIN "Category" ON "Todo"."fk_category_def" = "Category"."id" WHERE "Todo"."id" = $1;"#.to_string(),
            r#"DELETE FROM "Todo" WHERE "Todo"."id" = $1 RETURNING "id", "title", "description", "done", "fk_category_def";"#.to_string(),
        ]
    );
}

fn todo_with_tags() -> Db {
    let mut db = Db::new();
    db.exec(TODO);
    db.exec(TAG);
    db.exec(TODO_TO_TAG);
    db.exec(r#"{"op": "insert_one", "body": {"base": "tag", "data": { "title": "urgent" }, "links": []}}"#);
    db.exec(r#"{"op": "insert_one", "body": {"base": "tag", "data": { "title": "home" }, "links": []}}"#);
    db
}

#[test]
fn insert_set_id_links_existing_tag() {
    let mut db = todo_with_tags();
    assert_eq!(
        db.exec(
            r#"{"op": "insert_one", "body": {"base": "todo",
                "data": {"title": "todo_with_tag", "done": true, "description": "linked"},
                "links": [{ "ty": "set_id", "to": "tag", "id": 1 }]}}"#
        ),
        r#"{"output":{"id":1,"attributes":{"description":"linked","done":true,"title":"todo_with_tag"},"links":[{"id":1,"attributes":{"title":"urgent"}}]}}"#
    );
}

const TODO_WITH_TWO_TAGS: &str = r#"{"op": "insert_one", "body": {"base": "todo",
    "data": {"title": "todo_a", "done": true, "description": "a"},
    "links": [{ "ty": "set_id", "to": "tag", "id": 1 }, { "ty": "set_id", "to": "tag", "id": 2 }]}}"#;

#[test]
fn fetch_one_returns_linked_tags() {
    let mut db = todo_with_tags();
    db.exec(TODO_WITH_TWO_TAGS);
    assert_eq!(
        db.exec(
            r#"{"op": "fetch_one", "body": {"base": "todo", "id": 1, "filters": [],
                "links": [{ "ty": "many_to_many", "to": "tag" }]}}"#
        ),
        r#"{"output":{"id":1,"attributes":{"description":"a","done":true,"title":"todo_a"},"links":[{"many_output":[{"id":1,"attributes":{"title":"urgent"}},{"id":2,"attributes":{"title":"home"}}]}]}}"#
    );
}

#[test]
fn fetch_many_returns_linked_tags() {
    let mut db = todo_with_tags();
    db.exec(
        r#"{"op": "insert_one", "body": {"base": "todo", "data": {"title": "todo_a", "done": true, "description": "a"},
            "links": [{ "ty": "set_id", "to": "tag", "id": 1 }]}}"#,
    );
    assert_eq!(
        db.exec(
            r#"{"op": "fetch_many", "body": {"base": "todo", "filters": [], "links": [{ "ty": "many_to_many", "to": "tag" }],
                "pagination": { "limit": 10, "first_item": null, "order_by": [] }}}"#
        ),
        r#"{"output":{"items":[{"id":1,"attributes":{"description":"a","done":true,"title":"todo_a"},"links":[{"many_output":[{"id":1,"attributes":{"title":"urgent"}}]}]}],"next_item":null}}"#
    );
}

#[test]
fn update_set_id_adds_tag_link() {
    let mut db = todo_with_tags();
    db.exec(
        r#"{"op": "insert_one", "body": {"base": "todo",
            "data": {"title": "todo_to_update", "done": false, "description": "before"}, "links": []}}"#,
    );
    assert_eq!(
        db.exec(
            r#"{"op": "update_one", "body": {"base": "todo", "id": 1, "data": { "title": "linked_todo" },
                "links": [{ "ty": "set_id", "to": "tag", "id": 1 }]}}"#
        ),
        r#"{"output":{"id":1,"attributes":{"description":"before","done":false,"title":"linked_todo"},"links":[{"id":1,"attributes":{"title":"urgent"}}]}}"#
    );
}

#[test]
fn update_remove_id_removes_tag_link() {
    let mut db = todo_with_tags();
    db.exec(
        r#"{"op": "insert_one", "body": {"base": "todo",
            "data": {"title": "todo_linked", "done": false, "description": "with_tags"},
            "links": [{ "ty": "set_id", "to": "tag", "id": 1 }, { "ty": "set_id", "to": "tag", "id": 2 }]}}"#,
    );
    assert_eq!(
        db.exec(
            r#"{"op": "update_one", "body": {"base": "todo", "id": 1, "data": {},
                "links": [{ "ty": "remove_id", "to": "tag", "id": 1 }]}}"#
        ),
        r#"{"output":{"id":1,"attributes":{"description":"with_tags","done":false,"title":"todo_linked"},"links":[{"id":1,"attributes":{"title":"urgent"}}]}}"#
    );
}

#[test]
fn delete_returns_linked_tag_ids() {
    let mut db = todo_with_tags();
    db.exec(
        r#"{"op": "insert_one", "body": {"base": "todo",
            "data": {"title": "linked_todo", "done": true, "description": "with_tags"},
            "links": [{ "ty": "set_id", "to": "tag", "id": 1 }, { "ty": "set_id", "to": "tag", "id": 2 }]}}"#,
    );
    assert_eq!(
        db.exec(
            r#"{"op": "delete_one", "body": {"base": "todo", "id": 1, "links": [{ "ty": "many_to_many", "to": "tag" }]}}"#
        ),
        r#"{"output":{"id":1,"attributes":{"description":"with_tags","done":true,"title":"linked_todo"},"links":[{"many_output":[{"id":1,"attributes":{"title":"urgent"}},{"id":2,"attributes":{"title":"home"}}]}]}}"#
    );
}

#[test]
fn requests_may_leave_out_commas_between_items() {
    let mut db = Db::new();
    let todo = r#"
        {
            "op": "add_collection",
            "body": {
                "name": "todo",
                "fields": [
                    { "name": "title", "type_info": "String", "is_optional": false }
                    { "name": "description", "type_info": "String", "is_optional": true }
                    { "name": "done", "type_info": "Boolean", "is_optional": false }
                ]
            }
        }
        "#;
    assert_eq!(db.exec(todo), NULL_OUTPUT);
    db.exec(CATEGORY);
    db.exec(TAG);
    db.exec(TODO_TIMESTAMPED);
    db.exec(TODO_TO_CATEGORY);
    db.exec(TODO_TO_TAG);
    db.exec(r#"{"op": "insert_one", "body": {"base": "category", "data": { "title": "work" }, "links": []}}"#);
    db.exec(
        r#"{"op": "insert_one", "body": {"base": "todo", "data": {"title": "alpha", "done": true, "description": "a"},
            "links": [{ "ty": "set_id", "to": "category", "id": 1 }]}}"#,
    );
    clear_timestamps(&mut db);
    let result = db.exec(
        r#"
{
    "op": "fetch_one",
    "body": {
        "base": "todo",
        "id": 1,
        "filters": [
            { "ty": "col_eq", "col": "done", "eq": true }
        ],
        "links": [
            { "ty": "optional_to_many", "to": "category" }
            { "ty": "many_to_many", "to": "tag" }
            { "ty": "timestamp" }
        ]
    }
}
"#,
    );
    assert_eq!(
        result,
        r#"{"output":{"id":1,"attributes":{"description":"a","done":true,"title":"alpha"},"links":[{"id":1,"attributes":{"title":"work"}},{"many_output":[]},{"created_at":"demo created_at","updated_at":"demo updated_at"}]}}"#
    );
}

#[test]
fn insert_many_answers_each_item_as_insert_one() {
    let mut many = todo_with_category();
    many.exec(r#"{"op": "insert_one", "body": {"base": "category", "data": {"title": "home"}, "links": []}}"#);
    let both = many.exec(
        r#"{"op": "insert_many", "body": {"base": "todo", "items": [
            {"data": {"title": "a", "done": true}, "links": [{"ty": "set_id", "to": "category", "id": 1}]}
            {"data": {"title": "b", "done": false}, "links": []}
        ]}}"#,
    );
    let mut one = todo_with_category();
    one.exec(r#"{"op": "insert_one", "body": {"base": "category", "data": {"title": "home"}, "links": []}}"#);
    let first = one.exec(
        r#"{"op": "insert_one", "body": {"base": "todo", "data": {"title": "a", "done": true}, "links": [{"ty": "set_id", "to": "category", "id": 1}]}}"#,
    );
    let second =
        one.exec(r#"{"op": "insert_one", "body": {"base": "todo", "data": {"title": "b", "done": false}, "links": []}}"#);
    let inner = |s: &str| s.strip_prefix(r#"{"output":"#).unwrap().strip_suffix('}').unwrap().to_string();
    assert_eq!(both, format!(r#"{{"output":{{"items":[{},{}]}}}}"#, inner(&first), inner(&second)));
}

#[test]
fn scalars_read_back_and_integers_decode() {
    for v in [JsonValue::Int(i64::MIN), JsonValue::Int(42), JsonValue::Bool(true), JsonValue::Str("q\"é".chars().collect())] {
        let text = to_json_string(&v);
        assert_eq!(parse_json(&text), Some(v));
    }
    let n = parse_json(&to_json_string(&JsonValue::Int(-7))).unwrap();
    assert_eq!(decode_json_scalar::<i64>(&n), Ok(-7));
    assert_eq!(decode_json_scalar::<i64>(&JsonValue::Bool(true)), Err(()));
}

#[test]
fn stored_scalars_decode_back_as_themselves() {
    for n in [i64::MIN, -1, 0, 7, i64::MAX] {
        let text = to_json_string(&n.to_json());
        assert_eq!(decode_json_scalar::<i64>(&parse_json(&text).unwrap()), Ok(n));
    }
    for b in [true, false] {
        let text = to_json_string(&b.to_json());
        assert_eq!(decode_json_scalar::<bool>(&parse_json(&text).unwrap()), Ok(b));
    }
    for t in ["", "plain", "q\"uote\n", "é😀"] {
        let text = to_json_string(&t.to_string().to_json());
        assert_eq!(decode_json_scalar::<String>(&parse_json(&text).unwrap()), Ok(t.to_string()));
    }
    assert_eq!(decode_json_scalar::<bool>(&JsonValue::Int(1)), Err(()));
    assert_eq!(decode_json_scalar::<String>(&JsonValue::Bool(true)), Err(()));
}
