//! How an operation talks to the database: it hands out statements to run,
//! takes back the rows they returned, and finally answers.
use vstd::prelude::*;
use crate::json::{Json, JsonValue};
use crate::query::columns_view;
use crate::sql::{BindValue, BindView, ColumnType, Statement};
use crate::filters::binds_view;

verus! {

/// The rows one statement returned, each a list of column values.
pub type Rows = Vec<Vec<JsonValue>>;

/// What an operation asks for next.
pub enum Step {
    /// Run these statements, in order, and hand back their rows.
    Run(Vec<Statement>),
    /// The operation is over; this is its response.
    Done(JsonValue),
    /// The rows handed back do not have the shape the statements promise.
    Fail,
}

/// A statement by its plain parts.
pub struct StatementView {
    pub sql: Seq<char>,
    pub binds: Seq<BindView>,
    pub columns: Seq<(Seq<char>, ColumnType, bool)>,
}

impl View for Statement {
    type V = StatementView;

    open spec fn view(&self) -> StatementView {
        StatementView {
            sql: self.sql@,
            binds: binds_view(self.binds@),
            columns: columns_view(self.columns@),
        }
    }
}

/// Statements by their plain parts.
pub open spec fn statements_view(v: Seq<Statement>) -> Seq<StatementView> {
    v.map_values(|s: Statement| s@)
}

/// A step by its plain parts.
pub enum StepView {
    Run(Seq<StatementView>),
    Done(Json),
    Fail,
}

impl View for Step {
    type V = StepView;

    open spec fn view(&self) -> StepView {
        match self {
            Step::Run(v) => StepView::Run(statements_view(v@)),
            Step::Done(j) => StepView::Done(j@),
            Step::Fail => StepView::Fail,
        }
    }
}

/// The rows of one statement by their plain parts.
pub open spec fn rows_view(r: Seq<Vec<JsonValue>>) -> Seq<Seq<Json>> {
    r.map_values(|row: Vec<JsonValue>| row@.map_values(|v: JsonValue| v@))
}

/// The rows of a batch of statements by their plain parts.
pub open spec fn batch_view(b: Seq<Rows>) -> Seq<Seq<Seq<Json>>> {
    b.map_values(|r: Rows| rows_view(r@))
}

/// The id in the first column of the first row of statement `k` of a
/// batch, if it is there and is an integer.
pub open spec fn returned_id(batch: Seq<Seq<Seq<Json>>>, k: int) -> Option<int> {
    if 0 <= k < batch.len() && batch[k].len() > 0 && batch[k][0].len() > 0 {
        match batch[k][0][0] {
            Json::Int(i) => Some(i),
            _ => None,
        }
    } else {
        None
    }
}

/// Reads the id that statement `k` of a batch returned in the first column
/// of its first row.
pub fn read_returned_id(batch: &Vec<Rows>, k: usize) -> (r: Option<i64>)
    ensures
        match returned_id(batch_view(batch@), k as int) {
            Some(i) => r == Some(i as i64) && i64::MIN <= i <= i64::MAX,
            None => r is None,
        },
{
    if k >= batch.len() {
        return None;
    }
    let rows = &batch[k];
    if rows.len() == 0 {
        return None;
    }
    let row = &rows[0];
    if row.len() == 0 {
        return None;
    }
    proof {
        assert(batch_view(batch@)[k as int] == rows_view(rows@));
        assert(rows_view(rows@)[0] == row@.map_values(|v: JsonValue| v@));
    }
    match &row[0] {
        JsonValue::Int(i) => Some(*i),
        _ => None,
    }
}

/// A JSON object with one member.
pub fn single_member(key: &str, value: JsonValue) -> (r: JsonValue)
    ensures
        r@ == Json::Object(seq![(key@, value@)]),
{
    let mut entries: Vec<(Vec<char>, JsonValue)> = Vec::new();
    entries.push((crate::text::chars_of(key), value));
    proof {
        crate::values::lemma_object_view(entries);
        assert(crate::values::entries_view(entries@) =~= seq![(key@, value@)]);
    }
    JsonValue::Object(entries)
}

/// The response of an operation that succeeded.
pub open spec fn output_response(v: Json) -> Json {
    Json::Object(seq![("output"@, v)])
}

/// The response of an operation that failed, naming the error.
pub open spec fn error_response(name: Seq<char>) -> Json {
    Json::Object(seq![("error"@, Json::Str(name))])
}

/// The response of an operation that succeeded with `v`.
pub fn output(v: JsonValue) -> (r: JsonValue)
    ensures
        r@ == output_response(v@),
{
    single_member("output", v)
}

/// The response of an operation that failed with the error named `name`.
pub fn error(name: &str) -> (r: JsonValue)
    ensures
        r@ == error_response(name@),
{
    single_member("error", JsonValue::Str(crate::text::chars_of(name)))
}

} // verus!
