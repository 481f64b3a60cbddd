//! Inserting one row, with links to rows of other collections: to an
//! existing row by its id, or to a new row inserted first.
use vstd::prelude::*;
use crate::data::{insert_binds, insert_data_ok, insert_values};
use crate::filters::binds_view;
use crate::json::{Json, JsonValue};
use crate::query::columns_view;
use crate::registry::{Registry, RegistryView, collection_named, fk_column, has_collection};
use crate::schema::{CollectionView, DynamicCollection, FieldView};
use crate::session::{
    Rows, Step, StepView, StatementView, batch_view, output, output_response, read_returned_id,
    returned_id, statements_view,
};
use crate::sql::{BindValue, BindView, ColumnSpec, ColumnType, Statement};
use crate::statements::{
    copy_bind, insert_sql, insert_statement, junction_insert_sql, junction_insert_statement,
    record_json, record_output, select_by_id_sql, select_by_id_statement, collection_items,
    json_seq,
};
use crate::text::{chars_of, copy_chars};
use crate::values::names_view;

verus! {

/// A link of the inserted row, as a request states it.
pub enum SupportedInsertLink {
    /// Link to the existing row `id` of `to`.
    SetId { to: String, id: i64 },
    /// Insert `value` into `to` first, and link to it.
    SetNew { to: String, value: JsonValue },
}

/// A request to insert one row.
pub struct InsertOneInput {
    pub base: String,
    pub data: JsonValue,
    pub links: Vec<SupportedInsertLink>,
}

/// Why an insert was refused.
#[derive(Debug, PartialEq, Eq, Structural)]
pub enum InsertOneError {
    CollectionNotFound,
    InvalidData,
    InvalidLink,
    LinkNotSetUpForThisBase,
}

/// An insert link by its plain parts.
pub enum InsertLinkView {
    SetId(Seq<char>, int),
    SetNew(Seq<char>, Json),
}

impl View for SupportedInsertLink {
    type V = InsertLinkView;

    open spec fn view(&self) -> InsertLinkView {
        match self {
            SupportedInsertLink::SetId { to, id } => InsertLinkView::SetId(to@, *id as int),
            SupportedInsertLink::SetNew { to, value } => InsertLinkView::SetNew(to@, value@),
        }
    }
}

/// Insert links by their plain parts.
pub open spec fn insert_links_view(ls: Seq<SupportedInsertLink>) -> Seq<InsertLinkView> {
    ls.map_values(|l: SupportedInsertLink| l@)
}

/// Why a link of a row of `base` is refused, if it is: its collection is
/// unknown, or not linked from `base`; or the new row's data is invalid.
pub open spec fn insert_link_error(r: RegistryView, base: Seq<char>, l: InsertLinkView) -> Option<
    InsertOneError,
> {
    match l {
        InsertLinkView::SetId(to, _) => if !has_collection(r.collections, to) {
            Some(InsertOneError::InvalidLink)
        } else if r.many_to_many.contains((base, to)) || r.optional_to_many.contains((base, to)) {
            None
        } else {
            Some(InsertOneError::InvalidLink)
        },
        InsertLinkView::SetNew(to, v) => if !has_collection(r.collections, to) {
            Some(InsertOneError::InvalidLink)
        } else if !insert_data_ok(collection_named(r.collections, to).fields, v) {
            Some(InsertOneError::InvalidData)
        } else if !r.optional_to_many.contains((base, to)) {
            Some(InsertOneError::LinkNotSetUpForThisBase)
        } else {
            None
        },
    }
}

/// The error of the first refused link, if any.
pub open spec fn first_link_error(r: RegistryView, base: Seq<char>, ls: Seq<InsertLinkView>) -> Option<
    InsertOneError,
>
    decreases ls.len(),
{
    if ls.len() == 0 {
        None
    } else {
        match insert_link_error(r, base, ls[0]) {
            Some(e) => Some(e),
            None => first_link_error(r, base, ls.drop_first()),
        }
    }
}

/// Why an insert is refused, if it is: an unknown collection, then invalid
/// data, then the first refused link.
pub open spec fn insert_one_error(
    r: RegistryView,
    base: Seq<char>,
    data: Json,
    ls: Seq<InsertLinkView>,
) -> Option<InsertOneError> {
    if !has_collection(r.collections, base) {
        Some(InsertOneError::CollectionNotFound)
    } else if !insert_data_ok(collection_named(r.collections, base).fields, data) {
        Some(InsertOneError::InvalidData)
    } else {
        first_link_error(r, base, ls)
    }
}

/// What an accepted link does.
pub enum LinkPlanView {
    /// Set the reference column to an existing row.
    Forward(CollectionView, int),
    /// Pair with an existing row through the junction table.
    Many(CollectionView, int),
    /// Insert a row with these values first, and reference it.
    New(CollectionView, Seq<BindView>),
}

/// What an accepted link of a row of `base` does.
pub open spec fn plan_link(r: RegistryView, base: Seq<char>, l: InsertLinkView) -> LinkPlanView {
    match l {
        InsertLinkView::SetId(to, id) => if r.many_to_many.contains((base, to)) {
            LinkPlanView::Many(collection_named(r.collections, to), id)
        } else {
            LinkPlanView::Forward(collection_named(r.collections, to), id)
        },
        InsertLinkView::SetNew(to, v) => {
            let c = collection_named(r.collections, to);
            LinkPlanView::New(c, insert_binds(c.fields, v))
        },
    }
}

/// An accepted link, resolved.
pub enum InsertLinkPlan {
    Forward { to: DynamicCollection, id: i64 },
    Many { to: DynamicCollection, id: i64 },
    New { to: DynamicCollection, values: Vec<BindValue> },
}

impl View for InsertLinkPlan {
    type V = LinkPlanView;

    open spec fn view(&self) -> LinkPlanView {
        match self {
            InsertLinkPlan::Forward { to, id } => LinkPlanView::Forward(to@, *id as int),
            InsertLinkPlan::Many { to, id } => LinkPlanView::Many(to@, *id as int),
            InsertLinkPlan::New { to, values } => LinkPlanView::New(to@, binds_view(values@)),
        }
    }
}

/// An accepted insert: the collection, the value of each field, the links.
pub struct InsertPlan {
    pub base: DynamicCollection,
    pub values: Vec<BindValue>,
    pub links: Vec<InsertLinkPlan>,
}

/// Link plans by their plain parts.
pub open spec fn link_plans_view(v: Seq<InsertLinkPlan>) -> Seq<LinkPlanView> {
    v.map_values(|p: InsertLinkPlan| p@)
}

/// Whether a plan is what an accepted insert request resolves to.
pub open spec fn plan_matches(
    p: InsertPlan,
    r: RegistryView,
    base: Seq<char>,
    data: Json,
    ls: Seq<InsertLinkView>,
) -> bool {
    &&& p.base@ == collection_named(r.collections, base)
    &&& binds_view(p.values@) == insert_binds(p.base@.fields, data)
    &&& p.values@.len() == p.base@.fields.len()
    &&& link_plans_view(p.links@) == ls.map_values(|l: InsertLinkView| plan_link(r, base, l))
}

/// The error of the first refused link is that of the first refused link
/// after the accepted ones.
proof fn lemma_first_link_error_skip(r: RegistryView, base: Seq<char>, ls: Seq<InsertLinkView>, i: int)
    requires
        0 <= i <= ls.len(),
        forall|k: int| 0 <= k < i ==> insert_link_error(r, base, #[trigger] ls[k]) is None,
    ensures
        first_link_error(r, base, ls) == first_link_error(r, base, ls.skip(i)),
    decreases i,
{
    if i > 0 {
        assert(insert_link_error(r, base, ls[0]) is None);
        lemma_first_link_error_skip(r, base, ls.drop_first(), i - 1);
        assert(ls.drop_first().skip(i - 1) =~= ls.skip(i));
    } else {
        assert(ls.skip(0) =~= ls);
    }
}

/// Resolves the links of a row of `base`, refusing the first invalid one.
pub fn plan_insert_links(
    reg: &Registry,
    base: &String,
    links: &Vec<SupportedInsertLink>,
) -> (r: Result<Vec<InsertLinkPlan>, InsertOneError>)
    requires
        reg.wf(),
    ensures
        match first_link_error(reg@, base@, insert_links_view(links@)) {
            Some(e) => r == Err::<Vec<InsertLinkPlan>, InsertOneError>(e),
            None => r matches Ok(ps) && link_plans_view(ps@) == insert_links_view(links@).map_values(
                |l: InsertLinkView| plan_link(reg@, base@, l),
            ),
        },
{
    let ghost ls = insert_links_view(links@);
    let ghost want = ls.map_values(|l: InsertLinkView| plan_link(reg@, base@, l));
    let mut plans: Vec<InsertLinkPlan> = Vec::new();
    let mut i: usize = 0;
    while i < links.len()
        invariant
            reg.wf(),
            i <= links@.len(),
            ls == insert_links_view(links@),
            want == ls.map_values(|l: InsertLinkView| plan_link(reg@, base@, l)),
            forall|k: int| 0 <= k < i ==> insert_link_error(reg@, base@, #[trigger] ls[k]) is None,
            link_plans_view(plans@) == want.take(i as int),
        decreases links@.len() - i,
    {
        let ghost before = link_plans_view(plans@);
        let plan = match &links[i] {
            SupportedInsertLink::SetId { to, id } => {
                let ti = match reg.find_collection(to.as_str()) {
                    Some(ti) => ti,
                    None => {
                        proof {
                            lemma_first_link_error_skip(reg@, base@, ls, i as int);
                        }
                        return Err(InsertOneError::InvalidLink);
                    },
                };
                if reg.has_many_to_many(base, to) {
                    InsertLinkPlan::Many { to: reg.collection_at(ti).copy(), id: *id }
                } else if reg.has_optional_to_many(base, to) {
                    InsertLinkPlan::Forward { to: reg.collection_at(ti).copy(), id: *id }
                } else {
                    proof {
                        lemma_first_link_error_skip(reg@, base@, ls, i as int);
                    }
                    return Err(InsertOneError::InvalidLink);
                }
            },
            SupportedInsertLink::SetNew { to, value } => {
                let ti = match reg.find_collection(to.as_str()) {
                    Some(ti) => ti,
                    None => {
                        proof {
                            lemma_first_link_error_skip(reg@, base@, ls, i as int);
                        }
                        return Err(InsertOneError::InvalidLink);
                    },
                };
                let target = reg.collection_at(ti);
                let values = match insert_values(target, value) {
                    Ok(v) => v,
                    Err(_) => {
                        proof {
                            lemma_first_link_error_skip(reg@, base@, ls, i as int);
                        }
                        return Err(InsertOneError::InvalidData);
                    },
                };
                if !reg.has_optional_to_many(base, to) {
                    proof {
                        lemma_first_link_error_skip(reg@, base@, ls, i as int);
                    }
                    return Err(InsertOneError::LinkNotSetUpForThisBase);
                }
                InsertLinkPlan::New { to: target.copy(), values }
            },
        };
        plans.push(plan);
        proof {
            assert(link_plans_view(plans@) =~= before.push(want[i as int]));
            assert(want.take(i + 1) =~= want.take(i as int).push(want[i as int]));
        }
        i = i + 1;
    }
    proof {
        lemma_first_link_error_skip(reg@, base@, ls, i as int);
        assert(ls.skip(i as int).len() == 0);
        assert(want.take(i as int) =~= want);
    }
    Ok(plans)
}

/// Resolves a request to insert one row, refusing it as the first failing
/// check says.
pub fn plan_insert_one(reg: &Registry, input: &InsertOneInput) -> (r: Result<InsertPlan, InsertOneError>)
    requires
        reg.wf(),
    ensures
        match insert_one_error(reg@, input.base@, input.data@, insert_links_view(input.links@)) {
            Some(e) => r == Err::<InsertPlan, InsertOneError>(e),
            None => r matches Ok(p) && plan_matches(
                p,
                reg@,
                input.base@,
                input.data@,
                insert_links_view(input.links@),
            ),
        },
{
    let bi = match reg.find_collection(input.base.as_str()) {
        Some(bi) => bi,
        None => return Err(InsertOneError::CollectionNotFound),
    };
    let base = reg.collection_at(bi);
    let values = match insert_values(base, &input.data) {
        Ok(v) => v,
        Err(_) => return Err(InsertOneError::InvalidData),
    };
    let links = match plan_insert_links(reg, &input.base, &input.links) {
        Ok(l) => l,
        Err(e) => return Err(e),
    };
    let p = InsertPlan { base: base.copy(), values, links };
    proof {
        assert(binds_view(p.values@).len() == p.values@.len());
        assert(insert_binds(p.base@.fields, input.data@).len() == p.base@.fields.len());
    }
    Ok(p)
}

/// The columns an insert returns: the id, the fields, then the reference
/// columns it sets.
pub open spec fn returning_columns(c: CollectionView, fks: Seq<Seq<char>>) -> Seq<
    (Seq<char>, ColumnType, bool),
> {
    seq![("id"@, ColumnType::Int, false)] + c.fields.map_values(
        |f: FieldView| (f.name, f.ty, f.optional),
    ) + fks.map_values(|k: Seq<char>| (k, ColumnType::Int, true))
}

/// The names of a collection's fields.
pub open spec fn field_names(c: CollectionView) -> Seq<Seq<char>> {
    c.fields.map_values(|f: FieldView| f.name)
}

/// The statement inserting a row of `c` with values `binds` for its
/// fields and `fk_binds` for the reference columns `fks`.
pub open spec fn insert_view(
    c: CollectionView,
    binds: Seq<BindView>,
    fks: Seq<Seq<char>>,
    fk_binds: Seq<BindView>,
) -> StatementView {
    StatementView {
        sql: insert_sql(c.table, field_names(c) + fks),
        binds: binds + fk_binds,
        columns: returning_columns(c, fks),
    }
}

/// The statement reading the row of `c` with id `id`.
pub open spec fn select_by_id_view(c: CollectionView, id: int) -> StatementView {
    StatementView {
        sql: select_by_id_sql(c),
        binds: seq![BindView::Int(id)],
        columns: collection_items(c, "iid"@, "b"@, false).map_values(
            |it: crate::query::SelectItemView| crate::query::item_column(it),
        ),
    }
}

/// The first statements of an insert: one per new linked row, in order.
pub open spec fn new_inserts(ls: Seq<LinkPlanView>) -> Seq<StatementView>
    decreases ls.len(),
{
    if ls.len() == 0 {
        Seq::empty()
    } else {
        new_inserts(ls.drop_last()) + match ls.last() {
            LinkPlanView::New(c, binds) => seq![insert_view(c, binds, Seq::empty(), Seq::empty())],
            _ => Seq::empty(),
        }
    }
}

/// How many links insert a new row.
pub open spec fn new_count(ls: Seq<LinkPlanView>) -> nat
    decreases ls.len(),
{
    if ls.len() == 0 {
        0
    } else {
        new_count(ls.drop_last()) + if ls.last() is New {
            1nat
        } else {
            0nat
        }
    }
}

/// The reference columns an insert sets and their values, in link order:
/// the given id, or the id a new row came back with.
pub open spec fn fk_parts(ls: Seq<LinkPlanView>, first: Seq<Seq<Seq<Json>>>) -> Option<
    (Seq<Seq<char>>, Seq<BindView>),
>
    decreases ls.len(),
{
    if ls.len() == 0 {
        Some((Seq::empty(), Seq::empty()))
    } else {
        match fk_parts(ls.drop_last(), first) {
            None => None,
            Some(parts) => match ls.last() {
                LinkPlanView::Forward(c, id) => Some(
                    (parts.0.push(fk_column(c.name)), parts.1.push(BindView::Int(id))),
                ),
                LinkPlanView::Many(_, _) => Some(parts),
                LinkPlanView::New(c, _) => match returned_id(first, new_count(ls.drop_last()) as int) {
                    Some(id) => Some((parts.0.push(fk_column(c.name)), parts.1.push(BindView::Int(id)))),
                    None => None,
                },
            },
        }
    }
}

/// The statements after the row is inserted, in link order: the junction
/// row and the read of an existing linked row.
pub open spec fn followups(base: Seq<char>, base_id: int, ls: Seq<LinkPlanView>) -> Seq<StatementView>
    decreases ls.len(),
{
    if ls.len() == 0 {
        Seq::empty()
    } else {
        followups(base, base_id, ls.drop_last()) + match ls.last() {
            LinkPlanView::Forward(c, id) => seq![select_by_id_view(c, id)],
            LinkPlanView::Many(c, id) => seq![
                StatementView {
                    sql: junction_insert_sql(base, c.name),
                    binds: seq![BindView::Int(base_id), BindView::Int(id)],
                    columns: Seq::empty(),
                },
                select_by_id_view(c, id),
            ],
            LinkPlanView::New(_, _) => Seq::empty(),
        }
    }
}

/// How many statements follow the insert for these links.
pub open spec fn followup_count(ls: Seq<LinkPlanView>) -> nat
    decreases ls.len(),
{
    if ls.len() == 0 {
        0
    } else {
        followup_count(ls.drop_last()) + match ls.last() {
            LinkPlanView::Forward(_, _) => 1nat,
            LinkPlanView::Many(_, _) => 2nat,
            LinkPlanView::New(_, _) => 0nat,
        }
    }
}

/// The output of a row of `c` that statement `k` of a batch returned
/// first: `null` where it returned none, nothing where the row is short.
pub open spec fn first_row_record(c: CollectionView, batch: Seq<Seq<Seq<Json>>>, k: int) -> Option<Json> {
    if 0 <= k < batch.len() {
        if batch[k].len() == 0 {
            Some(Json::Null)
        } else if batch[k][0].len() >= 1 + c.fields.len() {
            Some(record_json(c.fields, batch[k][0][0], batch[k][0].subrange(1, 1 + c.fields.len() as int)))
        } else {
            None
        }
    } else {
        None
    }
}

/// The output of the last of these links: the row read back for it, or
/// the new row it inserted.
pub open spec fn last_link_output(
    ls: Seq<LinkPlanView>,
    first: Seq<Seq<Seq<Json>>>,
    after: Seq<Seq<Seq<Json>>>,
) -> Option<Json> {
    let before = ls.drop_last();
    match ls.last() {
        LinkPlanView::Forward(c, _) => first_row_record(c, after, followup_count(before) as int),
        LinkPlanView::Many(c, _) => first_row_record(c, after, followup_count(before) as int + 1),
        LinkPlanView::New(c, _) => first_row_record(c, first, new_count(before) as int),
    }
}

/// The outputs of the links, in order.
pub open spec fn link_outputs(
    ls: Seq<LinkPlanView>,
    first: Seq<Seq<Seq<Json>>>,
    after: Seq<Seq<Seq<Json>>>,
) -> Option<Seq<Json>>
    decreases ls.len(),
{
    if ls.len() == 0 {
        Some(Seq::empty())
    } else {
        match (link_outputs(ls.drop_last(), first, after), last_link_output(ls, first, after)) {
            (Some(outs), Some(o)) => Some(outs.push(o)),
            _ => None,
        }
    }
}

/// A row with its id, its attributes and the outputs of its links.
pub open spec fn linked_record_json(fields: Seq<FieldView>, row: Seq<Json>, links: Seq<Json>) -> Json {
    Json::Object(
        seq![
            ("id"@, row[0]),
            ("attributes"@, crate::statements::attributes_json(fields, row.subrange(1, 1 + fields.len() as int))),
            ("links"@, Json::Array(links)),
        ],
    )
}

/// The rows of all batches handed back so far, by their plain parts.
pub open spec fn results_view(v: Seq<Vec<Rows>>) -> Seq<Seq<Seq<Seq<Json>>>> {
    v.map_values(|b: Vec<Rows>| batch_view(b@))
}

/// The answer of an insert once all its statements ran: the inserted row
/// with the outputs of its links.
pub open spec fn insert_answer(
    base: CollectionView,
    ls: Seq<LinkPlanView>,
    first: Seq<Seq<Seq<Json>>>,
    main: Seq<Seq<Seq<Json>>>,
    after: Seq<Seq<Seq<Json>>>,
) -> Option<Json> {
    if main.len() > 0 && main[0].len() > 0 && main[0][0].len() >= 1 + base.fields.len() {
        match link_outputs(ls, first, after) {
            Some(outs) => Some(linked_record_json(base.fields, main[0][0], outs)),
            None => None,
        }
    } else {
        None
    }
}

/// What an insert asks for after the given batches ran: the new linked
/// rows, then the row itself, then the junction rows and reads, then the
/// answer.
pub open spec fn insert_step_spec(p: InsertPlan, results: Seq<Seq<Seq<Seq<Json>>>>) -> StepView {
    let ls = link_plans_view(p.links@);
    if results.len() == 0 {
        StepView::Run(new_inserts(ls))
    } else if results.len() == 1 {
        match fk_parts(ls, results[0]) {
            Some(parts) => StepView::Run(seq![insert_view(p.base@, binds_view(p.values@), parts.0, parts.1)]),
            None => StepView::Fail,
        }
    } else if results.len() == 2 {
        match returned_id(results[1], 0) {
            Some(id) => StepView::Run(followups(p.base@.name, id, ls)),
            None => StepView::Fail,
        }
    } else {
        match insert_answer(p.base@, ls, results[0], results[1], results[2]) {
            Some(j) => StepView::Done(crate::session::output_response(j)),
            None => StepView::Fail,
        }
    }
}

/// The columns an insert into `c` returns.
pub fn returning_specs(c: &DynamicCollection, fks: &Vec<Vec<char>>) -> (r: Vec<ColumnSpec>)
    ensures
        columns_view(r@) == returning_columns(c@, names_view(fks@)),
{
    let mut r: Vec<ColumnSpec> = Vec::new();
    r.push(ColumnSpec { name: chars_of("id"), ty: ColumnType::Int, optional: false });
    let ghost want = returning_columns(c@, names_view(fks@));
    let mut i: usize = 0;
    proof {
        assert(columns_view(r@) =~= want.take(1));
    }
    while i < c.fields.len()
        invariant
            i <= c.fields@.len(),
            want == returning_columns(c@, names_view(fks@)),
            want.len() == 1 + c.fields@.len() + fks@.len(),
            columns_view(r@) == want.take(1 + i),
        decreases c.fields@.len() - i,
    {
        let f = &c.fields[i];
        let ghost before = columns_view(r@);
        r.push(ColumnSpec { name: chars_of(f.name.snake_case.as_str()), ty: f.type_info, optional: f.is_optional });
        proof {
            assert(c@.fields[i as int] == f@);
            assert(columns_view(r@) =~= before.push(want[1 + i]));
            assert(want.take(1 + i + 1) =~= want.take(1 + i).push(want[1 + i]));
        }
        i = i + 1;
    }
    let mut k: usize = 0;
    while k < fks.len()
        invariant
            k <= fks@.len(),
            want == returning_columns(c@, names_view(fks@)),
            want.len() == 1 + c.fields@.len() + fks@.len(),
            columns_view(r@) == want.take(1 + c.fields@.len() + k),
        decreases fks@.len() - k,
    {
        let ghost before = columns_view(r@);
        r.push(ColumnSpec { name: copy_chars(&fks[k]), ty: ColumnType::Int, optional: true });
        proof {
            assert(columns_view(r@) =~= before.push(want[1 + c.fields@.len() + k]));
            assert(want.take(1 + c.fields@.len() + k + 1) =~= want.take(1 + c.fields@.len() + k).push(
                want[1 + c.fields@.len() + k],
            ));
        }
        k = k + 1;
    }
    proof {
        assert(want.take(want.len() as int) =~= want);
    }
    r
}

/// The statement inserting a row of `c` with the given values and
/// reference columns.
pub fn insert_row_statement(
    c: &DynamicCollection,
    values: &Vec<BindValue>,
    fks: &Vec<Vec<char>>,
    fk_values: &Vec<BindValue>,
) -> (r: Statement)
    requires
        values@.len() == c@.fields.len(),
        fks@.len() == fk_values@.len(),
    ensures
        r@ == insert_view(c@, binds_view(values@), names_view(fks@), binds_view(fk_values@)),
{
    let names = c.field_names();
    proof {
        assert(names_view(names@).len() == names@.len());
    }
    let mut cols: Vec<Vec<char>> = Vec::new();
    let mut all: Vec<BindValue> = Vec::new();
    let mut i: usize = 0;
    while i < names.len()
        invariant
            i <= names@.len(),
            names@.len() == values@.len(),
            names_view(cols@) == names_view(names@).take(i as int),
            binds_view(all@) == binds_view(values@).take(i as int),
        decreases names@.len() - i,
    {
        let ghost b1 = names_view(cols@);
        let ghost b2 = binds_view(all@);
        cols.push(copy_chars(&names[i]));
        all.push(copy_bind(&values[i]));
        proof {
            assert(names_view(cols@) =~= b1.push(names@[i as int]@));
            assert(binds_view(all@) =~= b2.push(values@[i as int]@));
            assert(names_view(names@).take(i + 1) =~= names_view(names@).take(i as int).push(names@[i as int]@));
            assert(binds_view(values@).take(i + 1) =~= binds_view(values@).take(i as int).push(values@[i as int]@));
        }
        i = i + 1;
    }
    let mut k: usize = 0;
    while k < fks.len()
        invariant
            k <= fks@.len(),
            fks@.len() == fk_values@.len(),
            names_view(cols@) == names_view(names@) + names_view(fks@).take(k as int),
            binds_view(all@) == binds_view(values@) + binds_view(fk_values@).take(k as int),
        decreases fks@.len() - k,
    {
        let ghost b1 = names_view(cols@);
        let ghost b2 = binds_view(all@);
        cols.push(copy_chars(&fks[k]));
        all.push(copy_bind(&fk_values[k]));
        proof {
            assert(names_view(cols@) =~= b1.push(fks@[k as int]@));
            assert(binds_view(all@) =~= b2.push(fk_values@[k as int]@));
            assert(names_view(fks@).take(k + 1) =~= names_view(fks@).take(k as int).push(fks@[k as int]@));
            assert(binds_view(fk_values@).take(k + 1) =~= binds_view(fk_values@).take(k as int).push(fk_values@[k as int]@));
        }
        k = k + 1;
    }
    proof {
        assert(names_view(names@).take(names@.len() as int) =~= names_view(names@));
        assert(binds_view(values@).take(values@.len() as int) =~= binds_view(values@));
        assert(names_view(fks@).take(fks@.len() as int) =~= names_view(fks@));
        assert(binds_view(fk_values@).take(fk_values@.len() as int) =~= binds_view(fk_values@));
    }
    let table = chars_of(c.collection_name.pascal_case.as_str());
    let columns = returning_specs(c, fks);
    insert_statement(&table, &cols, &all, columns)
}

/// Whether a plan's values match its fields: one per field, for the row
/// and for each new linked row.
pub open spec fn plan_wf(p: InsertPlan) -> bool {
    &&& p.values@.len() == p.base@.fields.len()
    &&& forall|i: int|
        0 <= i < p.links@.len() ==> match (#[trigger] link_plans_view(p.links@)[i]) {
            LinkPlanView::New(c, b) => b.len() == c.fields.len(),
            _ => true,
        }
}

/// A plan resolved from an accepted request has its values matching its
/// fields.
pub proof fn lemma_plan_matches_wf(
    p: InsertPlan,
    r: RegistryView,
    base: Seq<char>,
    data: Json,
    ls: Seq<InsertLinkView>,
)
    requires
        plan_matches(p, r, base, data, ls),
    ensures
        plan_wf(p),
{
    assert forall|i: int| 0 <= i < p.links@.len() implies match (#[trigger] link_plans_view(p.links@)[i]) {
        LinkPlanView::New(c, b) => b.len() == c.fields.len(),
        _ => true,
    } by {
        assert(link_plans_view(p.links@).len() == p.links@.len());
        assert(ls.map_values(|l: InsertLinkView| plan_link(r, base, l)).len() == ls.len());
        assert(link_plans_view(p.links@)[i] == plan_link(r, base, ls[i]));
    }
}

/// Unfolds the specs that walk the links from the end, one link at a time.
proof fn lemma_links_step(ls: Seq<LinkPlanView>, i: int)
    requires
        0 <= i < ls.len(),
    ensures
        ls.take(i + 1).drop_last() == ls.take(i),
        ls.take(i + 1).last() == ls[i],
{
    assert(ls.take(i + 1).drop_last() =~= ls.take(i));
}

/// The reference column that points to rows of `c`.
fn fk_column_of(c: &DynamicCollection) -> (r: Vec<char>)
    ensures
        r@ == fk_column(c@.name),
{
    let mut s = String::new();
    s.append("fk_");
    s.append(c.collection_name.snake_case.as_str());
    s.append("_def");
    proof {
        assert(s@ =~= fk_column(c@.name));
    }
    chars_of(s.as_str())
}

/// The inserts of the new linked rows.
pub fn insert_new_rows(p: &InsertPlan) -> (r: Vec<Statement>)
    requires
        plan_wf(*p),
    ensures
        statements_view(r@) == new_inserts(link_plans_view(p.links@)),
{
    let ghost ls = link_plans_view(p.links@);
    let mut r: Vec<Statement> = Vec::new();
    let mut i: usize = 0;
    while i < p.links.len()
        invariant
            plan_wf(*p),
            ls == link_plans_view(p.links@),
            i <= p.links@.len(),
            statements_view(r@) == new_inserts(ls.take(i as int)),
        decreases p.links@.len() - i,
    {
        proof {
            lemma_links_step(ls, i as int);
        }
        let ghost before = statements_view(r@);
        match &p.links[i] {
            InsertLinkPlan::New { to, values } => {
                proof {
                    assert(ls[i as int] == LinkPlanView::New(to@, binds_view(values@)));
                }
                let fks: Vec<Vec<char>> = Vec::new();
                let fkv: Vec<BindValue> = Vec::new();
                let st = insert_row_statement(to, values, &fks, &fkv);
                r.push(st);
                proof {
                    assert(names_view(fks@) =~= Seq::<Seq<char>>::empty());
                    assert(binds_view(fkv@) =~= Seq::<BindView>::empty());
                    assert(statements_view(r@) =~= before.push(st@));
                }
            },
            _ => {
                proof {
                    assert(new_inserts(ls.take(i + 1)) =~= new_inserts(ls.take(i as int)));
                }
            },
        }
        i = i + 1;
    }
    proof {
        assert(ls.take(p.links@.len() as int) =~= ls);
    }
    r
}

/// The insert of the row itself, its reference columns set from the given
/// ids and the ids the new linked rows came back with.
pub fn insert_main(p: &InsertPlan, first: &Vec<Rows>) -> (r: Option<Statement>)
    requires
        plan_wf(*p),
    ensures
        match fk_parts(link_plans_view(p.links@), batch_view(first@)) {
            Some(parts) => r matches Some(s) && s@ == insert_view(
                p.base@,
                binds_view(p.values@),
                parts.0,
                parts.1,
            ),
            None => r is None,
        },
{
    let ghost ls = link_plans_view(p.links@);
    let mut fks: Vec<Vec<char>> = Vec::new();
    let mut fkv: Vec<BindValue> = Vec::new();
    let mut new_k: usize = 0;
    let mut i: usize = 0;
    proof {
        assert(ls.take(0) =~= Seq::<LinkPlanView>::empty());
        assert(names_view(fks@) =~= Seq::<Seq<char>>::empty());
        assert(binds_view(fkv@) =~= Seq::<BindView>::empty());
    }
    while i < p.links.len()
        invariant
            plan_wf(*p),
            ls == link_plans_view(p.links@),
            i <= p.links@.len(),
            new_k == new_count(ls.take(i as int)),
            new_k <= i,
            fks@.len() == fkv@.len(),
            fk_parts(ls.take(i as int), batch_view(first@)) == Some((names_view(fks@), binds_view(fkv@))),
        decreases p.links@.len() - i,
    {
        proof {
            lemma_links_step(ls, i as int);
        }
        let ghost n0 = names_view(fks@);
        let ghost b0 = binds_view(fkv@);
        match &p.links[i] {
            InsertLinkPlan::Forward { to, id } => {
                fks.push(fk_column_of(to));
                fkv.push(BindValue::Int(*id));
                proof {
                    assert(names_view(fks@) =~= n0.push(fk_column(to@.name)));
                    assert(binds_view(fkv@) =~= b0.push(BindView::Int(*id as int)));
                }
            },
            InsertLinkPlan::Many { .. } => {},
            InsertLinkPlan::New { to, .. } => {
                let id = match read_returned_id(first, new_k) {
                    Some(id) => id,
                    None => {
                        proof {
                            assert(fk_parts(ls.take(i + 1), batch_view(first@)) is None);
                            lemma_fk_parts_prefix_none(ls, batch_view(first@), i + 1);
                        }
                        return None;
                    },
                };
                fks.push(fk_column_of(to));
                fkv.push(BindValue::Int(id));
                new_k = new_k + 1;
                proof {
                    assert(names_view(fks@) =~= n0.push(fk_column(to@.name)));
                    assert(binds_view(fkv@) =~= b0.push(BindView::Int(id as int)));
                }
            },
        }
        i = i + 1;
    }
    proof {
        assert(ls.take(p.links@.len() as int) =~= ls);
    }
    Some(insert_row_statement(&p.base, &p.values, &fks, &fkv))
}

/// Once the reference columns of some links cannot be set, neither can
/// those of more links.
proof fn lemma_fk_parts_prefix_none(ls: Seq<LinkPlanView>, first: Seq<Seq<Seq<Json>>>, i: int)
    requires
        0 <= i <= ls.len(),
        fk_parts(ls.take(i), first) is None,
    ensures
        fk_parts(ls, first) is None,
    decreases ls.len() - i,
{
    if i < ls.len() {
        lemma_links_step(ls, i);
        lemma_fk_parts_prefix_none(ls, first, i + 1);
    } else {
        assert(ls.take(i) =~= ls);
    }
}

/// The junction rows and reads that follow the insert of row `base_id`.
pub fn insert_followups(p: &InsertPlan, base_id: i64) -> (r: Vec<Statement>)
    ensures
        statements_view(r@) == followups(p.base@.name, base_id as int, link_plans_view(p.links@)),
{
    let ghost ls = link_plans_view(p.links@);
    let mut r: Vec<Statement> = Vec::new();
    let mut i: usize = 0;
    while i < p.links.len()
        invariant
            ls == link_plans_view(p.links@),
            i <= p.links@.len(),
            statements_view(r@) == followups(p.base@.name, base_id as int, ls.take(i as int)),
        decreases p.links@.len() - i,
    {
        proof {
            lemma_links_step(ls, i as int);
        }
        let ghost before = statements_view(r@);
        match &p.links[i] {
            InsertLinkPlan::Forward { to, id } => {
                let st = select_by_id_statement(to, *id);
                r.push(st);
                proof {
                    assert(statements_view(r@) =~= before.push(select_by_id_view(to@, *id as int)));
                }
            },
            InsertLinkPlan::Many { to, id } => {
                let j = junction_insert_statement(
                    p.base.collection_name.snake_case.as_str(),
                    to.collection_name.snake_case.as_str(),
                    base_id,
                    *id,
                );
                let ghost jv = j@;
                r.push(j);
                let st = select_by_id_statement(to, *id);
                r.push(st);
                proof {
                    assert(jv.columns =~= Seq::<(Seq<char>, ColumnType, bool)>::empty());
                    assert(statements_view(r@) =~= before + seq![jv, select_by_id_view(to@, *id as int)]);
                }
            },
            InsertLinkPlan::New { .. } => {
                proof {
                    assert(statements_view(r@) =~= before + Seq::<StatementView>::empty());
                }
            },
        }
        i = i + 1;
    }
    proof {
        assert(ls.take(p.links@.len() as int) =~= ls);
    }
    r
}

/// The output of the row of `c` that statement `k` of a batch returned
/// first.
pub fn first_row_output(c: &DynamicCollection, batch: &Vec<Rows>, k: usize) -> (r: Option<JsonValue>)
    ensures
        match first_row_record(c@, batch_view(batch@), k as int) {
            Some(j) => r matches Some(v) && v@ == j,
            None => r is None,
        },
{
    if k >= batch.len() {
        return None;
    }
    let rows = &batch[k];
    proof {
        assert(batch_view(batch@)[k as int] == crate::session::rows_view(rows@));
    }
    if rows.len() == 0 {
        return Some(JsonValue::Null);
    }
    let row = &rows[0];
    proof {
        assert(crate::session::rows_view(rows@)[0] == json_seq(row@));
    }
    if row.len() == 0 || row.len() - 1 < c.fields.len() {
        return None;
    }
    Some(record_output(c, row, 0))
}

/// The output of a row with its links.
pub fn linked_record_output(c: &DynamicCollection, row: &Vec<JsonValue>, links: Vec<JsonValue>) -> (r: JsonValue)
    requires
        1 + c@.fields.len() <= row@.len(),
    ensures
        r@ == linked_record_json(c@.fields, json_seq(row@), json_seq(links@)),
{
    let rec = record_output(c, row, 0);
    let ghost lv = json_seq(links@);
    proof {
        crate::values::lemma_array_view(links);
    }
    match rec {
        JsonValue::Object(mut es) => {
            proof {
                crate::values::lemma_object_view(es);
            }
            let ghost before = crate::values::entries_view(es@);
            es.push((chars_of("links"), JsonValue::Array(links)));
            proof {
                crate::values::lemma_object_view(es);
                assert(crate::values::entries_view(es@) =~= before.push(("links"@, Json::Array(lv))));
                assert(json_seq(row@)[0] == row@[0]@);
                assert(crate::values::entries_view(es@) =~= linked_record_json(
                    c@.fields,
                    json_seq(row@),
                    lv,
                )->Object_0);
            }
            JsonValue::Object(es)
        },
        _ => {
            proof {
                assert(false);
            }
            JsonValue::Null
        },
    }
}

/// Once some link has no output, the list of outputs has none.
proof fn lemma_link_outputs_prefix_none(
    ls: Seq<LinkPlanView>,
    first: Seq<Seq<Seq<Json>>>,
    after: Seq<Seq<Seq<Json>>>,
    i: int,
)
    requires
        0 <= i <= ls.len(),
        link_outputs(ls.take(i), first, after) is None,
    ensures
        link_outputs(ls, first, after) is None,
    decreases ls.len() - i,
{
    if i < ls.len() {
        lemma_links_step(ls, i);
        lemma_link_outputs_prefix_none(ls, first, after, i + 1);
    } else {
        assert(ls.take(i) =~= ls);
    }
}

/// The answer of an insert from the rows its statements returned.
pub fn insert_result(p: &InsertPlan, first: &Vec<Rows>, main: &Vec<Rows>, after: &Vec<Rows>) -> (r: Option<JsonValue>)
    ensures
        match insert_answer(
            p.base@,
            link_plans_view(p.links@),
            batch_view(first@),
            batch_view(main@),
            batch_view(after@),
        ) {
            Some(j) => r matches Some(v) && v@ == j,
            None => r is None,
        },
{
    let ghost ls = link_plans_view(p.links@);
    let ghost f = batch_view(first@);
    let ghost a = batch_view(after@);
    if main.len() == 0 || main[0].len() == 0 {
        proof {
            if main@.len() > 0 {
                assert(batch_view(main@)[0] == crate::session::rows_view(main@[0]@));
            }
        }
        return None;
    }
    let row = &main[0][0];
    proof {
        assert(batch_view(main@)[0] == crate::session::rows_view(main@[0]@));
        assert(crate::session::rows_view(main@[0]@)[0] == json_seq(row@));
    }
    if row.len() == 0 || row.len() - 1 < p.base.fields.len() {
        return None;
    }
    let mut outs: Vec<JsonValue> = Vec::new();
    let al = after.len();
    let fl = first.len();
    let mut new_k: usize = 0;
    let mut follow_k: usize = 0;
    let mut i: usize = 0;
    proof {
        assert(ls.take(0) =~= Seq::<LinkPlanView>::empty());
        assert(json_seq(outs@) =~= Seq::<Json>::empty());
    }
    while i < p.links.len()
        invariant
            ls == link_plans_view(p.links@),
            f == batch_view(first@),
            a == batch_view(after@),
            al == after@.len(),
            fl == first@.len(),
            f.len() == fl,
            a.len() == al,
            i <= p.links@.len(),
            new_k == new_count(ls.take(i as int)),
            follow_k == followup_count(ls.take(i as int)),
            link_outputs(ls.take(i as int), f, a) == Some(json_seq(outs@)),
        decreases p.links@.len() - i,
    {
        proof {
            lemma_links_step(ls, i as int);
        }
        let ghost before = json_seq(outs@);
        let o = match &p.links[i] {
            InsertLinkPlan::Forward { to, .. } => {
                let o = first_row_output(to, after, follow_k);
                if o.is_some() {
                    follow_k = follow_k + 1;
                }
                o
            },
            InsertLinkPlan::Many { to, .. } => {
                if follow_k >= after.len() {
                    None
                } else {
                    let o = first_row_output(to, after, follow_k + 1);
                    if o.is_some() {
                        follow_k = follow_k + 2;
                    }
                    o
                }
            },
            InsertLinkPlan::New { to, .. } => {
                let o = first_row_output(to, first, new_k);
                if o.is_some() {
                    new_k = new_k + 1;
                }
                o
            },
        };
        match o {
            Some(v) => {
                outs.push(v);
                proof {
                    assert(json_seq(outs@) =~= before.push(v@));
                }
            },
            None => {
                proof {
                    lemma_link_outputs_prefix_none(ls, f, a, i + 1);
                }
                return None;
            },
        }
        i = i + 1;
    }
    proof {
        assert(ls.take(p.links@.len() as int) =~= ls);
    }
    Some(linked_record_output(&p.base, row, outs))
}

/// What an insert asks for next, given the rows of the batches run so far.
pub fn insert_step(p: &InsertPlan, results: &Vec<Vec<Rows>>) -> (r: Step)
    requires
        plan_wf(*p),
    ensures
        r@ == insert_step_spec(*p, results_view(results@)),
{
    let n = results.len();
    if n == 0 {
        return Step::Run(insert_new_rows(p));
    }
    proof {
        assert(results_view(results@)[0] == batch_view(results@[0]@));
    }
    if n == 1 {
        return match insert_main(p, &results[0]) {
            Some(st) => {
                let ghost sv = st@;
                let mut v: Vec<Statement> = Vec::new();
                v.push(st);
                proof {
                    assert(statements_view(v@) =~= seq![sv]);
                }
                Step::Run(v)
            },
            None => Step::Fail,
        };
    }
    proof {
        assert(results_view(results@)[1] == batch_view(results@[1]@));
    }
    if n == 2 {
        return match read_returned_id(&results[1], 0) {
            Some(id) => Step::Run(insert_followups(p, id)),
            None => Step::Fail,
        };
    }
    proof {
        assert(results_view(results@)[2] == batch_view(results@[2]@));
    }
    match insert_result(p, &results[0], &results[1], &results[2]) {
        Some(j) => Step::Done(output(j)),
        None => Step::Fail,
    }
}

impl InsertOneError {
    /// The name of the error, as responses carry it.
    pub open spec fn spec_name(&self) -> Seq<char> {
        match self {
            InsertOneError::CollectionNotFound => "CollectionNotFound"@,
            InsertOneError::InvalidData => "InvalidData"@,
            InsertOneError::InvalidLink => "InvalidLink"@,
            InsertOneError::LinkNotSetUpForThisBase => "LinkNotSetUpForThisBase"@,
        }
    }

    /// The name of the error, as responses carry it.
    pub fn name(&self) -> (r: &'static str)
        ensures
            r@ == self.spec_name(),
    {
        match self {
            InsertOneError::CollectionNotFound => "CollectionNotFound",
            InsertOneError::InvalidData => "InvalidData",
            InsertOneError::InvalidLink => "InvalidLink",
            InsertOneError::LinkNotSetUpForThisBase => "LinkNotSetUpForThisBase",
        }
    }
}

/// One row of a request to insert several.
pub struct InsertManyItem {
    pub data: JsonValue,
    pub links: Vec<SupportedInsertLink>,
}

/// A request to insert several rows, one after the other.
pub struct InsertManyInput {
    pub base: String,
    pub items: Vec<InsertManyItem>,
}

/// Why inserting several rows stopped.
#[derive(Debug, PartialEq, Eq, Structural)]
pub enum InsertManyError {
    CollectionNotFound,
    InvalidData,
    InvalidLink,
    LinkNotSetUpForThisBase,
}

impl InsertManyError {
    /// The name of the error, as responses carry it.
    pub open spec fn spec_name(&self) -> Seq<char> {
        match self {
            InsertManyError::CollectionNotFound => "CollectionNotFound"@,
            InsertManyError::InvalidData => "InvalidData"@,
            InsertManyError::InvalidLink => "InvalidLink"@,
            InsertManyError::LinkNotSetUpForThisBase => "LinkNotSetUpForThisBase"@,
        }
    }

    /// The name of the error, as responses carry it.
    pub fn name(&self) -> (r: &'static str)
        ensures
            r@ == self.spec_name(),
    {
        match self {
            InsertManyError::CollectionNotFound => "CollectionNotFound",
            InsertManyError::InvalidData => "InvalidData",
            InsertManyError::InvalidLink => "InvalidLink",
            InsertManyError::LinkNotSetUpForThisBase => "LinkNotSetUpForThisBase",
        }
    }
}

/// The error of inserting several rows that an error of inserting one
/// becomes.
pub open spec fn many_error(e: InsertOneError) -> InsertManyError {
    match e {
        InsertOneError::CollectionNotFound => InsertManyError::CollectionNotFound,
        InsertOneError::InvalidData => InsertManyError::InvalidData,
        InsertOneError::InvalidLink => InsertManyError::InvalidLink,
        InsertOneError::LinkNotSetUpForThisBase => InsertManyError::LinkNotSetUpForThisBase,
    }
}

/// An item by its plain parts: its data and links.
pub open spec fn items_view(items: Seq<InsertManyItem>) -> Seq<(Json, Seq<InsertLinkView>)> {
    items.map_values(|it: InsertManyItem| (it.data@, insert_links_view(it.links@)))
}

/// The position of the first item refused, with its error, if any.
pub open spec fn first_item_error(r: RegistryView, base: Seq<char>, items: Seq<(Json, Seq<InsertLinkView>)>) -> Option<(int, InsertManyError)>
    decreases items.len(),
{
    if items.len() == 0 {
        None
    } else {
        match first_item_error(r, base, items.drop_last()) {
            Some(e) => Some(e),
            None => match insert_one_error(r, base, items.last().0, items.last().1) {
                Some(e) => Some(((items.len() - 1) as int, many_error(e))),
                None => None,
            },
        }
    }
}

/// Inserting several rows: the plans of the rows inserted before one is
/// refused, and the refusal, if any.
pub struct InsertManyPlan {
    pub plans: Vec<InsertPlan>,
    pub error: Option<InsertManyError>,
}

/// Whether a plan is what a request to insert several rows resolves to: no
/// items or an unknown collection are refused outright; otherwise the items
/// before the first refused one are planned, and the refusal recorded.
pub open spec fn insert_many_matches(p: InsertManyPlan, r: RegistryView, base: Seq<char>, items: Seq<(Json, Seq<InsertLinkView>)>) -> bool {
    if items.len() == 0 {
        p.plans@.len() == 0 && p.error == Some(InsertManyError::InvalidData)
    } else if !has_collection(r.collections, base) {
        p.plans@.len() == 0 && p.error == Some(InsertManyError::CollectionNotFound)
    } else {
        let upto = match first_item_error(r, base, items) {
            Some(e) => e.0,
            None => items.len() as int,
        };
        &&& p.plans@.len() == upto
        &&& p.error == match first_item_error(r, base, items) {
            Some(e) => Some(e.1),
            None => None,
        }
        &&& forall|k: int|
            0 <= k < upto ==> plan_matches(#[trigger] p.plans@[k], r, base, items[k].0, items[k].1) && plan_wf(p.plans@[k])
    }
}

/// Plans the rows of a request to insert several.
pub fn plan_insert_many(reg: &Registry, input: &InsertManyInput) -> (r: InsertManyPlan)
    requires
        reg.wf(),
    ensures
        insert_many_matches(r, reg@, input.base@, items_view(input.items@)),
{
    let ghost its = items_view(input.items@);
    if input.items.len() == 0 {
        return InsertManyPlan { plans: Vec::new(), error: Some(InsertManyError::InvalidData) };
    }
    if reg.find_collection(input.base.as_str()).is_none() {
        return InsertManyPlan { plans: Vec::new(), error: Some(InsertManyError::CollectionNotFound) };
    }
    let mut plans: Vec<InsertPlan> = Vec::new();
    let mut i: usize = 0;
    proof {
        assert(its.take(0) =~= Seq::<(Json, Seq<InsertLinkView>)>::empty());
    }
    while i < input.items.len()
        invariant
            reg.wf(),
            its == items_view(input.items@),
            i <= input.items@.len(),
            plans@.len() == i,
            first_item_error(reg@, input.base@, its.take(i as int)) is None,
            forall|k: int| 0 <= k < i ==> plan_matches(#[trigger] plans@[k], reg@, input.base@, its[k].0, its[k].1) && plan_wf(plans@[k]),
        decreases input.items@.len() - i,
    {
        proof {
            assert(its.take(i + 1).drop_last() =~= its.take(i as int));
            assert(its.take(i + 1).last() == its[i as int]);
        }
        let item = &input.items[i];
        let r = plan_insert_one_parts(reg, &input.base, &item.data, &item.links);
        match r {
            Ok(p) => {
                plans.push(p);
            },
            Err(e) => {
                let me = match e {
                    InsertOneError::CollectionNotFound => InsertManyError::CollectionNotFound,
                    InsertOneError::InvalidData => InsertManyError::InvalidData,
                    InsertOneError::InvalidLink => InsertManyError::InvalidLink,
                    InsertOneError::LinkNotSetUpForThisBase => InsertManyError::LinkNotSetUpForThisBase,
                };
                proof {
                    lemma_first_item_error_prefix(reg@, input.base@, its, i + 1);
                }
                return InsertManyPlan { plans, error: Some(me) };
            },
        }
        i = i + 1;
    }
    proof {
        assert(its.take(input.items@.len() as int) =~= its);
    }
    InsertManyPlan { plans, error: None }
}

/// Once some item is refused, the first refusal stays the same as items
/// are added.
proof fn lemma_first_item_error_prefix(r: RegistryView, base: Seq<char>, items: Seq<(Json, Seq<InsertLinkView>)>, i: int)
    requires
        0 <= i <= items.len(),
        first_item_error(r, base, items.take(i)) is Some,
    ensures
        first_item_error(r, base, items) == first_item_error(r, base, items.take(i)),
    decreases items.len() - i,
{
    if i < items.len() {
        assert(items.take(i + 1).drop_last() =~= items.take(i));
        lemma_first_item_error_prefix(r, base, items, i + 1);
    } else {
        assert(items.take(i) =~= items);
    }
}

/// Resolves one row to insert, given its collection's name, data and links.
pub fn plan_insert_one_parts(reg: &Registry, base: &String, data: &JsonValue, links: &Vec<SupportedInsertLink>) -> (r: Result<InsertPlan, InsertOneError>)
    requires
        reg.wf(),
    ensures
        match insert_one_error(reg@, base@, data@, insert_links_view(links@)) {
            Some(e) => r == Err::<InsertPlan, InsertOneError>(e),
            None => r matches Ok(p) && plan_matches(p, reg@, base@, data@, insert_links_view(links@)) && plan_wf(p),
        },
{
    let bi = match reg.find_collection(base.as_str()) {
        Some(bi) => bi,
        None => return Err(InsertOneError::CollectionNotFound),
    };
    let b = reg.collection_at(bi);
    let values = match insert_values(b, data) {
        Ok(v) => v,
        Err(_) => return Err(InsertOneError::InvalidData),
    };
    let ls = match plan_insert_links(reg, base, links) {
        Ok(l) => l,
        Err(e) => return Err(e),
    };
    let p = InsertPlan { base: b.copy(), values, links: ls };
    proof {
        assert(binds_view(p.values@).len() == p.values@.len());
        assert(insert_binds(p.base@.fields, data@).len() == p.base@.fields.len());
        lemma_plan_matches_wf(p, reg@, base@, data@, insert_links_view(links@));
    }
    Ok(p)
}

/// The answer of item `k` once its statements ran.
pub open spec fn item_answer(p: InsertPlan, results: Seq<Seq<Seq<Seq<Json>>>>, k: int) -> Option<Json> {
    insert_answer(p.base@, link_plans_view(p.links@), results[3 * k], results[3 * k + 1], results[3 * k + 2])
}

/// The answers of the first `n` items.
pub open spec fn item_answers(plans: Seq<InsertPlan>, results: Seq<Seq<Seq<Seq<Json>>>>, n: int) -> Option<Seq<Json>>
    decreases n,
{
    if n <= 0 {
        Some(Seq::empty())
    } else {
        match (item_answers(plans, results, n - 1), item_answer(plans[n - 1], results, n - 1)) {
            (Some(a), Some(j)) => Some(a.push(j)),
            _ => None,
        }
    }
}

/// What inserting several rows asks for: each planned row's statements in
/// turn, three batches a row, then the answer: the refusal where there was
/// one, else the rows inserted.
pub open spec fn insert_many_step_spec(p: InsertManyPlan, results: Seq<Seq<Seq<Seq<Json>>>>) -> StepView {
    let n = p.plans@.len();
    let idx = results.len() / 3;
    let phase = results.len() % 3;
    if idx < n {
        let q = p.plans@[idx as int];
        let ls = link_plans_view(q.links@);
        if phase == 0 {
            StepView::Run(new_inserts(ls))
        } else if phase == 1 {
            match fk_parts(ls, results[3 * idx as int]) {
                Some(parts) => StepView::Run(seq![insert_view(q.base@, binds_view(q.values@), parts.0, parts.1)]),
                None => StepView::Fail,
            }
        } else {
            match returned_id(results[3 * idx as int + 1], 0) {
                Some(id) => StepView::Run(followups(q.base@.name, id, ls)),
                None => StepView::Fail,
            }
        }
    } else {
        match p.error {
            Some(e) => StepView::Done(crate::session::error_response(e.spec_name())),
            None => match item_answers(p.plans@, results, n as int) {
                Some(a) => StepView::Done(output_response(Json::Object(seq![("items"@, Json::Array(a))]))),
                None => StepView::Fail,
            },
        }
    }
}

/// Each answer of the first `n` items is that item's own answer.
proof fn lemma_item_answers_index(plans: Seq<InsertPlan>, results: Seq<Seq<Seq<Seq<Json>>>>, n: int, k: int)
    requires
        item_answers(plans, results, n) is Some,
        0 <= k < n,
    ensures
        item_answers(plans, results, n).unwrap().len() == n,
        item_answer(plans[k], results, k) == Some(item_answers(plans, results, n).unwrap()[k]),
    decreases n,
{
    if n > 0 {
        if k < n - 1 {
            lemma_item_answers_index(plans, results, n - 1, k);
        } else if n - 1 > 0 {
            lemma_item_answers_length(plans, results, n - 1);
        }
    }
}

/// The answers of the first `n` items are `n` answers.
proof fn lemma_item_answers_length(plans: Seq<InsertPlan>, results: Seq<Seq<Seq<Seq<Json>>>>, n: int)
    requires
        item_answers(plans, results, n) is Some,
        n >= 0,
    ensures
        item_answers(plans, results, n).unwrap().len() == n,
    decreases n,
{
    if n > 0 {
        lemma_item_answers_length(plans, results, n - 1);
    }
}

/// Each row of a request to insert several is inserted as a request to
/// insert that row alone would insert it: while the `k`-th planned row
/// runs, with `m` of its batches done, the session asks for what the
/// insert of that row's plan alone asks for, given the same batches; once
/// every row ran without refusal, the answer lists, for each row, what the
/// insert of its plan alone answers.
pub proof fn insert_many_inserts_each_row_as_insert_one(
    p: InsertManyPlan,
    results: Seq<Seq<Seq<Seq<Json>>>>,
    k: int,
)
    requires
        0 <= k < p.plans@.len(),
    ensures
        forall|m: int|
            0 <= m < 3 && results.len() == 3 * k + m ==> insert_many_step_spec(p, results) == insert_step_spec(
                p.plans@[k],
                #[trigger] results.subrange(3 * k, 3 * k + m),
            ),
        p.error is None && results.len() == 3 * p.plans@.len() && insert_many_step_spec(p, results) !is Fail
            ==> insert_many_step_spec(p, results) == StepView::Done(
            output_response(
                Json::Object(
                    seq![("items"@, Json::Array(item_answers(p.plans@, results, p.plans@.len() as int).unwrap()))],
                ),
            ),
        ) && insert_step_spec(p.plans@[k], results.subrange(3 * k, 3 * k + 3)) == StepView::Done(
            output_response(item_answers(p.plans@, results, p.plans@.len() as int).unwrap()[k]),
        ),
{
    let n = p.plans@.len() as int;
    assert forall|m: int|
        0 <= m < 3 && results.len() == 3 * k + m implies insert_many_step_spec(p, results) == insert_step_spec(
        p.plans@[k],
        #[trigger] results.subrange(3 * k, 3 * k + m),
    ) by {
        let sub = results.subrange(3 * k, 3 * k + m);
        assert((3 * k + m) / 3 == k) by (nonlinear_arith)
            requires
                0 <= m < 3,
                0 <= k,
        ;
        assert((3 * k + m) % 3 == m) by (nonlinear_arith)
            requires
                0 <= m < 3,
                0 <= k,
        ;
        if m >= 1 {
            assert(sub[0] == results[3 * k]);
        }
        if m >= 2 {
            assert(sub[1] == results[3 * k + 1]);
        }
    }
    if p.error is None && results.len() == 3 * n && insert_many_step_spec(p, results) !is Fail {
        assert((3 * n) / 3 == n) by (nonlinear_arith)
            requires
                n >= 0,
        ;
        assert(item_answers(p.plans@, results, n) is Some);
        lemma_item_answers_index(p.plans@, results, n, k);
        let sub = results.subrange(3 * k, 3 * k + 3);
        assert(sub.len() == 3);
        assert(sub[0] == results[3 * k]);
        assert(sub[1] == results[3 * k + 1]);
        assert(sub[2] == results[3 * k + 2]);
    }
}

/// What inserting several rows asks for next.
pub fn insert_many_step(p: &InsertManyPlan, results: &Vec<Vec<Rows>>) -> (r: Step)
    requires
        forall|k: int| 0 <= k < p.plans@.len() ==> plan_wf(#[trigger] p.plans@[k]),
    ensures
        r@ == insert_many_step_spec(*p, results_view(results@)),
{
    let ghost rv = results_view(results@);
    proof {
        assert(rv.len() == results@.len());
    }
    let n = p.plans.len();
    let idx = results.len() / 3;
    let phase = results.len() % 3;
    if idx < n {
        let q = &p.plans[idx];
        if phase == 0 {
            return Step::Run(insert_new_rows(q));
        } else if phase == 1 {
            proof {
                assert(rv[3 * idx as int] == batch_view(results@[3 * idx as int]@));
            }
            return match insert_main(q, &results[3 * idx]) {
                Some(st) => {
                    let ghost sv = st@;
                    let mut v: Vec<Statement> = Vec::new();
                    v.push(st);
                    proof {
                        assert(statements_view(v@) =~= seq![sv]);
                    }
                    Step::Run(v)
                },
                None => Step::Fail,
            };
        } else {
            proof {
                assert(rv[3 * idx as int + 1] == batch_view(results@[3 * idx as int + 1]@));
            }
            return match read_returned_id(&results[3 * idx + 1], 0) {
                Some(id) => Step::Run(insert_followups(q, id)),
                None => Step::Fail,
            };
        }
    }
    match &p.error {
        Some(e) => return Step::Done(crate::session::error(e.name())),
        None => {},
    }
    let mut answers: Vec<JsonValue> = Vec::new();
    let mut k: usize = 0;
    let rl = results.len();
    proof {
        assert(json_seq(answers@) =~= Seq::<Json>::empty());
        assert(3 * idx <= rl);
    }
    while k < n
        invariant
            k <= n,
            n == p.plans@.len(),
            n <= idx,
            idx == results@.len() / 3,
            p.error is None,
            3 * idx <= rl,
            rl == results@.len(),
            rv == results_view(results@),
            item_answers(p.plans@, rv, k as int) == Some(json_seq(answers@)),
        decreases n - k,
    {
        proof {
            assert(rv[3 * k as int] == batch_view(results@[3 * k as int]@));
            assert(rv[3 * k as int + 1] == batch_view(results@[3 * k as int + 1]@));
            assert(rv[3 * k as int + 2] == batch_view(results@[3 * k as int + 2]@));
        }
        let q = &p.plans[k];
        match insert_result(q, &results[3 * k], &results[3 * k + 1], &results[3 * k + 2]) {
            Some(j) => {
                let ghost before = json_seq(answers@);
                answers.push(j);
                proof {
                    assert(json_seq(answers@) =~= before.push(j@));
                }
            },
            None => {
                proof {
                    assert(item_answer(p.plans@[k as int], rv, k as int) is None);
                    assert(item_answers(p.plans@, rv, k as int + 1) is None);
                    lemma_item_answers_prefix(p.plans@, rv, k as int + 1, n as int);
                }
                return Step::Fail;
            },
        }
        k = k + 1;
    }
    let ghost av = json_seq(answers@);
    proof {
        crate::values::lemma_array_view(answers);
    }
    Step::Done(output(crate::session::single_member("items", JsonValue::Array(answers))))
}

/// Once some item has no answer, more items have none.
proof fn lemma_item_answers_prefix(plans: Seq<InsertPlan>, results: Seq<Seq<Seq<Seq<Json>>>>, i: int, n: int)
    requires
        0 <= i <= n,
        item_answers(plans, results, i) is None,
    ensures
        item_answers(plans, results, n) is None,
    decreases n - i,
{
    if i < n {
        lemma_item_answers_prefix(plans, results, i + 1, n);
    }
}

} // verus!
