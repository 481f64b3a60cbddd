//! Updating one row by its id: its fields, and its links to rows of other
//! collections, which it can set, clear, add or remove.
use vstd::prelude::*;
use crate::data::{insert_binds, insert_data_ok, insert_values, update_data_ok, update_sets, update_values};
use crate::filters::binds_view;
use crate::insert::{
    field_names, first_row_output, first_row_record, insert_view, linked_record_json,
    linked_record_output, returning_columns, select_by_id_view, results_view,
};
use crate::json::{Json, JsonValue};
use crate::query::{columns_view, lemma_join_push, names_sql, write_names};
use crate::registry::{Registry, RegistryView, collection_named, fk_column, has_collection};
use crate::schema::{CollectionView, DynamicCollection, FieldView};
use crate::session::{
    Rows, Step, StepView, StatementView, batch_view, error, error_response, output, output_response,
    read_returned_id, returned_id, statements_view,
};
use crate::sql::{BindValue, BindView, ColumnSpec, ColumnType, Statement, StatementBuilder, join, marker, quoted};
use crate::statements::{
    copy_bind, junction_delete_sql, junction_delete_statement, junction_insert_sql,
    junction_insert_statement, select_by_id_statement,
};
use crate::text::{chars_of, copy_chars};
use crate::values::names_view;

verus! {

/// A change to a link of the updated row, as a request states it.
pub enum SupportedUpdateLink {
    /// Link to the existing row `id` of `to`.
    SetId { to: String, id: i64 },
    /// Insert `value` into `to` first, and link to it.
    SetNew { to: String, value: JsonValue },
    /// Clear the reference to `to`.
    SetNull { to: String },
    /// Unpair the row `id` of `to`.
    RemoveId { to: String, id: i64 },
}

/// A request to update one row.
pub struct UpdateOneInput {
    pub base: String,
    pub id: i64,
    pub data: JsonValue,
    pub links: Vec<SupportedUpdateLink>,
}

/// Why an update was refused or found nothing.
#[derive(Debug, PartialEq, Eq, Structural)]
pub enum UpdateOneError {
    CollectionNotFound,
    InvalidData,
    NotFound,
    InvalidLink,
}

/// A link change by its plain parts.
pub enum UpdateLinkView {
    SetId(Seq<char>, int),
    SetNew(Seq<char>, Json),
    SetNull(Seq<char>),
    RemoveId(Seq<char>, int),
}

impl View for SupportedUpdateLink {
    type V = UpdateLinkView;

    open spec fn view(&self) -> UpdateLinkView {
        match self {
            SupportedUpdateLink::SetId { to, id } => UpdateLinkView::SetId(to@, *id as int),
            SupportedUpdateLink::SetNew { to, value } => UpdateLinkView::SetNew(to@, value@),
            SupportedUpdateLink::SetNull { to } => UpdateLinkView::SetNull(to@),
            SupportedUpdateLink::RemoveId { to, id } => UpdateLinkView::RemoveId(to@, *id as int),
        }
    }
}

/// Link changes by their plain parts.
pub open spec fn update_links_view(ls: Seq<SupportedUpdateLink>) -> Seq<UpdateLinkView> {
    ls.map_values(|l: SupportedUpdateLink| l@)
}

/// Whether a link change has work to do in the update itself or beside it:
/// a reference it sets or clears, or a pairing it adds or removes.
pub open spec fn contributes(r: RegistryView, base: Seq<char>, l: UpdateLinkView) -> bool {
    match l {
        UpdateLinkView::SetNull(to) => r.optional_to_many.contains((base, to)),
        UpdateLinkView::SetNew(to, _) => r.optional_to_many.contains((base, to)),
        UpdateLinkView::SetId(to, _) => r.optional_to_many.contains((base, to)) || r.many_to_many.contains((base, to)),
        UpdateLinkView::RemoveId(to, _) => r.many_to_many.contains((base, to)),
    }
}

/// Why a link change of a row of `base` is refused, if it is.
pub open spec fn update_link_error(r: RegistryView, base: Seq<char>, l: UpdateLinkView) -> Option<UpdateOneError> {
    match l {
        UpdateLinkView::SetId(to, _) => if has_collection(r.collections, to) && (r.many_to_many.contains((base, to))
            || r.optional_to_many.contains((base, to))) {
            None
        } else {
            Some(UpdateOneError::InvalidLink)
        },
        UpdateLinkView::SetNew(to, v) => if !has_collection(r.collections, to) {
            Some(UpdateOneError::InvalidLink)
        } else if !insert_data_ok(collection_named(r.collections, to).fields, v) {
            Some(UpdateOneError::InvalidData)
        } else if !r.optional_to_many.contains((base, to)) {
            Some(UpdateOneError::InvalidLink)
        } else {
            None
        },
        UpdateLinkView::SetNull(to) => if has_collection(r.collections, to) && r.optional_to_many.contains((base, to)) {
            None
        } else {
            Some(UpdateOneError::InvalidLink)
        },
        UpdateLinkView::RemoveId(to, _) => if has_collection(r.collections, to) && r.many_to_many.contains((base, to)) {
            None
        } else {
            Some(UpdateOneError::InvalidLink)
        },
    }
}

/// The error of the first refused link change, if any.
pub open spec fn first_update_link_error(r: RegistryView, base: Seq<char>, ls: Seq<UpdateLinkView>) -> Option<UpdateOneError>
    decreases ls.len(),
{
    if ls.len() == 0 {
        None
    } else {
        match update_link_error(r, base, ls[0]) {
            Some(e) => Some(e),
            None => first_update_link_error(r, base, ls.drop_first()),
        }
    }
}

/// Whether some link change has work to do.
pub open spec fn any_contributes(r: RegistryView, base: Seq<char>, ls: Seq<UpdateLinkView>) -> bool {
    exists|i: int| 0 <= i < ls.len() && contributes(r, base, #[trigger] ls[i])
}

/// Why an update is refused, if it is: an unknown collection, invalid
/// data, nothing to do, then the first refused link change.
pub open spec fn update_one_error(r: RegistryView, base: Seq<char>, data: Json, ls: Seq<UpdateLinkView>) -> Option<UpdateOneError> {
    if !has_collection(r.collections, base) {
        Some(UpdateOneError::CollectionNotFound)
    } else if !update_data_ok(collection_named(r.collections, base).fields, data) {
        Some(UpdateOneError::InvalidData)
    } else if update_sets(collection_named(r.collections, base).fields, data).len() == 0 && !any_contributes(r, base, ls) {
        Some(UpdateOneError::InvalidData)
    } else {
        first_update_link_error(r, base, ls)
    }
}

/// What an accepted link change does.
pub enum UpdateLinkPlanView {
    Forward(CollectionView, int),
    Many(CollectionView, int),
    New(CollectionView, Seq<BindView>),
    Null(CollectionView),
    Remove(CollectionView, int),
}

/// What an accepted link change of a row of `base` does.
pub open spec fn plan_update_link(r: RegistryView, base: Seq<char>, l: UpdateLinkView) -> UpdateLinkPlanView {
    match l {
        UpdateLinkView::SetId(to, id) => if r.many_to_many.contains((base, to)) {
            UpdateLinkPlanView::Many(collection_named(r.collections, to), id)
        } else {
            UpdateLinkPlanView::Forward(collection_named(r.collections, to), id)
        },
        UpdateLinkView::SetNew(to, v) => {
            let c = collection_named(r.collections, to);
            UpdateLinkPlanView::New(c, insert_binds(c.fields, v))
        },
        UpdateLinkView::SetNull(to) => UpdateLinkPlanView::Null(collection_named(r.collections, to)),
        UpdateLinkView::RemoveId(to, id) => UpdateLinkPlanView::Remove(collection_named(r.collections, to), id),
    }
}

/// An accepted link change, resolved.
pub enum UpdateLinkPlan {
    Forward { to: DynamicCollection, id: i64 },
    Many { to: DynamicCollection, id: i64 },
    New { to: DynamicCollection, values: Vec<BindValue> },
    Null { to: DynamicCollection },
    Remove { to: DynamicCollection, id: i64 },
}

impl View for UpdateLinkPlan {
    type V = UpdateLinkPlanView;

    open spec fn view(&self) -> UpdateLinkPlanView {
        match self {
            UpdateLinkPlan::Forward { to, id } => UpdateLinkPlanView::Forward(to@, *id as int),
            UpdateLinkPlan::Many { to, id } => UpdateLinkPlanView::Many(to@, *id as int),
            UpdateLinkPlan::New { to, values } => UpdateLinkPlanView::New(to@, binds_view(values@)),
            UpdateLinkPlan::Null { to } => UpdateLinkPlanView::Null(to@),
            UpdateLinkPlan::Remove { to, id } => UpdateLinkPlanView::Remove(to@, *id as int),
        }
    }
}

/// Link change plans by their plain parts.
pub open spec fn update_plans_view(v: Seq<UpdateLinkPlan>) -> Seq<UpdateLinkPlanView> {
    v.map_values(|p: UpdateLinkPlan| p@)
}

/// An accepted update.
pub struct UpdatePlan {
    pub base: DynamicCollection,
    pub id: i64,
    pub sets: Vec<(Vec<char>, BindValue)>,
    pub links: Vec<UpdateLinkPlan>,
}

/// The assignments of a plan by their plain parts.
pub open spec fn sets_view(v: Seq<(Vec<char>, BindValue)>) -> Seq<(Seq<char>, BindView)> {
    v.map_values(|s: (Vec<char>, BindValue)| (s.0@, s.1@))
}

/// Whether a plan is what an accepted update request resolves to.
pub open spec fn update_plan_matches(p: UpdatePlan, r: RegistryView, base: Seq<char>, id: int, data: Json, ls: Seq<UpdateLinkView>) -> bool {
    &&& p.base@ == collection_named(r.collections, base)
    &&& p.id == id
    &&& sets_view(p.sets@) == update_sets(p.base@.fields, data)
    &&& update_plans_view(p.links@) == ls.map_values(|l: UpdateLinkView| plan_update_link(r, base, l))
}

/// Whether the new rows of a plan have one value per field.
pub open spec fn update_plan_wf(p: UpdatePlan) -> bool {
    forall|i: int|
        0 <= i < p.links@.len() ==> match (#[trigger] update_plans_view(p.links@)[i]) {
            UpdateLinkPlanView::New(c, b) => b.len() == c.fields.len(),
            _ => true,
        }
}

/// The error of the first refused link change is that of the first after
/// the accepted ones.
proof fn lemma_first_update_link_error_skip(r: RegistryView, base: Seq<char>, ls: Seq<UpdateLinkView>, i: int)
    requires
        0 <= i <= ls.len(),
        forall|k: int| 0 <= k < i ==> update_link_error(r, base, #[trigger] ls[k]) is None,
    ensures
        first_update_link_error(r, base, ls) == first_update_link_error(r, base, ls.skip(i)),
    decreases i,
{
    if i > 0 {
        assert(update_link_error(r, base, ls[0]) is None);
        lemma_first_update_link_error_skip(r, base, ls.drop_first(), i - 1);
        assert(ls.drop_first().skip(i - 1) =~= ls.skip(i));
    } else {
        assert(ls.skip(0) =~= ls);
    }
}

/// Whether some link change of the list has work to do.
fn any_link_contributes(reg: &Registry, base: &String, links: &Vec<SupportedUpdateLink>) -> (r: bool)
    ensures
        r == any_contributes(reg@, base@, update_links_view(links@)),
{
    let ghost ls = update_links_view(links@);
    let mut i: usize = 0;
    while i < links.len()
        invariant
            ls == update_links_view(links@),
            i <= links@.len(),
            forall|k: int| 0 <= k < i ==> !contributes(reg@, base@, #[trigger] ls[k]),
        decreases links@.len() - i,
    {
        let c = match &links[i] {
            SupportedUpdateLink::SetNull { to } => reg.has_optional_to_many(base, to),
            SupportedUpdateLink::SetNew { to, .. } => reg.has_optional_to_many(base, to),
            SupportedUpdateLink::SetId { to, .. } => reg.has_optional_to_many(base, to) || reg.has_many_to_many(base, to),
            SupportedUpdateLink::RemoveId { to, .. } => reg.has_many_to_many(base, to),
        };
        if c {
            assert(contributes(reg@, base@, ls[i as int]));
            return true;
        }
        i = i + 1;
    }
    false
}

/// Resolves the link changes of a row of `base`, refusing the first
/// invalid one.
pub fn plan_update_links(reg: &Registry, base: &String, links: &Vec<SupportedUpdateLink>) -> (r: Result<Vec<UpdateLinkPlan>, UpdateOneError>)
    requires
        reg.wf(),
    ensures
        match first_update_link_error(reg@, base@, update_links_view(links@)) {
            Some(e) => r == Err::<Vec<UpdateLinkPlan>, UpdateOneError>(e),
            None => r matches Ok(ps) && update_plans_view(ps@) == update_links_view(links@).map_values(
                |l: UpdateLinkView| plan_update_link(reg@, base@, l),
            ),
        },
{
    let ghost ls = update_links_view(links@);
    let ghost want = ls.map_values(|l: UpdateLinkView| plan_update_link(reg@, base@, l));
    let mut plans: Vec<UpdateLinkPlan> = Vec::new();
    let mut i: usize = 0;
    while i < links.len()
        invariant
            reg.wf(),
            i <= links@.len(),
            ls == update_links_view(links@),
            want == ls.map_values(|l: UpdateLinkView| plan_update_link(reg@, base@, l)),
            forall|k: int| 0 <= k < i ==> update_link_error(reg@, base@, #[trigger] ls[k]) is None,
            update_plans_view(plans@) == want.take(i as int),
        decreases links@.len() - i,
    {
        let ghost before = update_plans_view(plans@);
        let (to, ti) = match &links[i] {
            SupportedUpdateLink::SetId { to, .. } | SupportedUpdateLink::SetNew { to, .. }
            | SupportedUpdateLink::SetNull { to } | SupportedUpdateLink::RemoveId { to, .. } => {
                match reg.find_collection(to.as_str()) {
                    Some(ti) => (to, ti),
                    None => {
                        proof {
                            lemma_first_update_link_error_skip(reg@, base@, ls, i as int);
                        }
                        return Err(UpdateOneError::InvalidLink);
                    },
                }
            },
        };
        let target = reg.collection_at(ti);
        let plan = match &links[i] {
            SupportedUpdateLink::SetId { id, .. } => {
                if reg.has_many_to_many(base, to) {
                    UpdateLinkPlan::Many { to: target.copy(), id: *id }
                } else if reg.has_optional_to_many(base, to) {
                    UpdateLinkPlan::Forward { to: target.copy(), id: *id }
                } else {
                    proof {
                        lemma_first_update_link_error_skip(reg@, base@, ls, i as int);
                    }
                    return Err(UpdateOneError::InvalidLink);
                }
            },
            SupportedUpdateLink::SetNew { value, .. } => {
                let values = match insert_values(target, value) {
                    Ok(v) => v,
                    Err(_) => {
                        proof {
                            lemma_first_update_link_error_skip(reg@, base@, ls, i as int);
                        }
                        return Err(UpdateOneError::InvalidData);
                    },
                };
                if !reg.has_optional_to_many(base, to) {
                    proof {
                        lemma_first_update_link_error_skip(reg@, base@, ls, i as int);
                    }
                    return Err(UpdateOneError::InvalidLink);
                }
                UpdateLinkPlan::New { to: target.copy(), values }
            },
            SupportedUpdateLink::SetNull { .. } => {
                if !reg.has_optional_to_many(base, to) {
                    proof {
                        lemma_first_update_link_error_skip(reg@, base@, ls, i as int);
                    }
                    return Err(UpdateOneError::InvalidLink);
                }
                UpdateLinkPlan::Null { to: target.copy() }
            },
            SupportedUpdateLink::RemoveId { id, .. } => {
                if !reg.has_many_to_many(base, to) {
                    proof {
                        lemma_first_update_link_error_skip(reg@, base@, ls, i as int);
                    }
                    return Err(UpdateOneError::InvalidLink);
                }
                UpdateLinkPlan::Remove { to: target.copy(), id: *id }
            },
        };
        plans.push(plan);
        proof {
            assert(update_plans_view(plans@) =~= before.push(want[i as int]));
            assert(want.take(i + 1) =~= want.take(i as int).push(want[i as int]));
        }
        i = i + 1;
    }
    proof {
        lemma_first_update_link_error_skip(reg@, base@, ls, i as int);
        assert(ls.skip(i as int).len() == 0);
        assert(want.take(i as int) =~= want);
    }
    Ok(plans)
}

/// Resolves a request to update one row.
pub fn plan_update_one(reg: &Registry, input: &UpdateOneInput) -> (r: Result<UpdatePlan, UpdateOneError>)
    requires
        reg.wf(),
    ensures
        match update_one_error(reg@, input.base@, input.data@, update_links_view(input.links@)) {
            Some(e) => r == Err::<UpdatePlan, UpdateOneError>(e),
            None => r matches Ok(p) && update_plan_matches(p, reg@, input.base@, input.id as int, input.data@, update_links_view(input.links@))
                && update_plan_wf(p),
        },
{
    let bi = match reg.find_collection(input.base.as_str()) {
        Some(bi) => bi,
        None => return Err(UpdateOneError::CollectionNotFound),
    };
    let base = reg.collection_at(bi);
    let sets = match update_values(base, &input.data) {
        Ok(s) => s,
        Err(_) => return Err(UpdateOneError::InvalidData),
    };
    if sets.len() == 0 && !any_link_contributes(reg, &input.base, &input.links) {
        proof {
            assert(sets_view(sets@).len() == 0);
        }
        return Err(UpdateOneError::InvalidData);
    }
    proof {
        if sets@.len() > 0 {
            assert(sets_view(sets@).len() > 0);
        }
    }
    let links = match plan_update_links(reg, &input.base, &input.links) {
        Ok(l) => l,
        Err(e) => return Err(e),
    };
    let p = UpdatePlan { base: base.copy(), id: input.id, sets, links };
    proof {
        let ls = update_links_view(input.links@);
        assert forall|i: int| 0 <= i < p.links@.len() implies match (#[trigger] update_plans_view(p.links@)[i]) {
            UpdateLinkPlanView::New(c, b) => b.len() == c.fields.len(),
            _ => true,
        } by {
            assert(update_plans_view(p.links@).len() == p.links@.len());
            assert(update_plans_view(p.links@)[i] == plan_update_link(reg@, input.base@, ls[i]));
        }
    }
    Ok(p)
}

/// The first statements of an update: one per new linked row, in order.
pub open spec fn update_new_inserts(ls: Seq<UpdateLinkPlanView>) -> Seq<StatementView>
    decreases ls.len(),
{
    if ls.len() == 0 {
        Seq::empty()
    } else {
        update_new_inserts(ls.drop_last()) + match ls.last() {
            UpdateLinkPlanView::New(c, binds) => seq![insert_view(c, binds, Seq::empty(), Seq::empty())],
            _ => Seq::empty(),
        }
    }
}

/// How many link changes insert a new row.
pub open spec fn update_new_count(ls: Seq<UpdateLinkPlanView>) -> nat
    decreases ls.len(),
{
    if ls.len() == 0 {
        0
    } else {
        update_new_count(ls.drop_last()) + if ls.last() is New {
            1nat
        } else {
            0nat
        }
    }
}

/// The reference columns an update sets, in link order, each with the
/// value bound for it or `NULL`.
pub open spec fn fk_sets(ls: Seq<UpdateLinkPlanView>, first: Seq<Seq<Seq<Json>>>) -> Option<Seq<(Seq<char>, Option<BindView>)>>
    decreases ls.len(),
{
    if ls.len() == 0 {
        Some(Seq::empty())
    } else {
        match fk_sets(ls.drop_last(), first) {
            None => None,
            Some(sets) => match ls.last() {
                UpdateLinkPlanView::Forward(c, id) => Some(sets.push((fk_column(c.name), Some(BindView::Int(id))))),
                UpdateLinkPlanView::New(c, _) => match returned_id(first, update_new_count(ls.drop_last()) as int) {
                    Some(id) => Some(sets.push((fk_column(c.name), Some(BindView::Int(id))))),
                    None => None,
                },
                UpdateLinkPlanView::Null(c) => Some(sets.push((fk_column(c.name), None))),
                _ => Some(sets),
            },
        }
    }
}

/// One assignment of a `SET` clause and the value it binds, when `n`
/// values are bound before it.
pub open spec fn set_item(s: (Seq<char>, Option<BindView>), n: nat) -> (Seq<char>, Seq<BindView>) {
    match s.1 {
        Some(b) => (quoted(s.0) + " = "@ + marker(n + 1), seq![b]),
        None => (quoted(s.0) + " =  NULL"@, Seq::empty()),
    }
}

/// The assignments of a `SET` clause separated by commas, and the values
/// they bind, when `n` values are bound before them.
pub open spec fn set_clause(sets: Seq<(Seq<char>, Option<BindView>)>, n: nat) -> (Seq<char>, Seq<BindView>)
    decreases sets.len(),
{
    if sets.len() == 0 {
        (Seq::empty(), Seq::empty())
    } else {
        let p = set_clause(sets.drop_last(), n);
        let item = set_item(sets.last(), n + p.1.len());
        (if sets.len() == 1 {
            item.0
        } else {
            p.0 + ", "@ + item.0
        }, p.1 + item.1)
    }
}

/// The update of row `id` of `c` with the assignments `sets`, returning the
/// row with the reference columns `fks`; an assignment of the id to itself
/// where there is none.
pub open spec fn update_view(c: CollectionView, sets: Seq<(Seq<char>, Option<BindView>)>, fks: Seq<Seq<char>>, id: int) -> StatementView {
    let s = set_clause(sets, 0);
    StatementView {
        sql: "UPDATE "@ + quoted(c.table) + " SET "@ + (if sets.len() == 0 {
            quoted("id"@) + " = "@ + quoted("id"@)
        } else {
            s.0
        }) + " WHERE "@ + quoted(c.table) + "."@ + quoted("id"@) + " = "@ + marker(s.1.len() + 1)
            + " RETURNING "@ + names_sql(seq!["id"@] + field_names(c) + fks) + ";"@,
        binds: s.1.push(BindView::Int(id)),
        columns: returning_columns(c, fks),
    }
}

/// The data assignments, each with its value bound.
pub open spec fn data_sets(sets: Seq<(Seq<char>, BindView)>) -> Seq<(Seq<char>, Option<BindView>)> {
    sets.map_values(|s: (Seq<char>, BindView)| (s.0, Some(s.1)))
}

/// The statements that follow the update, in link order: reads of linked
/// rows, and the junction rows added or removed.
pub open spec fn update_followups(base: Seq<char>, base_id: int, ls: Seq<UpdateLinkPlanView>) -> Seq<StatementView>
    decreases ls.len(),
{
    if ls.len() == 0 {
        Seq::empty()
    } else {
        update_followups(base, base_id, ls.drop_last()) + match ls.last() {
            UpdateLinkPlanView::Forward(c, id) => seq![select_by_id_view(c, id)],
            UpdateLinkPlanView::Many(c, id) => seq![
                StatementView {
                    sql: junction_insert_sql(base, c.name),
                    binds: seq![BindView::Int(base_id), BindView::Int(id)],
                    columns: Seq::empty(),
                },
                select_by_id_view(c, id),
            ],
            UpdateLinkPlanView::Remove(c, id) => seq![
                select_by_id_view(c, id),
                StatementView {
                    sql: junction_delete_sql(base, c.name),
                    binds: seq![BindView::Int(base_id), BindView::Int(id)],
                    columns: Seq::empty(),
                },
            ],
            _ => Seq::empty(),
        }
    }
}

/// How many statements follow the update for these link changes.
pub open spec fn update_followup_count(ls: Seq<UpdateLinkPlanView>) -> nat
    decreases ls.len(),
{
    if ls.len() == 0 {
        0
    } else {
        update_followup_count(ls.drop_last()) + match ls.last() {
            UpdateLinkPlanView::Forward(_, _) => 1nat,
            UpdateLinkPlanView::Many(_, _) => 2nat,
            UpdateLinkPlanView::Remove(_, _) => 2nat,
            _ => 0nat,
        }
    }
}

/// The output of the last of these link changes.
pub open spec fn last_update_output(ls: Seq<UpdateLinkPlanView>, first: Seq<Seq<Seq<Json>>>, after: Seq<Seq<Seq<Json>>>) -> Option<Json> {
    let before = ls.drop_last();
    match ls.last() {
        UpdateLinkPlanView::Forward(c, _) => first_row_record(c, after, update_followup_count(before) as int),
        UpdateLinkPlanView::Many(c, _) => first_row_record(c, after, update_followup_count(before) as int + 1),
        UpdateLinkPlanView::Remove(c, _) => if update_followup_count(before) + 1 < after.len() {
            first_row_record(c, after, update_followup_count(before) as int)
        } else {
            None
        },
        UpdateLinkPlanView::New(c, _) => first_row_record(c, first, update_new_count(before) as int),
        UpdateLinkPlanView::Null(_) => Some(Json::Null),
    }
}

/// The outputs of the link changes, in order.
pub open spec fn update_link_outputs(ls: Seq<UpdateLinkPlanView>, first: Seq<Seq<Seq<Json>>>, after: Seq<Seq<Seq<Json>>>) -> Option<Seq<Json>>
    decreases ls.len(),
{
    if ls.len() == 0 {
        Some(Seq::empty())
    } else {
        match (update_link_outputs(ls.drop_last(), first, after), last_update_output(ls, first, after)) {
            (Some(outs), Some(o)) => Some(outs.push(o)),
            _ => None,
        }
    }
}

/// The answer of an update once all its statements ran.
pub open spec fn update_answer(base: CollectionView, ls: Seq<UpdateLinkPlanView>, first: Seq<Seq<Seq<Json>>>, main: Seq<Seq<Seq<Json>>>, after: Seq<Seq<Seq<Json>>>) -> Option<Json> {
    if main.len() > 0 && main[0].len() > 0 && main[0][0].len() >= 1 + base.fields.len() {
        match update_link_outputs(ls, first, after) {
            Some(outs) => Some(linked_record_json(base.fields, main[0][0], outs)),
            None => None,
        }
    } else {
        None
    }
}

/// What an update asks for after the given batches ran: the new linked
/// rows, the update, then reads and junction rows, then the answer;
/// `NotFound` where the update changed no row.
pub open spec fn update_step_spec(p: UpdatePlan, results: Seq<Seq<Seq<Seq<Json>>>>) -> StepView {
    let ls = update_plans_view(p.links@);
    if results.len() == 0 {
        StepView::Run(update_new_inserts(ls))
    } else if results.len() == 1 {
        match fk_sets(ls, results[0]) {
            Some(fks) => StepView::Run(seq![update_view(
                p.base@,
                data_sets(sets_view(p.sets@)) + fks,
                fks.map_values(|s: (Seq<char>, Option<BindView>)| s.0),
                p.id as int,
            )]),
            None => StepView::Fail,
        }
    } else if results[1].len() == 0 {
        StepView::Fail
    } else if results[1][0].len() == 0 {
        StepView::Done(error_response("NotFound"@))
    } else if results.len() == 2 {
        StepView::Run(update_followups(p.base@.name, p.id as int, ls))
    } else {
        match update_answer(p.base@, ls, results[0], results[1], results[2]) {
            Some(j) => StepView::Done(output_response(j)),
            None => StepView::Fail,
        }
    }
}

/// Assignments with optional values by their plain parts.
pub open spec fn opt_sets_view(v: Seq<(Vec<char>, Option<BindValue>)>) -> Seq<(Seq<char>, Option<BindView>)> {
    v.map_values(
        |s: (Vec<char>, Option<BindValue>)|
            (s.0@, match s.1 {
                Some(b) => Some(b@),
                None => None,
            }),
    )
}

/// Unfolds the specs that walk the link changes from the end.
proof fn lemma_update_links_step(ls: Seq<UpdateLinkPlanView>, i: int)
    requires
        0 <= i < ls.len(),
    ensures
        ls.take(i + 1).drop_last() == ls.take(i),
        ls.take(i + 1).last() == ls[i],
{
    assert(ls.take(i + 1).drop_last() =~= ls.take(i));
}

/// The inserts of the new linked rows.
pub fn update_new_rows(p: &UpdatePlan) -> (r: Vec<Statement>)
    requires
        update_plan_wf(*p),
    ensures
        statements_view(r@) == update_new_inserts(update_plans_view(p.links@)),
{
    let ghost ls = update_plans_view(p.links@);
    let mut r: Vec<Statement> = Vec::new();
    let mut i: usize = 0;
    while i < p.links.len()
        invariant
            update_plan_wf(*p),
            ls == update_plans_view(p.links@),
            i <= p.links@.len(),
            statements_view(r@) == update_new_inserts(ls.take(i as int)),
        decreases p.links@.len() - i,
    {
        proof {
            lemma_update_links_step(ls, i as int);
        }
        let ghost before = statements_view(r@);
        match &p.links[i] {
            UpdateLinkPlan::New { to, values } => {
                proof {
                    assert(ls[i as int] == UpdateLinkPlanView::New(to@, binds_view(values@)));
                }
                let fks: Vec<Vec<char>> = Vec::new();
                let fkv: Vec<BindValue> = Vec::new();
                let st = crate::insert::insert_row_statement(to, values, &fks, &fkv);
                r.push(st);
                proof {
                    assert(names_view(fks@) =~= Seq::<Seq<char>>::empty());
                    assert(binds_view(fkv@) =~= Seq::<BindView>::empty());
                    assert(statements_view(r@) =~= before.push(st@));
                }
            },
            _ => {
                proof {
                    assert(update_new_inserts(ls.take(i + 1)) =~= update_new_inserts(ls.take(i as int)));
                }
            },
        }
        i = i + 1;
    }
    proof {
        assert(ls.take(p.links@.len() as int) =~= ls);
    }
    r
}

/// Once the reference columns of some link changes cannot be set, neither
/// can those of more.
proof fn lemma_fk_sets_prefix_none(ls: Seq<UpdateLinkPlanView>, first: Seq<Seq<Seq<Json>>>, i: int)
    requires
        0 <= i <= ls.len(),
        fk_sets(ls.take(i), first) is None,
    ensures
        fk_sets(ls, first) is None,
    decreases ls.len() - i,
{
    if i < ls.len() {
        lemma_update_links_step(ls, i);
        lemma_fk_sets_prefix_none(ls, first, i + 1);
    } else {
        assert(ls.take(i) =~= ls);
    }
}

/// The reference column that points to rows of `c`.
fn fk_column_chars(c: &DynamicCollection) -> (r: Vec<char>)
    ensures
        r@ == fk_column(c@.name),
{
    let mut s = String::new();
    s.append("fk_");
    s.append(c.collection_name.snake_case.as_str());
    s.append("_def");
    proof {
        assert(s@ =~= fk_column(c@.name));
    }
    chars_of(s.as_str())
}

/// The reference columns the update sets.
pub fn update_fk_sets(p: &UpdatePlan, first: &Vec<Rows>) -> (r: Option<Vec<(Vec<char>, Option<BindValue>)>>)
    ensures
        match fk_sets(update_plans_view(p.links@), batch_view(first@)) {
            Some(sets) => r matches Some(v) && opt_sets_view(v@) == sets,
            None => r is None,
        },
{
    let ghost ls = update_plans_view(p.links@);
    let mut sets: Vec<(Vec<char>, Option<BindValue>)> = Vec::new();
    let mut new_k: usize = 0;
    let mut i: usize = 0;
    proof {
        assert(ls.take(0) =~= Seq::<UpdateLinkPlanView>::empty());
        assert(opt_sets_view(sets@) =~= Seq::<(Seq<char>, Option<BindView>)>::empty());
    }
    while i < p.links.len()
        invariant
            ls == update_plans_view(p.links@),
            i <= p.links@.len(),
            new_k == update_new_count(ls.take(i as int)),
            new_k <= i,
            fk_sets(ls.take(i as int), batch_view(first@)) == Some(opt_sets_view(sets@)),
        decreases p.links@.len() - i,
    {
        proof {
            lemma_update_links_step(ls, i as int);
        }
        let ghost before = opt_sets_view(sets@);
        match &p.links[i] {
            UpdateLinkPlan::Forward { to, id } => {
                sets.push((fk_column_chars(to), Some(BindValue::Int(*id))));
                proof {
                    assert(opt_sets_view(sets@) =~= before.push((fk_column(to@.name), Some(BindView::Int(*id as int)))));
                }
            },
            UpdateLinkPlan::New { to, .. } => {
                let id = match read_returned_id(first, new_k) {
                    Some(id) => id,
                    None => {
                        proof {
                            lemma_fk_sets_prefix_none(ls, batch_view(first@), i + 1);
                        }
                        return None;
                    },
                };
                sets.push((fk_column_chars(to), Some(BindValue::Int(id))));
                new_k = new_k + 1;
                proof {
                    assert(opt_sets_view(sets@) =~= before.push((fk_column(to@.name), Some(BindView::Int(id as int)))));
                }
            },
            UpdateLinkPlan::Null { to } => {
                sets.push((fk_column_chars(to), None));
                proof {
                    assert(opt_sets_view(sets@) =~= before.push((fk_column(to@.name), None)));
                }
            },
            _ => {},
        }
        i = i + 1;
    }
    proof {
        assert(ls.take(p.links@.len() as int) =~= ls);
    }
    Some(sets)
}

/// Writes the assignments of a `SET` clause, binding their values.
fn write_sets(b: &mut StatementBuilder, sets: &Vec<(Vec<char>, Option<BindValue>)>)
    ensures
        final(b).sql@ == old(b).sql@ + set_clause(opt_sets_view(sets@), old(b).binds@.len()).0,
        binds_view(final(b).binds@) == binds_view(old(b).binds@) + set_clause(opt_sets_view(sets@), old(b).binds@.len()).1,
{
    let ghost sv = opt_sets_view(sets@);
    let ghost n0 = old(b).binds@.len();
    let ghost start = b.sql@;
    let ghost start_binds = binds_view(b.binds@);
    let mut i: usize = 0;
    proof {
        assert(sv.take(0) =~= Seq::<(Seq<char>, Option<BindView>)>::empty());
        assert(b.sql@ =~= start + Seq::<char>::empty());
        assert(binds_view(b.binds@) =~= start_binds + Seq::<BindView>::empty());
        assert(start_binds.len() == n0);
    }
    while i < sets.len()
        invariant
            i <= sets@.len(),
            sv == opt_sets_view(sets@),
            n0 == old(b).binds@.len(),
            start_binds == binds_view(old(b).binds@),
            start_binds.len() == n0,
            b.sql@ == start + set_clause(sv.take(i as int), n0).0,
            binds_view(b.binds@) == start_binds + set_clause(sv.take(i as int), n0).1,
            b.binds@.len() == n0 + set_clause(sv.take(i as int), n0).1.len(),
        decreases sets@.len() - i,
    {
        proof {
            assert(sv.take(i + 1).drop_last() =~= sv.take(i as int));
            assert(sv.take(i + 1).last() == sv[i as int]);
        }
        if i > 0 {
            b.syntax(", ");
        }
        b.sanitize(&sets[i].0);
        let ghost before_binds = binds_view(b.binds@);
        match &sets[i].1 {
            Some(v) => {
                b.syntax(" = ");
                b.bind(copy_bind(v));
                proof {
                    assert(binds_view(b.binds@) =~= before_binds.push(v@));
                }
            },
            None => {
                b.syntax(" =  NULL");
            },
        }
        i = i + 1;
        proof {
            assert(b.sql@ =~= start + set_clause(sv.take(i as int), n0).0);
            assert(binds_view(b.binds@) =~= start_binds + set_clause(sv.take(i as int), n0).1);
            assert(binds_view(b.binds@).len() == b.binds@.len());
        }
    }
    proof {
        assert(sv.take(sets@.len() as int) =~= sv);
    }
}

/// The update of row `id` of `c` with `sets`, returning the row with the
/// reference columns `fks`.
pub fn update_statement(c: &DynamicCollection, sets: &Vec<(Vec<char>, Option<BindValue>)>, fks: &Vec<Vec<char>>, id: i64) -> (r: Statement)
    ensures
        r@ == update_view(c@, opt_sets_view(sets@), names_view(fks@), id as int),
{
    let table = chars_of(c.collection_name.pascal_case.as_str());
    let mut b = StatementBuilder::new();
    b.syntax("UPDATE ");
    b.sanitize(&table);
    b.syntax(" SET ");
    proof {
        assert(binds_view(b.binds@) =~= Seq::<BindView>::empty());
    }
    if sets.len() == 0 {
        b.sanitize_str("id");
        b.syntax(" = ");
        b.sanitize_str("id");
        proof {
            assert(opt_sets_view(sets@) =~= Seq::<(Seq<char>, Option<BindView>)>::empty());
        }
    } else {
        write_sets(&mut b, sets);
    }
    let ghost set_binds = binds_view(b.binds@);
    proof {
        assert(set_binds =~= set_clause(opt_sets_view(sets@), 0).1);
        assert(set_binds.len() == b.binds@.len());
    }
    b.syntax(" WHERE ");
    b.sanitize(&table);
    b.syntax(".");
    b.sanitize_str("id");
    b.syntax(" = ");
    b.bind(BindValue::Int(id));
    b.syntax(" RETURNING ");
    let names = c.field_names();
    let mut all: Vec<Vec<char>> = Vec::new();
    all.push(chars_of("id"));
    let mut i: usize = 0;
    while i < names.len()
        invariant
            i <= names@.len(),
            names_view(all@) == seq!["id"@] + names_view(names@).take(i as int),
        decreases names@.len() - i,
    {
        let ghost before = names_view(all@);
        all.push(copy_chars(&names[i]));
        proof {
            assert(names_view(all@) =~= before.push(names@[i as int]@));
            assert(names_view(names@).take(i + 1) =~= names_view(names@).take(i as int).push(names@[i as int]@));
        }
        i = i + 1;
    }
    let mut k: usize = 0;
    while k < fks.len()
        invariant
            k <= fks@.len(),
            names_view(all@) == seq!["id"@] + names_view(names@) + names_view(fks@).take(k as int),
        decreases fks@.len() - k,
    {
        let ghost before = names_view(all@);
        all.push(copy_chars(&fks[k]));
        proof {
            assert(names_view(all@) =~= before.push(fks@[k as int]@));
            assert(names_view(fks@).take(k + 1) =~= names_view(fks@).take(k as int).push(fks@[k as int]@));
        }
        k = k + 1;
    }
    proof {
        assert(names_view(names@).take(names@.len() as int) =~= names_view(names@));
        assert(names_view(fks@).take(fks@.len() as int) =~= names_view(fks@));
    }
    write_names(&mut b, &all);
    b.syntax(";");
    let columns = crate::insert::returning_specs(c, fks);
    let st = b.finish(columns);
    proof {
        let want = update_view(c@, opt_sets_view(sets@), names_view(fks@), id as int);
        assert(st@.sql =~= want.sql);
        assert(st@.binds =~= want.binds);
    }
    st
}

/// The reads and junction rows that follow the update of row `p.id`.
pub fn update_followup_statements(p: &UpdatePlan) -> (r: Vec<Statement>)
    ensures
        statements_view(r@) == update_followups(p.base@.name, p.id as int, update_plans_view(p.links@)),
{
    let ghost ls = update_plans_view(p.links@);
    let mut r: Vec<Statement> = Vec::new();
    let mut i: usize = 0;
    proof {
        assert(ls.take(0) =~= Seq::<UpdateLinkPlanView>::empty());
        assert(statements_view(r@) =~= Seq::<StatementView>::empty());
    }
    while i < p.links.len()
        invariant
            ls == update_plans_view(p.links@),
            i <= p.links@.len(),
            statements_view(r@) == update_followups(p.base@.name, p.id as int, ls.take(i as int)),
        decreases p.links@.len() - i,
    {
        proof {
            lemma_update_links_step(ls, i as int);
        }
        let ghost before = statements_view(r@);
        match &p.links[i] {
            UpdateLinkPlan::Forward { to, id } => {
                let st = select_by_id_statement(to, *id);
                r.push(st);
                proof {
                    assert(statements_view(r@) =~= before.push(select_by_id_view(to@, *id as int)));
                }
            },
            UpdateLinkPlan::Many { to, id } => {
                let j = junction_insert_statement(p.base.collection_name.snake_case.as_str(), to.collection_name.snake_case.as_str(), p.id, *id);
                let ghost jv = j@;
                r.push(j);
                let st = select_by_id_statement(to, *id);
                r.push(st);
                proof {
                    assert(jv.columns =~= Seq::<(Seq<char>, ColumnType, bool)>::empty());
                    assert(statements_view(r@) =~= before + seq![jv, select_by_id_view(to@, *id as int)]);
                }
            },
            UpdateLinkPlan::Remove { to, id } => {
                let st = select_by_id_statement(to, *id);
                r.push(st);
                let j = junction_delete_statement(p.base.collection_name.snake_case.as_str(), to.collection_name.snake_case.as_str(), p.id, *id);
                let ghost jv = j@;
                r.push(j);
                proof {
                    assert(jv.columns =~= Seq::<(Seq<char>, ColumnType, bool)>::empty());
                    assert(statements_view(r@) =~= before + seq![select_by_id_view(to@, *id as int), jv]);
                }
            },
            _ => {
                proof {
                    assert(statements_view(r@) =~= before + Seq::<StatementView>::empty());
                }
            },
        }
        i = i + 1;
    }
    proof {
        assert(ls.take(p.links@.len() as int) =~= ls);
    }
    r
}

/// Once some link change has no output, the list of outputs has none.
proof fn lemma_update_outputs_prefix_none(ls: Seq<UpdateLinkPlanView>, first: Seq<Seq<Seq<Json>>>, after: Seq<Seq<Seq<Json>>>, i: int)
    requires
        0 <= i <= ls.len(),
        update_link_outputs(ls.take(i), first, after) is None,
    ensures
        update_link_outputs(ls, first, after) is None,
    decreases ls.len() - i,
{
    if i < ls.len() {
        lemma_update_links_step(ls, i);
        lemma_update_outputs_prefix_none(ls, first, after, i + 1);
    } else {
        assert(ls.take(i) =~= ls);
    }
}

/// The answer of an update from the rows its statements returned.
pub fn update_result(p: &UpdatePlan, first: &Vec<Rows>, main: &Vec<Rows>, after: &Vec<Rows>) -> (r: Option<JsonValue>)
    ensures
        match update_answer(p.base@, update_plans_view(p.links@), batch_view(first@), batch_view(main@), batch_view(after@)) {
            Some(j) => r matches Some(v) && v@ == j,
            None => r is None,
        },
{
    let ghost ls = update_plans_view(p.links@);
    let ghost f = batch_view(first@);
    let ghost a = batch_view(after@);
    if main.len() == 0 || main[0].len() == 0 {
        proof {
            if main@.len() > 0 {
                assert(batch_view(main@)[0] == crate::session::rows_view(main@[0]@));
            }
        }
        return None;
    }
    let row = &main[0][0];
    proof {
        assert(batch_view(main@)[0] == crate::session::rows_view(main@[0]@));
        assert(crate::session::rows_view(main@[0]@)[0] == crate::statements::json_seq(row@));
    }
    if row.len() == 0 || row.len() - 1 < p.base.fields.len() {
        return None;
    }
    let mut outs: Vec<JsonValue> = Vec::new();
    let al = after.len();
    let fl = first.len();
    let mut new_k: usize = 0;
    let mut follow_k: usize = 0;
    let mut i: usize = 0;
    proof {
        assert(ls.take(0) =~= Seq::<UpdateLinkPlanView>::empty());
        assert(crate::statements::json_seq(outs@) =~= Seq::<Json>::empty());
    }
    while i < p.links.len()
        invariant
            ls == update_plans_view(p.links@),
            f == batch_view(first@),
            a == batch_view(after@),
            al == after@.len(),
            fl == first@.len(),
            f.len() == fl,
            a.len() == al,
            i <= p.links@.len(),
            new_k == update_new_count(ls.take(i as int)),
            follow_k == update_followup_count(ls.take(i as int)),
            update_link_outputs(ls.take(i as int), f, a) == Some(crate::statements::json_seq(outs@)),
        decreases p.links@.len() - i,
    {
        proof {
            lemma_update_links_step(ls, i as int);
        }
        let ghost before = crate::statements::json_seq(outs@);
        let o = match &p.links[i] {
            UpdateLinkPlan::Forward { to, .. } => {
                let o = first_row_output(to, after, follow_k);
                if o.is_some() {
                    follow_k = follow_k + 1;
                }
                o
            },
            UpdateLinkPlan::Many { to, .. } => {
                if follow_k >= after.len() {
                    None
                } else {
                    let o = first_row_output(to, after, follow_k + 1);
                    if o.is_some() {
                        follow_k = follow_k + 2;
                    }
                    o
                }
            },
            UpdateLinkPlan::Remove { to, .. } => {
                if after.len() == 0 || follow_k >= after.len() - 1 {
                    None
                } else {
                    let o = first_row_output(to, after, follow_k);
                    if o.is_some() {
                        follow_k = follow_k + 2;
                    }
                    o
                }
            },
            UpdateLinkPlan::New { to, .. } => {
                let o = first_row_output(to, first, new_k);
                if o.is_some() {
                    new_k = new_k + 1;
                }
                o
            },
            UpdateLinkPlan::Null { .. } => Some(JsonValue::Null),
        };
        match o {
            Some(v) => {
                outs.push(v);
                proof {
                    assert(crate::statements::json_seq(outs@) =~= before.push(v@));
                }
            },
            None => {
                proof {
                    lemma_update_outputs_prefix_none(ls, f, a, i + 1);
                }
                return None;
            },
        }
        i = i + 1;
    }
    proof {
        assert(ls.take(p.links@.len() as int) =~= ls);
    }
    Some(linked_record_output(&p.base, row, outs))
}

/// What an update asks for next, given the rows of the batches run so far.
pub fn update_step(p: &UpdatePlan, results: &Vec<Vec<Rows>>) -> (r: Step)
    requires
        update_plan_wf(*p),
    ensures
        r@ == update_step_spec(*p, results_view(results@)),
{
    let ghost rv = results_view(results@);
    let n = results.len();
    if n == 0 {
        return Step::Run(update_new_rows(p));
    }
    proof {
        assert(rv[0] == batch_view(results@[0]@));
    }
    if n == 1 {
        return match update_fk_sets(p, &results[0]) {
            Some(fks) => {
                let mut all: Vec<(Vec<char>, Option<BindValue>)> = Vec::new();
                let mut names: Vec<Vec<char>> = Vec::new();
                let mut i: usize = 0;
                while i < p.sets.len()
                    invariant
                        i <= p.sets@.len(),
                        opt_sets_view(all@) == data_sets(sets_view(p.sets@)).take(i as int),
                    decreases p.sets@.len() - i,
                {
                    let ghost before = opt_sets_view(all@);
                    all.push((copy_chars(&p.sets[i].0), Some(copy_bind(&p.sets[i].1))));
                    proof {
                        assert(opt_sets_view(all@) =~= before.push(data_sets(sets_view(p.sets@))[i as int]));
                        assert(data_sets(sets_view(p.sets@)).take(i + 1) =~= data_sets(sets_view(p.sets@)).take(i as int).push(
                            data_sets(sets_view(p.sets@))[i as int],
                        ));
                    }
                    i = i + 1;
                }
                let mut k: usize = 0;
                proof {
                    assert(data_sets(sets_view(p.sets@)).take(p.sets@.len() as int) =~= data_sets(sets_view(p.sets@)));
                    assert(opt_sets_view(fks@).take(0) =~= Seq::<(Seq<char>, Option<BindView>)>::empty());
                    assert(opt_sets_view(all@) =~= data_sets(sets_view(p.sets@)) + opt_sets_view(fks@).take(0));
                    assert(names_view(names@) =~= opt_sets_view(fks@).take(0).map_values(|s: (Seq<char>, Option<BindView>)| s.0));
                }
                while k < fks.len()
                    invariant
                        k <= fks@.len(),
                        opt_sets_view(all@) == data_sets(sets_view(p.sets@)) + opt_sets_view(fks@).take(k as int),
                        names_view(names@) == opt_sets_view(fks@).take(k as int).map_values(|s: (Seq<char>, Option<BindView>)| s.0),
                    decreases fks@.len() - k,
                {
                    let ghost b1 = opt_sets_view(all@);
                    let ghost b2 = names_view(names@);
                    let v = match &fks[k].1 {
                        Some(b) => Some(copy_bind(b)),
                        None => None,
                    };
                    all.push((copy_chars(&fks[k].0), v));
                    names.push(copy_chars(&fks[k].0));
                    proof {
                        assert(opt_sets_view(all@) =~= b1.push(opt_sets_view(fks@)[k as int]));
                        assert(names_view(names@) =~= b2.push(opt_sets_view(fks@)[k as int].0));
                        assert(opt_sets_view(fks@).take(k + 1) =~= opt_sets_view(fks@).take(k as int).push(opt_sets_view(fks@)[k as int]));
                    }
                    k = k + 1;
                }
                proof {
                    assert(opt_sets_view(fks@).take(fks@.len() as int) =~= opt_sets_view(fks@));
                }
                let st = update_statement(&p.base, &all, &names, p.id);
                let ghost sv = st@;
                let mut v: Vec<Statement> = Vec::new();
                v.push(st);
                proof {
                    assert(statements_view(v@) =~= seq![sv]);
                }
                Step::Run(v)
            },
            None => Step::Fail,
        };
    }
    proof {
        assert(rv[1] == batch_view(results@[1]@));
    }
    if results[1].len() == 0 {
        return Step::Fail;
    }
    proof {
        assert(rv[1][0] == crate::session::rows_view(results@[1]@[0]@));
    }
    if results[1][0].len() == 0 {
        return Step::Done(error("NotFound"));
    }
    if n == 2 {
        return Step::Run(update_followup_statements(p));
    }
    proof {
        assert(rv[2] == batch_view(results@[2]@));
    }
    match update_result(p, &results[0], &results[1], &results[2]) {
        Some(j) => Step::Done(output(j)),
        None => Step::Fail,
    }
}


impl UpdateOneError {
    /// The name of the error, as responses carry it.
    pub open spec fn spec_name(&self) -> Seq<char> {
        match self {
            UpdateOneError::CollectionNotFound => "CollectionNotFound"@,
            UpdateOneError::InvalidData => "InvalidData"@,
            UpdateOneError::NotFound => "NotFound"@,
            UpdateOneError::InvalidLink => "InvalidLink"@,
        }
    }

    /// The name of the error, as responses carry it.
    pub fn name(&self) -> (r: &'static str)
        ensures
            r@ == self.spec_name(),
    {
        match self {
            UpdateOneError::CollectionNotFound => "CollectionNotFound",
            UpdateOneError::InvalidData => "InvalidData",
            UpdateOneError::NotFound => "NotFound",
            UpdateOneError::InvalidLink => "InvalidLink",
        }
    }
}

} // verus!
