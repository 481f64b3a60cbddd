//! Deleting one row by its id, answering with the row and the rows it was
//! linked to.
use vstd::prelude::*;
use crate::fetch::{
    FetchLinkPlan, FetchLinkView, fetch_links_view, fetch_one_statement, fetch_one_view,
    fetched_links, ids_view, post_queries, post_query_statements, FetchLinkPlan as Plan,
};
use crate::filters::{SupportedFilter, binds_view, filters_ok, filters_view};
use crate::insert::{linked_record_json, returning_columns, results_view, field_names};
use crate::json::{Json, JsonValue};
use crate::query::{names_sql, write_names};
use crate::registry::{Registry, RegistryView, collection_named, fk_column, has_collection};
use crate::schema::{CollectionView, DynamicCollection};
use crate::session::{
    Rows, Step, StepView, StatementView, batch_view, error, error_response, output, output_response,
    rows_view, statements_view,
};
use crate::sql::{BindValue, BindView, Statement, StatementBuilder, marker, quoted};
use crate::statements::json_seq;
use crate::text::{chars_of, copy_chars};
use crate::values::names_view;

verus! {

/// A link whose rows a delete reports, as a request states it.
pub enum SupportedDeleteLink {
    /// The row of `to` that the deleted row referenced.
    OptionalToMany { to: String },
    /// The rows of `to` paired with the deleted row.
    ManyToMany { to: String },
}

/// A request to delete one row.
pub struct DeleteOneInput {
    pub base: String,
    pub id: i64,
    pub links: Vec<SupportedDeleteLink>,
}

/// Why a delete was refused or found nothing.
#[derive(Debug, PartialEq, Eq, Structural)]
pub enum DeleteOneError {
    CollectionNotFound,
    NotFound,
    InvalidLink,
}

/// A delete link by its plain parts.
pub enum DeleteLinkView {
    OptionalToMany(Seq<char>),
    ManyToMany(Seq<char>),
}

impl View for SupportedDeleteLink {
    type V = DeleteLinkView;

    open spec fn view(&self) -> DeleteLinkView {
        match self {
            SupportedDeleteLink::OptionalToMany { to } => DeleteLinkView::OptionalToMany(to@),
            SupportedDeleteLink::ManyToMany { to } => DeleteLinkView::ManyToMany(to@),
        }
    }
}

/// Delete links by their plain parts.
pub open spec fn delete_links_view(ls: Seq<SupportedDeleteLink>) -> Seq<DeleteLinkView> {
    ls.map_values(|l: SupportedDeleteLink| l@)
}

/// What a delete link of a row of `base` resolves to: a declared
/// reference from `base`, or a declared pairing.
pub open spec fn resolve_delete_link(r: RegistryView, base: Seq<char>, l: DeleteLinkView) -> Option<FetchLinkView> {
    match l {
        DeleteLinkView::OptionalToMany(to) => if has_collection(r.collections, to) && r.optional_to_many.contains((base, to)) {
            Some(FetchLinkView::Forward(collection_named(r.collections, to)))
        } else {
            None
        },
        DeleteLinkView::ManyToMany(to) => if has_collection(r.collections, to) && r.many_to_many.contains((base, to)) {
            Some(FetchLinkView::Many(collection_named(r.collections, to)))
        } else {
            None
        },
    }
}

/// All delete links resolved, or nothing where one does not resolve.
pub open spec fn resolve_delete_links(r: RegistryView, base: Seq<char>, ls: Seq<DeleteLinkView>) -> Option<Seq<FetchLinkView>>
    decreases ls.len(),
{
    if ls.len() == 0 {
        Some(Seq::empty())
    } else {
        match (resolve_delete_links(r, base, ls.drop_last()), resolve_delete_link(r, base, ls.last())) {
            (Some(rs), Some(l)) => Some(rs.push(l)),
            _ => None,
        }
    }
}

/// Why a delete is refused, if it is: an unknown collection, then a link
/// that does not resolve.
pub open spec fn delete_one_error(r: RegistryView, base: Seq<char>, ls: Seq<DeleteLinkView>) -> Option<DeleteOneError> {
    if !has_collection(r.collections, base) {
        Some(DeleteOneError::CollectionNotFound)
    } else if resolve_delete_links(r, base, ls) is None {
        Some(DeleteOneError::InvalidLink)
    } else {
        None
    }
}

/// An accepted delete.
pub struct DeletePlan {
    pub base: DynamicCollection,
    pub id: i64,
    pub links: Vec<FetchLinkPlan>,
}

/// Once some delete link does not resolve, the list does not.
proof fn lemma_resolve_delete_links_prefix(r: RegistryView, base: Seq<char>, ls: Seq<DeleteLinkView>, i: int)
    requires
        0 <= i <= ls.len(),
        resolve_delete_links(r, base, ls.take(i)) is None,
    ensures
        resolve_delete_links(r, base, ls) is None,
    decreases ls.len() - i,
{
    if i < ls.len() {
        assert(ls.take(i + 1).drop_last() =~= ls.take(i));
        lemma_resolve_delete_links_prefix(r, base, ls, i + 1);
    } else {
        assert(ls.take(i) =~= ls);
    }
}

/// Resolves a request to delete one row.
pub fn plan_delete_one(reg: &Registry, input: &DeleteOneInput) -> (r: Result<DeletePlan, DeleteOneError>)
    requires
        reg.wf(),
    ensures
        match delete_one_error(reg@, input.base@, delete_links_view(input.links@)) {
            Some(e) => r == Err::<DeletePlan, DeleteOneError>(e),
            None => r matches Ok(p) && {
                &&& p.base@ == collection_named(reg@.collections, input.base@)
                &&& p.id == input.id
                &&& Some(fetch_links_view(p.links@)) == resolve_delete_links(reg@, input.base@, delete_links_view(input.links@))
                &&& forall|i: int| 0 <= i < p.links@.len() ==> (#[trigger] fetch_links_view(p.links@)[i] is Forward
                    || fetch_links_view(p.links@)[i] is Many)
            },
        },
{
    let bi = match reg.find_collection(input.base.as_str()) {
        Some(bi) => bi,
        None => return Err(DeleteOneError::CollectionNotFound),
    };
    let ghost ls = delete_links_view(input.links@);
    let mut links: Vec<FetchLinkPlan> = Vec::new();
    let mut i: usize = 0;
    proof {
        assert(ls.take(0) =~= Seq::<DeleteLinkView>::empty());
        assert(fetch_links_view(links@) =~= Seq::<FetchLinkView>::empty());
    }
    while i < input.links.len()
        invariant
            reg.wf(),
            has_collection(reg@.collections, input.base@),
            bi < reg@.collections.len(),
            collection_named(reg@.collections, input.base@) == reg@.collections[bi as int],
            ls == delete_links_view(input.links@),
            i <= input.links@.len(),
            resolve_delete_links(reg@, input.base@, ls.take(i as int)) == Some(fetch_links_view(links@)),
            forall|k: int| 0 <= k < links@.len() ==> (#[trigger] fetch_links_view(links@)[k] is Forward
                || fetch_links_view(links@)[k] is Many),
        decreases input.links@.len() - i,
    {
        proof {
            assert(ls.take(i + 1).drop_last() =~= ls.take(i as int));
            assert(ls.take(i + 1).last() == input.links@[i as int]@);
        }
        let ghost before = fetch_links_view(links@);
        let resolved = match &input.links[i] {
            SupportedDeleteLink::OptionalToMany { to } => match reg.find_collection(to.as_str()) {
                Some(ti) => if reg.has_optional_to_many(&input.base, to) {
                    Some(FetchLinkPlan::Forward { to: reg.collection_at(ti).copy() })
                } else {
                    None
                },
                None => None,
            },
            SupportedDeleteLink::ManyToMany { to } => match reg.find_collection(to.as_str()) {
                Some(ti) => if reg.has_many_to_many(&input.base, to) {
                    Some(FetchLinkPlan::Many { to: reg.collection_at(ti).copy() })
                } else {
                    None
                },
                None => None,
            },
        };
        match resolved {
            Some(p) => {
                links.push(p);
                proof {
                    assert(fetch_links_view(links@) =~= before.push(links@.last()@));
                }
            },
            None => {
                proof {
                    assert(resolve_delete_link(reg@, input.base@, input.links@[i as int]@) is None);
                    assert(resolve_delete_links(reg@, input.base@, ls.take(i + 1)) is None);
                    lemma_resolve_delete_links_prefix(reg@, input.base@, ls, i + 1);
                }
                return Err(DeleteOneError::InvalidLink);
            },
        }
        i = i + 1;
    }
    proof {
        assert(ls.take(input.links@.len() as int) =~= ls);
    }
    Ok(DeletePlan { base: reg.collection_at(bi).copy(), id: input.id, links })
}

/// The reference columns of the links that reference other rows.
pub open spec fn forward_fks(ls: Seq<FetchLinkView>) -> Seq<Seq<char>>
    decreases ls.len(),
{
    if ls.len() == 0 {
        Seq::empty()
    } else {
        forward_fks(ls.drop_last()) + match ls.last() {
            FetchLinkView::Forward(c) => seq![fk_column(c.name)],
            _ => Seq::empty(),
        }
    }
}

/// The delete of row `id` of `c`, returning it with the reference columns
/// `fks`.
pub open spec fn delete_view(c: CollectionView, fks: Seq<Seq<char>>, id: int) -> StatementView {
    StatementView {
        sql: "DELETE FROM "@ + quoted(c.table) + " WHERE "@ + quoted(c.table) + "."@ + quoted("id"@) + " = "@
            + marker(1) + " RETURNING "@ + names_sql(seq!["id"@] + field_names(c) + fks) + ";"@,
        binds: seq![BindView::Int(id)],
        columns: returning_columns(c, fks),
    }
}

/// What a delete asks for after the given batches ran: the row and its
/// linked rows, then the delete, then the answer; `NotFound` where the
/// delete removed no row.
pub open spec fn delete_step_spec(p: DeletePlan, results: Seq<Seq<Seq<Seq<Json>>>>) -> StepView {
    let ls = fetch_links_view(p.links@);
    if results.len() == 0 {
        StepView::Run(seq![fetch_one_view(p.base@, ls, Seq::empty(), p.id as int)] + post_queries(p.base@, ls, seq![p.id as int]))
    } else if results.len() == 1 {
        StepView::Run(seq![delete_view(p.base@, forward_fks(ls), p.id as int)])
    } else if results[1].len() == 0 {
        StepView::Fail
    } else if results[1][0].len() == 0 {
        StepView::Done(error_response("NotFound"@))
    } else {
        let deleted = results[1][0][0];
        let pre = results[0];
        if pre.len() > 0 && pre[0].len() > 0 && deleted.len() >= 1 + p.base@.fields.len()
            && pre[0][0].len() >= 1 + p.base@.fields.len() + crate::fetch::width_sum(ls) && pre[0][0][0] is Int {
            match fetched_links(p.base@, ls, pre[0][0], pre.drop_first(), pre[0][0][0]->Int_0) {
                Some(outs) => StepView::Done(output_response(linked_record_json(p.base@.fields, deleted, outs))),
                None => StepView::Fail,
            }
        } else {
            StepView::Fail
        }
    }
}

/// The reference columns of the links that reference other rows.
fn forward_fk_names(links: &Vec<FetchLinkPlan>) -> (r: Vec<Vec<char>>)
    ensures
        names_view(r@) == forward_fks(fetch_links_view(links@)),
{
    let ghost ls = fetch_links_view(links@);
    let mut r: Vec<Vec<char>> = Vec::new();
    let mut i: usize = 0;
    proof {
        assert(ls.take(0) =~= Seq::<FetchLinkView>::empty());
        assert(names_view(r@) =~= Seq::<Seq<char>>::empty());
    }
    while i < links.len()
        invariant
            ls == fetch_links_view(links@),
            i <= links@.len(),
            names_view(r@) == forward_fks(ls.take(i as int)),
        decreases links@.len() - i,
    {
        proof {
            assert(ls.take(i + 1).drop_last() =~= ls.take(i as int));
            assert(ls.take(i + 1).last() == links@[i as int]@);
        }
        let ghost before = names_view(r@);
        match &links[i] {
            FetchLinkPlan::Forward { to } => {
                let mut s = String::new();
                s.append("fk_");
                s.append(to.collection_name.snake_case.as_str());
                s.append("_def");
                r.push(chars_of(s.as_str()));
                proof {
                    assert(s@ =~= fk_column(to@.name));
                    assert(names_view(r@) =~= before + seq![fk_column(to@.name)]);
                }
            },
            _ => {
                proof {
                    assert(names_view(r@) =~= before + Seq::<Seq<char>>::empty());
                }
            },
        }
        i = i + 1;
    }
    proof {
        assert(ls.take(links@.len() as int) =~= ls);
    }
    r
}

/// The delete of row `id` of `c`.
pub fn delete_statement(c: &DynamicCollection, fks: &Vec<Vec<char>>, id: i64) -> (r: Statement)
    ensures
        r@ == delete_view(c@, names_view(fks@), id as int),
{
    let table = chars_of(c.collection_name.pascal_case.as_str());
    let mut b = StatementBuilder::new();
    b.syntax("DELETE FROM ");
    b.sanitize(&table);
    b.syntax(" WHERE ");
    b.sanitize(&table);
    b.syntax(".");
    b.sanitize_str("id");
    b.syntax(" = ");
    b.bind(BindValue::Int(id));
    b.syntax(" RETURNING ");
    let names = c.field_names();
    let mut all: Vec<Vec<char>> = Vec::new();
    all.push(chars_of("id"));
    let mut i: usize = 0;
    while i < names.len()
        invariant
            i <= names@.len(),
            names_view(all@) == seq!["id"@] + names_view(names@).take(i as int),
        decreases names@.len() - i,
    {
        let ghost before = names_view(all@);
        all.push(copy_chars(&names[i]));
        proof {
            assert(names_view(all@) =~= before.push(names@[i as int]@));
            assert(names_view(names@).take(i + 1) =~= names_view(names@).take(i as int).push(names@[i as int]@));
        }
        i = i + 1;
    }
    let mut k: usize = 0;
    while k < fks.len()
        invariant
            k <= fks@.len(),
            names_view(all@) == seq!["id"@] + names_view(names@) + names_view(fks@).take(k as int),
        decreases fks@.len() - k,
    {
        let ghost before = names_view(all@);
        all.push(copy_chars(&fks[k]));
        proof {
            assert(names_view(all@) =~= before.push(fks@[k as int]@));
            assert(names_view(fks@).take(k + 1) =~= names_view(fks@).take(k as int).push(fks@[k as int]@));
        }
        k = k + 1;
    }
    proof {
        assert(names_view(names@).take(names@.len() as int) =~= names_view(names@));
        assert(names_view(fks@).take(fks@.len() as int) =~= names_view(fks@));
    }
    write_names(&mut b, &all);
    b.syntax(";");
    let columns = crate::insert::returning_specs(c, fks);
    let st = b.finish(columns);
    proof {
        let want = delete_view(c@, names_view(fks@), id as int);
        assert(st@.sql =~= want.sql);
        assert(st@.binds =~= want.binds);
    }
    st
}

/// Inserting, reading and deleting a row without links agree on it: given
/// the same row back from the database (its id, then its fields), the
/// insert, the read of one row and the delete each answer with the same
/// record, `{"id", "attributes", "links": []}`; a read or a delete that
/// gets no row back answers `NotFound`, as a second delete of the same row
/// does.
pub proof fn insert_fetch_delete_answer_the_same_row(
    ip: crate::insert::InsertPlan,
    fp: crate::fetch::FetchOnePlan,
    dp: DeletePlan,
    row: Seq<Json>,
    pre: Seq<Seq<Seq<Json>>>,
)
    requires
        ip.links@.len() == 0,
        fp.links@.len() == 0,
        dp.links@.len() == 0,
        ip.base@ == fp.base@,
        dp.base@ == fp.base@,
        row.len() == 1 + fp.base@.fields.len(),
        row[0] is Int,
    ensures
        ({
            let answer = output_response(linked_record_json(fp.base@.fields, row, Seq::empty()));
            &&& crate::insert::insert_step_spec(ip, seq![Seq::empty(), seq![seq![row]], Seq::empty()])
                == StepView::Done(answer)
            &&& crate::fetch::fetch_one_step_spec(fp, seq![seq![seq![row]], Seq::empty()]) == StepView::Done(answer)
            &&& delete_step_spec(dp, seq![seq![seq![row]], seq![seq![row]]]) == StepView::Done(answer)
        }),
        crate::fetch::fetch_one_step_spec(fp, seq![seq![Seq::empty()]]) == StepView::Done(error_response("NotFound"@)),
        delete_step_spec(dp, seq![pre, seq![Seq::empty()]]) == StepView::Done(error_response("NotFound"@)),
{
    let ils = crate::insert::link_plans_view(ip.links@);
    assert(ils.len() == 0);
    assert(crate::insert::link_outputs(ils, Seq::empty(), Seq::empty()) == Some(Seq::<Json>::empty()));
    let fls = fetch_links_view(fp.links@);
    assert(fls.len() == 0);
    assert(crate::fetch::width_sum(fls) == 0);
    let dls = fetch_links_view(dp.links@);
    assert(dls.len() == 0);
    assert(crate::fetch::width_sum(dls) == 0);
    let dres = seq![seq![seq![row]], seq![seq![row]]];
    assert(dres[1][0][0] == row);
    assert(dres[0][0][0] == row);
}

/// What a delete asks for next, given the rows of the batches run so far.
pub fn delete_step(p: &DeletePlan, results: &Vec<Vec<Rows>>) -> (r: Step)
    ensures
        r@ == delete_step_spec(*p, results_view(results@)),
{
    let ghost rv = results_view(results@);
    let ghost ls = fetch_links_view(p.links@);
    let n = results.len();
    if n == 0 {
        let filters: Vec<SupportedFilter> = Vec::new();
        proof {
            assert(filters_view(filters@) =~= Seq::<crate::filters::FilterView>::empty());
        }
        let pre = fetch_one_statement(&p.base, &p.links, &filters, p.id);
        let ghost prev = pre@;
        let mut ids: Vec<i64> = Vec::new();
        ids.push(p.id);
        proof {
            assert(ids_view(ids@) =~= seq![p.id as int]);
        }
        let posts = post_query_statements(&p.base, &p.links, &ids);
        let ghost postv = statements_view(posts@);
        let mut v: Vec<Statement> = Vec::new();
        v.push(pre);
        let mut posts = posts;
        let ghost pv = v@;
        let ghost qv = posts@;
        v.append(&mut posts);
        proof {
            assert(v@ =~= pv + qv);
            assert(statements_view(v@) =~= seq![prev] + postv);
        }
        return Step::Run(v);
    }
    if n == 1 {
        let fks = forward_fk_names(&p.links);
        let st = delete_statement(&p.base, &fks, p.id);
        let ghost sv = st@;
        let mut v: Vec<Statement> = Vec::new();
        v.push(st);
        proof {
            assert(statements_view(v@) =~= seq![sv]);
        }
        return Step::Run(v);
    }
    proof {
        assert(rv[1] == batch_view(results@[1]@));
        assert(rv[0] == batch_view(results@[0]@));
    }
    if results[1].len() == 0 {
        return Step::Fail;
    }
    proof {
        assert(rv[1][0] == rows_view(results@[1]@[0]@));
    }
    if results[1][0].len() == 0 {
        return Step::Done(error("NotFound"));
    }
    let deleted = &results[1][0][0];
    proof {
        assert(rv[1][0][0] == json_seq(deleted@));
    }
    let pre = &results[0];
    if pre.len() == 0 || pre[0].len() == 0 {
        proof {
            if pre@.len() > 0 {
                assert(rv[0][0] == rows_view(pre@[0]@));
            }
        }
        return Step::Fail;
    }
    proof {
        assert(rv[0][0] == rows_view(pre@[0]@));
        assert(rv[0][0][0] == json_seq(pre@[0]@[0]@));
    }
    if deleted.len() == 0 || deleted.len() - 1 < p.base.fields.len() {
        return Step::Fail;
    }
    let pre_row = &pre[0][0];
    let pid = match pre_row.len() {
        0 => return Step::Fail,
        _ => match &pre_row[0] {
            JsonValue::Int(x) => *x,
            _ => return Step::Fail,
        },
    };
    if pre_row.len() - 1 < p.base.fields.len() {
        return Step::Fail;
    }
    let rest = crate::delete::tail_batches(pre);
    proof {
        assert(batch_view(rest@) =~= rv[0].drop_first());
    }
    match crate::fetch::fetched_links_output(&p.base, &p.links, pre_row, &rest, pid) {
        Some(outs) => Step::Done(output(crate::insert::linked_record_output(&p.base, deleted, outs))),
        None => Step::Fail,
    }
}

/// The batches after the first.
pub fn tail_batches(b: &Vec<Rows>) -> (r: Vec<Rows>)
    requires
        b@.len() > 0,
    ensures
        batch_view(r@) == batch_view(b@).drop_first(),
{
    let mut r: Vec<Rows> = Vec::new();
    let mut i: usize = 1;
    while i < b.len()
        invariant
            1 <= i <= b@.len(),
            batch_view(r@) == batch_view(b@).subrange(1, i as int),
        decreases b@.len() - i,
    {
        let ghost before = batch_view(r@);
        let rows = copy_rows(&b[i]);
        r.push(rows);
        proof {
            assert(batch_view(r@) =~= before.push(batch_view(b@)[i as int]));
            assert(batch_view(b@).subrange(1, i + 1) =~= batch_view(b@).subrange(1, i as int).push(batch_view(b@)[i as int]));
        }
        i = i + 1;
    }
    proof {
        assert(batch_view(b@).subrange(1, b@.len() as int) =~= batch_view(b@).drop_first());
    }
    r
}

/// A copy of the rows of a statement.
pub fn copy_rows(rows: &Rows) -> (r: Rows)
    ensures
        rows_view(r@) == rows_view(rows@),
{
    let mut r: Rows = Vec::new();
    let mut i: usize = 0;
    while i < rows.len()
        invariant
            i <= rows@.len(),
            rows_view(r@) == rows_view(rows@).take(i as int),
        decreases rows@.len() - i,
    {
        let row = &rows[i];
        let mut c: Vec<JsonValue> = Vec::new();
        let mut k: usize = 0;
        while k < row.len()
            invariant
                k <= row@.len(),
                json_seq(c@) == json_seq(row@).take(k as int),
            decreases row@.len() - k,
        {
            let ghost b = json_seq(c@);
            c.push(crate::json::clone_json(&row[k]));
            proof {
                assert(json_seq(c@) =~= b.push(json_seq(row@)[k as int]));
                assert(json_seq(row@).take(k + 1) =~= json_seq(row@).take(k as int).push(json_seq(row@)[k as int]));
            }
            k = k + 1;
        }
        proof {
            assert(json_seq(row@).take(row@.len() as int) =~= json_seq(row@));
        }
        let ghost before = rows_view(r@);
        r.push(c);
        proof {
            assert(rows_view(r@) =~= before.push(json_seq(row@)));
            assert(rows_view(rows@).take(i + 1) =~= rows_view(rows@).take(i as int).push(rows_view(rows@)[i as int]));
        }
        i = i + 1;
    }
    proof {
        assert(rows_view(rows@).take(rows@.len() as int) =~= rows_view(rows@));
    }
    r
}


impl DeleteOneError {
    /// The name of the error, as responses carry it.
    pub open spec fn spec_name(&self) -> Seq<char> {
        match self {
            DeleteOneError::CollectionNotFound => "CollectionNotFound"@,
            DeleteOneError::NotFound => "NotFound"@,
            DeleteOneError::InvalidLink => "InvalidLink"@,
        }
    }

    /// The name of the error, as responses carry it.
    pub fn name(&self) -> (r: &'static str)
        ensures
            r@ == self.spec_name(),
    {
        match self {
            DeleteOneError::CollectionNotFound => "CollectionNotFound",
            DeleteOneError::NotFound => "NotFound",
            DeleteOneError::InvalidLink => "InvalidLink",
        }
    }
}

} // verus!
