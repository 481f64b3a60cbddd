//! Reading a page of rows: filtered, ordered, starting at a cursor, with
//! the item that starts the next page.
use vstd::prelude::*;
use crate::fetch::{
    FetchLinkPlan, FetchLinkView, SupportedLinkFetchOne, check_filters, fetch_items, fetch_items_of,
    fetch_joins_of, fetch_links_input_view, fetch_links_view, fetched_record, fetched_record_output,
    ids_view, link_joins, post_queries, post_query_statements, resolve_fetch_links, resolve_links,
    FetchLinkInputView,
};
use crate::filters::{FilterView, SupportedFilter, binds_view, filter_text, filters_ok, filters_text, filters_view};
use crate::json::{Json, JsonValue, nat_text, write_nat};
use crate::query::{SelectItemView, item_columns, select_head_sql, write_select_head};
use crate::registry::{Registry, RegistryView, collection_named, has_collection};
use crate::schema::{CollectionView, DynamicCollection, FieldView, fields_view, find_field, find_field_spec};
use crate::session::{Rows, Step, StepView, StatementView, batch_view, output, output_response, rows_view, statements_view};
use crate::sql::{BindValue, BindView, Statement, StatementBuilder, marker, quoted};
use crate::statements::{copy_bind, json_seq};
use crate::text::{chars_of, copy_chars};
use crate::values::{bind_for, entries_view, lookup_key, value_fits, to_bind, get_member_chars};

verus! {

/// The links a page read follows: those of a read of one row.
pub type SupportedLinkFetchMany = SupportedLinkFetchOne;

/// The order of a column.
#[derive(Debug, Clone, Copy, PartialEq, Eq, Structural)]
pub enum Direction {
    Asc,
    Desc,
}

/// A column to order by.
pub struct OrderBy {
    pub col: String,
    pub direction: Direction,
}

/// The item a page starts at: its id and its values of the ordered
/// columns.
pub struct FirstItem {
    pub id: i64,
    pub data: Vec<(Vec<char>, JsonValue)>,
}

/// How many rows to read, from where, in what order.
pub struct Pagination {
    pub limit: i64,
    pub first_item: Option<FirstItem>,
    pub order_by: Vec<OrderBy>,
}

/// A request to read a page of rows.
pub struct FetchManyInput {
    pub base: String,
    pub filters: Vec<SupportedFilter>,
    pub links: Vec<SupportedLinkFetchMany>,
    pub pagination: Pagination,
}

/// Why a page read was refused.
#[derive(Debug, PartialEq, Eq, Structural)]
pub enum FetchManyError {
    CollectionNotFound,
    InvalidData,
    LinkNotSetUpForThisBase,
    InvalidFilter,
    InvalidLink,
    InvalidOrderBy,
    InvalidFirstItem,
}

/// The number of rows a page holds: the requested number, kept between 0
/// and 100.
pub open spec fn clamp_limit(limit: int) -> nat {
    if limit < 0 {
        0
    } else if limit > 100 {
        100
    } else {
        limit as nat
    }
}

/// The ordered columns by their names.
pub open spec fn order_names(os: Seq<OrderBy>) -> Seq<Seq<char>> {
    os.map_values(|o: OrderBy| o.col@)
}

/// Whether the columns to order by are fields of the collection, each
/// named once.
pub open spec fn order_ok(fields: Seq<FieldView>, names: Seq<Seq<char>>) -> bool {
    &&& forall|i: int| 0 <= i < names.len() ==> find_field_spec(fields, #[trigger] names[i]) is Some
    &&& forall|i: int, j: int| 0 <= i < j < names.len() ==> #[trigger] names[i] != #[trigger] names[j]
}

/// Whether the first item is usable: each of its values names a field and
/// fits it, and it has a value for each ordered column.
pub open spec fn first_item_ok(fields: Seq<FieldView>, names: Seq<Seq<char>>, data: Seq<(Seq<char>, Json)>) -> bool {
    &&& forall|k: int|
        0 <= k < data.len() ==> match find_field_spec(fields, (#[trigger] data[k]).0) {
            Some(f) => value_fits(f.ty, f.optional, data[k].1),
            None => false,
        }
    &&& forall|i: int| 0 <= i < names.len() ==> lookup_key(data, #[trigger] names[i]) is Some
}

/// Why a page read is refused, if it is: an unknown collection, a filter
/// that does not apply, a link that does not resolve, an ordering on
/// something other than distinct fields, an unusable first item.
pub open spec fn fetch_many_error(
    r: RegistryView,
    base: Seq<char>,
    fs: Seq<FilterView>,
    ls: Seq<FetchLinkInputView>,
    names: Seq<Seq<char>>,
    first: Option<Seq<(Seq<char>, Json)>>,
) -> Option<FetchManyError> {
    if !has_collection(r.collections, base) {
        Some(FetchManyError::CollectionNotFound)
    } else if !filters_ok(fs, collection_named(r.collections, base).fields) {
        Some(FetchManyError::InvalidFilter)
    } else if resolve_links(r, base, ls) is None {
        Some(FetchManyError::InvalidLink)
    } else if !order_ok(collection_named(r.collections, base).fields, names) {
        Some(FetchManyError::InvalidOrderBy)
    } else if first matches Some(d) && !first_item_ok(collection_named(r.collections, base).fields, names, d) {
        Some(FetchManyError::InvalidFirstItem)
    } else {
        None
    }
}

/// An ordered column, resolved: its name, whether descending, and its
/// position among the fields.
pub struct OrderPlan {
    pub col: Vec<char>,
    pub desc: bool,
    pub field: usize,
}

/// An accepted page read.
pub struct FetchManyPlan {
    pub base: DynamicCollection,
    pub links: Vec<FetchLinkPlan>,
    pub filters: Vec<SupportedFilter>,
    pub limit: u64,
    pub order: Vec<OrderPlan>,
    /// The first item's id and its value of each ordered column.
    pub first: Option<(i64, Vec<BindValue>)>,
}

/// Ordered columns by their plain parts.
pub open spec fn orders_view(v: Seq<OrderPlan>) -> Seq<(Seq<char>, bool, int)> {
    v.map_values(|o: OrderPlan| (o.col@, o.desc, o.field as int))
}

/// The ordered columns a request resolves to.
pub open spec fn resolve_order(fields: Seq<FieldView>, os: Seq<OrderBy>) -> Seq<(Seq<char>, bool)> {
    os.map_values(|o: OrderBy| (o.col@, o.direction == Direction::Desc))
}

/// The cursor values of the first item: for each ordered column, the value
/// bound for its field.
pub open spec fn cursor_values(fields: Seq<FieldView>, names: Seq<Seq<char>>, data: Seq<(Seq<char>, Json)>) -> Seq<BindView> {
    names.map_values(|n: Seq<char>| bind_for(find_field_spec(fields, n).unwrap().ty, lookup_key(data, n).unwrap()))
}

/// Whether the plan holds, for each ordered column, the position of its
/// field.
pub open spec fn fetch_many_plan_wf(p: FetchManyPlan) -> bool {
    &&& forall|i: int|
        0 <= i < p.order@.len() ==> {
            &&& (#[trigger] p.order@[i]).field < p.base@.fields.len()
            &&& p.base@.fields[p.order@[i].field as int].name == p.order@[i].col@
        }
    &&& p.first matches Some(f) ==> f.1@.len() == p.order@.len()
    &&& p.limit <= 100
    &&& filters_ok(filters_view(p.filters@), p.base@.fields)
    &&& crate::registry::no_repeats(orders_view(p.order@).map_values(|o: (Seq<char>, bool, int)| o.0))
}

/// The first item's values, if there is one.
pub open spec fn first_data(p: Pagination) -> Option<Seq<(Seq<char>, Json)>> {
    match p.first_item {
        Some(fi) => Some(entries_view(fi.data@)),
        None => None,
    }
}

/// A key found by lookup is held by some entry.
proof fn lemma_lookup_index(es: Seq<(Seq<char>, Json)>, key: Seq<char>) -> (k: int)
    requires
        lookup_key(es, key) is Some,
    ensures
        0 <= k < es.len(),
        es[k].0 == key,
        es[k].1 == lookup_key(es, key).unwrap(),
    decreases es.len(),
{
    if es[0].0 == key {
        0
    } else {
        let j = lemma_lookup_index(es.drop_first(), key);
        j + 1
    }
}

/// Resolves the columns to order by.
fn plan_order(base: &DynamicCollection, os: &Vec<OrderBy>) -> (r: Option<Vec<OrderPlan>>)
    ensures
        r is Some <==> order_ok(base@.fields, order_names(os@)),
        r matches Some(v) ==> {
            &&& v@.len() == os@.len()
            &&& forall|i: int|
                0 <= i < v@.len() ==> {
                    &&& (#[trigger] v@[i]).col@ == os@[i].col@
                    &&& v@[i].desc == (os@[i].direction == Direction::Desc)
                    &&& v@[i].field < base@.fields.len()
                    &&& find_field_spec(base@.fields, v@[i].col@) == Some(base@.fields[v@[i].field as int])
                    &&& base@.fields[v@[i].field as int].name == v@[i].col@
                }
        },
{
    let ghost names = order_names(os@);
    proof {
        assert(fields_view(base.fields@) == base@.fields);
    }
    let mut v: Vec<OrderPlan> = Vec::new();
    let mut i: usize = 0;
    while i < os.len()
        invariant
            i <= os@.len(),
            names == order_names(os@),
            fields_view(base.fields@) == base@.fields,
            v@.len() == i,
            forall|k: int| 0 <= k < i ==> find_field_spec(base@.fields, #[trigger] names[k]) is Some,
            forall|a: int, b: int| 0 <= a < b < i ==> #[trigger] names[a] != #[trigger] names[b],
            forall|k: int|
                0 <= k < i ==> {
                    &&& (#[trigger] v@[k]).col@ == os@[k].col@
                    &&& v@[k].desc == (os@[k].direction == Direction::Desc)
                    &&& v@[k].field < base@.fields.len()
                    &&& find_field_spec(base@.fields, v@[k].col@) == Some(base@.fields[v@[k].field as int])
                    &&& base@.fields[v@[k].field as int].name == v@[k].col@
                },
        decreases os@.len() - i,
    {
        let col = chars_of(os[i].col.as_str());
        let idx = match find_field(&base.fields, &col) {
            Some(idx) => idx,
            None => {
                assert(find_field_spec(base@.fields, names[i as int]) is None);
                return None;
            },
        };
        let mut j: usize = 0;
        while j < i
            invariant
                j <= i,
                i < os@.len(),
                v@.len() == i,
                names == order_names(os@),
                col@ == names[i as int],
                forall|k: int| 0 <= k < i ==> (#[trigger] v@[k]).col@ == os@[k].col@,
                forall|a: int| 0 <= a < j ==> #[trigger] names[a] != names[i as int],
            decreases i - j,
        {
            if crate::text::chars_eq(&v[j].col, &col) {
                assert(names[j as int] == names[i as int]);
                return None;
            }
            j = j + 1;
        }
        proof {
            assert(base.fields@[idx as int]@ == base@.fields[idx as int]);
            assert(find_field_spec(base@.fields, col@) == Some(base@.fields[idx as int]));
            lemma_find_field_name(base@.fields, col@);
        }
        v.push(OrderPlan { col, desc: os[i].direction == Direction::Desc, field: idx });
        i = i + 1;
    }
    Some(v)
}

/// A field found by name has that name.
proof fn lemma_find_field_name(fields: Seq<FieldView>, name: Seq<char>)
    requires
        find_field_spec(fields, name) is Some,
    ensures
        find_field_spec(fields, name).unwrap().name == name,
    decreases fields.len(),
{
    if fields[0].name != name {
        lemma_find_field_name(fields.drop_first(), name);
    }
}

/// Checks the first item and reads its value of each ordered column.
fn plan_first(base: &DynamicCollection, order: &Vec<OrderPlan>, data: &Vec<(Vec<char>, JsonValue)>) -> (r: Option<Vec<BindValue>>)
    requires
        forall|i: int|
            0 <= i < order@.len() ==> {
                &&& (#[trigger] order@[i]).field < base@.fields.len()
                &&& find_field_spec(base@.fields, order@[i].col@) == Some(base@.fields[order@[i].field as int])
            },
    ensures
        r is Some <==> first_item_ok(base@.fields, orders_view(order@).map_values(|o: (Seq<char>, bool, int)| o.0), entries_view(data@)),
        r matches Some(v) ==> binds_view(v@) == cursor_values(
            base@.fields,
            orders_view(order@).map_values(|o: (Seq<char>, bool, int)| o.0),
            entries_view(data@),
        ),
{
    let ghost names = orders_view(order@).map_values(|o: (Seq<char>, bool, int)| o.0);
    let ghost es = entries_view(data@);
    proof {
        assert(fields_view(base.fields@) == base@.fields);
    }
    let mut k: usize = 0;
    while k < data.len()
        invariant
            k <= data@.len(),
            es == entries_view(data@),
            fields_view(base.fields@) == base@.fields,
            forall|q: int|
                0 <= q < k ==> match find_field_spec(base@.fields, (#[trigger] es[q]).0) {
                    Some(f) => value_fits(f.ty, f.optional, es[q].1),
                    None => false,
                },
        decreases data@.len() - k,
    {
        let fi = match find_field(&base.fields, &data[k].0) {
            Some(fi) => fi,
            None => {
                assert(find_field_spec(base@.fields, es[k as int].0) is None);
                return None;
            },
        };
        let f = &base.fields[fi];
        if to_bind(&f.type_info, f.is_optional, &data[k].1).is_err() {
            assert(!value_fits(f@.ty, f@.optional, es[k as int].1));
            return None;
        }
        k = k + 1;
    }
    let mut v: Vec<BindValue> = Vec::new();
    let mut i: usize = 0;
    while i < order.len()
        invariant
            i <= order@.len(),
            es == entries_view(data@),
            names == orders_view(order@).map_values(|o: (Seq<char>, bool, int)| o.0),
            fields_view(base.fields@) == base@.fields,
            forall|q: int|
                0 <= q < es.len() ==> match find_field_spec(base@.fields, (#[trigger] es[q]).0) {
                    Some(f) => value_fits(f.ty, f.optional, es[q].1),
                    None => false,
                },
            forall|q: int|
                0 <= q < order@.len() ==> {
                    &&& (#[trigger] order@[q]).field < base@.fields.len()
                    &&& find_field_spec(base@.fields, order@[q].col@) == Some(base@.fields[order@[q].field as int])
                },
            forall|q: int| 0 <= q < i ==> lookup_key(es, #[trigger] names[q]) is Some,
            binds_view(v@) == cursor_values(base@.fields, names.take(i as int), es),
        decreases order@.len() - i,
    {
        let o = &order[i];
        proof {
            assert(names[i as int] == o.col@);
        }
        let value = match get_member_chars(data, &o.col) {
            Some(value) => value,
            None => {
                assert(lookup_key(es, names[i as int]) is None);
                return None;
            },
        };
        let f = &base.fields[o.field];
        let bind = match to_bind(&f.type_info, f.is_optional, value) {
            Ok(b) => b,
            Err(_) => {
                proof {
                    let q = lemma_lookup_index(es, o.col@);
                    assert(es[q].0 == o.col@);
                    assert(f@ == base@.fields[o.field as int]);
                }
                return None;
            },
        };
        let ghost before = binds_view(v@);
        v.push(bind);
        proof {
            assert(f@ == base@.fields[o.field as int]);
            assert(binds_view(v@) =~= before.push(bind_for(find_field_spec(base@.fields, names[i as int]).unwrap().ty, lookup_key(es, names[i as int]).unwrap())));
            assert(cursor_values(base@.fields, names.take(i + 1), es) =~= cursor_values(base@.fields, names.take(i as int), es).push(
                bind_for(find_field_spec(base@.fields, names[i as int]).unwrap().ty, lookup_key(es, names[i as int]).unwrap()),
            ));
        }
        i = i + 1;
    }
    proof {
        assert(names.take(order@.len() as int) =~= names);
    }
    Some(v)
}

/// Resolves a request to read a page of rows.
pub fn plan_fetch_many(reg: &Registry, input: FetchManyInput) -> (r: Result<FetchManyPlan, FetchManyError>)
    requires
        reg.wf(),
    ensures
        match fetch_many_error(
            reg@,
            input.base@,
            filters_view(input.filters@),
            fetch_links_input_view(input.links@),
            order_names(input.pagination.order_by@),
            first_data(input.pagination),
        ) {
            Some(e) => r == Err::<FetchManyPlan, FetchManyError>(e),
            None => r matches Ok(p) && {
                &&& fetch_many_plan_wf(p)
                &&& p.base@ == collection_named(reg@.collections, input.base@)
                &&& Some(fetch_links_view(p.links@)) == resolve_links(reg@, input.base@, fetch_links_input_view(input.links@))
                &&& filters_view(p.filters@) == filters_view(input.filters@)
                &&& p.limit == clamp_limit(input.pagination.limit as int)
                &&& orders_view(p.order@).map_values(|o: (Seq<char>, bool, int)| (o.0, o.1)) == resolve_order(
                    p.base@.fields,
                    input.pagination.order_by@,
                )
                &&& match (input.pagination.first_item, p.first) {
                    (Some(fi), Some(f)) => f.0 == fi.id && binds_view(f.1@) == cursor_values(
                        p.base@.fields,
                        order_names(input.pagination.order_by@),
                        entries_view(fi.data@),
                    ),
                    (None, None) => true,
                    _ => false,
                }
            },
        },
{
    let bi = match reg.find_collection(input.base.as_str()) {
        Some(bi) => bi,
        None => return Err(FetchManyError::CollectionNotFound),
    };
    let base = reg.collection_at(bi);
    proof {
        assert(fields_view(base.fields@) == base@.fields);
    }
    if !check_filters(&input.filters, &base.fields) {
        return Err(FetchManyError::InvalidFilter);
    }
    let links = match resolve_fetch_links(reg, &input.base, &input.links) {
        Some(l) => l,
        None => return Err(FetchManyError::InvalidLink),
    };
    let limit: u64 = if input.pagination.limit < 0 {
        0
    } else if input.pagination.limit > 100 {
        100
    } else {
        input.pagination.limit as u64
    };
    let order = match plan_order(base, &input.pagination.order_by) {
        Some(o) => o,
        None => return Err(FetchManyError::InvalidOrderBy),
    };
    proof {
        assert(orders_view(order@).map_values(|o: (Seq<char>, bool, int)| o.0) =~= order_names(input.pagination.order_by@));
        assert(orders_view(order@).map_values(|o: (Seq<char>, bool, int)| (o.0, o.1)) =~= resolve_order(
            base@.fields,
            input.pagination.order_by@,
        ));
    }
    let first = match &input.pagination.first_item {
        Some(fi) => match plan_first(base, &order, &fi.data) {
            Some(values) => Some((fi.id, values)),
            None => return Err(FetchManyError::InvalidFirstItem),
        },
        None => None,
    };
    let p = FetchManyPlan { base: base.copy(), links, filters: input.filters, limit, order, first };
    proof {
        let names = orders_view(p.order@).map_values(|o: (Seq<char>, bool, int)| o.0);
        assert forall|i: int, j: int| 0 <= i < names.len() && 0 <= j < names.len() && i != j implies names[i] != names[j] by {
            if i < j {
                assert(order_names(input.pagination.order_by@)[i] != order_names(input.pagination.order_by@)[j]);
            } else {
                assert(order_names(input.pagination.order_by@)[j] != order_names(input.pagination.order_by@)[i]);
            }
        }
        if p.first is Some {
            assert(binds_view(p.first->Some_0.1@).len() == p.first->Some_0.1@.len());
        }
    }
    Ok(p)
}

/// The ordered columns of a plan by name and direction.
pub open spec fn plan_orders(p: FetchManyPlan) -> Seq<(Seq<char>, bool)> {
    orders_view(p.order@).map_values(|o: (Seq<char>, bool, int)| (o.0, o.1))
}

/// One term of the `ORDER BY` clause.
pub open spec fn order_term(t: Seq<char>, o: (Seq<char>, bool)) -> Seq<char> {
    quoted(t) + "."@ + quoted(o.0) + if o.1 {
        " DESC"@
    } else {
        " ASC"@
    }
}

/// How SQL sorts by the term `term` of an `ORDER BY` clause over column
/// `c` of table `t`: `"t"."c" ASC` sorts each row's value at most the next
/// row's (ascending), `"t"."c" DESC` at least the next row's (descending);
/// any other text does not sort by that column.
pub open spec fn sql_term_ascending(term: Seq<char>, t: Seq<char>, c: Seq<char>) -> Option<bool> {
    if term == quoted(t) + "."@ + quoted(c) + " ASC"@ {
        Some(true)
    } else if term == quoted(t) + "."@ + quoted(c) + " DESC"@ {
        Some(false)
    } else {
        None
    }
}

/// A page comes in the requested order: the term written for a column the
/// request orders `asc` sorts it ascending, the term for one it orders
/// `desc` sorts it descending, and the ordered columns come in the
/// request's order, each followed by a comma, before the id, ascending.
pub proof fn order_by_sorts_as_requested(t: Seq<char>, c: Seq<char>, d: Direction, os: Seq<(Seq<char>, Direction)>)
    ensures
        sql_term_ascending(order_term(t, (c, d == Direction::Desc)), t, c) == Some(d == Direction::Asc),
        ({
            let ros = os.map_values(|o: (Seq<char>, Direction)| (o.0, o.1 == Direction::Desc));
            &&& order_sql(t, ros) == " ORDER BY "@ + order_terms(t, ros) + quoted(t) + "."@ + quoted("id"@) + " ASC"@
            &&& sql_term_ascending(quoted(t) + "."@ + quoted("id"@) + " ASC"@, t, "id"@) == Some(true)
            &&& os.len() > 0 ==> order_terms(t, ros) == order_terms(t, ros.drop_last()) + order_term(
                t,
                (os.last().0, os.last().1 == Direction::Desc),
            ) + ", "@
        }),
{
    reveal_strlit(" ASC");
    reveal_strlit(" DESC");
    let asc = " ASC"@;
    let desc = " DESC"@;
    let p = quoted(t) + "."@ + quoted(c);
    assert((p + desc)[p.len() + 1int] == 'D');
    assert((p + asc)[p.len() + 1int] == 'A');
    assert(p + desc != p + asc);
    let ros = os.map_values(|o: (Seq<char>, Direction)| (o.0, o.1 == Direction::Desc));
    if os.len() > 0 {
        assert(ros.last() == (os.last().0, os.last().1 == Direction::Desc));
    }
}

/// The terms of the `ORDER BY` clause, each followed by a comma: the
/// ordered columns, before the id that breaks ties.
pub open spec fn order_terms(t: Seq<char>, os: Seq<(Seq<char>, bool)>) -> Seq<char>
    decreases os.len(),
{
    if os.len() == 0 {
        Seq::empty()
    } else {
        order_terms(t, os.drop_last()) + order_term(t, os.last()) + ", "@
    }
}

/// The `ORDER BY` clause: the ordered columns, then the id ascending.
pub open spec fn order_sql(t: Seq<char>, os: Seq<(Seq<char>, bool)>) -> Seq<char> {
    " ORDER BY "@ + order_terms(t, os) + quoted(t) + "."@ + quoted("id"@) + " ASC"@
}

/// The condition that a row comes at or after the first item in the
/// order: after it in the first column, or equal there and at or after it
/// in the rest, down to the id. Returns the text and the values it binds,
/// when `n` values are bound before it.
pub open spec fn cursor_text(t: Seq<char>, os: Seq<(Seq<char>, bool)>, vals: Seq<BindView>, id: int, n: nat) -> (Seq<char>, Seq<BindView>)
    decreases os.len(),
{
    if os.len() == 0 || vals.len() == 0 {
        (quoted(t) + "."@ + quoted("id"@) + " >= "@ + marker(n + 1), seq![BindView::Int(id)])
    } else {
        let col = quoted(t) + "."@ + quoted(os[0].0);
        let rest = cursor_text(t, os.drop_first(), vals.drop_first(), id, n + 2);
        (
            "("@ + col + (if os[0].1 {
                " < "@
            } else {
                " > "@
            }) + marker(n + 1) + " OR ("@ + col + " = "@ + marker(n + 2) + " AND "@ + rest.0 + "))"@,
            seq![vals[0], vals[0]] + rest.1,
        )
    }
}

/// The filters of a page read joined by ` AND ` in parentheses, and the
/// values they bind.
pub open spec fn page_filters(fs: Seq<FilterView>, fields: Seq<FieldView>) -> (Seq<char>, Seq<BindView>) {
    let r = crate::filters::filters_text(fs, " AND "@, fields, 0);
    ("("@ + r.0 + ")"@, r.1)
}

/// The `WHERE` clause of a page read: the filters and the cursor, where
/// there are any.
pub open spec fn page_where(p: FetchManyPlan) -> (Seq<char>, Seq<BindView>) {
    let fs = filters_view(p.filters@);
    let t = p.base@.name;
    let f = page_filters(fs, p.base@.fields);
    match p.first {
        Some(first) => if fs.len() > 0 {
            let c = cursor_text(t, plan_orders(p), binds_view(first.1@), first.0 as int, f.1.len());
            (" WHERE "@ + f.0 + " AND "@ + c.0, f.1 + c.1)
        } else {
            let c = cursor_text(t, plan_orders(p), binds_view(first.1@), first.0 as int, 0);
            (" WHERE "@ + c.0, c.1)
        },
        None => if fs.len() > 0 {
            (" WHERE "@ + f.0, f.1)
        } else {
            (Seq::empty(), Seq::empty())
        },
    }
}

/// The statement reading a page: one row more than the page holds, to
/// know where the next page starts.
pub open spec fn fetch_many_view(p: FetchManyPlan) -> StatementView {
    let ls = fetch_links_view(p.links@);
    let items = fetch_items(p.base@, ls);
    let w = page_where(p);
    StatementView {
        sql: select_head_sql(items, p.base@.table, link_joins(p.base@, ls)) + w.0 + order_sql(p.base@.name, plan_orders(p))
            + " LIMIT "@ + nat_text((p.limit + 1) as nat) + ";"@,
        binds: w.1,
        columns: items.map_values(|it: SelectItemView| crate::query::item_column(it)),
    }
}

/// One more filter extends the joined text by the separator (but for the
/// first) and its condition.
proof fn lemma_filters_text_step(fs: Seq<FilterView>, fv: Seq<FieldView>, i: int)
    requires
        0 <= i < fs.len(),
    ensures
        ({
            let p = filters_text(fs.subrange(0, i), " AND "@, fv, 0);
            let l = filter_text(fs[i], fv, p.1.len());
            &&& filters_text(fs.subrange(0, i + 1), " AND "@, fv, 0).0 == if i == 0 {
                l.0
            } else {
                p.0 + " AND "@ + l.0
            }
            &&& filters_text(fs.subrange(0, i + 1), " AND "@, fv, 0).1 == p.1 + l.1
        }),
{
    let s1 = fs.subrange(0, i + 1);
    assert(s1.subrange(0, s1.len() - 1) =~= fs.subrange(0, i));
    assert(s1[s1.len() - 1] == fs[i]);
}

/// Writes the filters joined by ` AND ` in parentheses (they must apply).
fn write_page_filters(b: &mut StatementBuilder, filters: &Vec<SupportedFilter>, fields: &Vec<crate::schema::DynamicField>)
    requires
        old(b).binds@.len() == 0,
        filters_ok(filters_view(filters@), fields_view(fields@)),
    ensures
        final(b).sql@ == old(b).sql@ + page_filters(filters_view(filters@), fields_view(fields@)).0,
        binds_view(final(b).binds@) == page_filters(filters_view(filters@), fields_view(fields@)).1,
{
    let ghost fs = filters_view(filters@);
    let ghost fv = fields_view(fields@);
    b.syntax("(");
    let ghost start = b.sql@;
    let mut i: usize = 0;
    proof {
        assert(fs.subrange(0, 0) =~= Seq::<FilterView>::empty());
        assert(b.sql@ =~= start + Seq::<char>::empty());
        assert(binds_view(b.binds@) =~= Seq::<BindView>::empty());
    }
    while i < filters.len()
        invariant
            i <= filters@.len(),
            fs == filters_view(filters@),
            fv == fields_view(fields@),
            filters_ok(fs, fv),
            b.sql@ == start + filters_text(fs.subrange(0, i as int), " AND "@, fv, 0).0,
            binds_view(b.binds@) == filters_text(fs.subrange(0, i as int), " AND "@, fv, 0).1,
            b.binds@.len() == filters_text(fs.subrange(0, i as int), " AND "@, fv, 0).1.len(),
        decreases filters@.len() - i,
    {
        proof {
            lemma_filters_text_step(fs, fv, i as int);
            assert(fs[i as int] == filters@[i as int]@);
            crate::fetch::lemma_filters_ok_prefix(fs, fv, i + 1);
            assert(fs.subrange(0, i + 1).subrange(0, i as int) =~= fs.subrange(0, i as int));
            assert(fs.subrange(0, i + 1)[i as int] == fs[i as int]);
        }
        if i > 0 {
            b.syntax(" AND ");
        }
        let res = filters[i].write(fields, b);
        if res.is_err() {
            proof {
                assert(false);
            }
        }
        i = i + 1;
        proof {
            assert(b.sql@ =~= start + filters_text(fs.subrange(0, i as int), " AND "@, fv, 0).0);
            assert(binds_view(b.binds@) =~= filters_text(fs.subrange(0, i as int), " AND "@, fv, 0).1);
            assert(binds_view(b.binds@).len() == b.binds@.len());
        }
    }
    b.syntax(")");
    proof {
        assert(fs.subrange(0, fs.len() as int) =~= fs);
        assert(b.sql@ =~= old(b).sql@ + page_filters(fs, fv).0);
    }
}

/// The start of one level of the cursor condition: after the first item
/// in column `col`, or equal to it there and...
pub open spec fn cursor_head(t: Seq<char>, col: Seq<char>, desc: bool, n: nat) -> Seq<char> {
    let c = quoted(t) + "."@ + quoted(col);
    "("@ + c + (if desc {
        " < "@
    } else {
        " > "@
    }) + marker(n + 1) + " OR ("@ + c + " = "@ + marker(n + 2) + " AND "@
}

/// Writes the start of one level of the cursor condition.
fn write_cursor_head(b: &mut StatementBuilder, t: &Vec<char>, col: &Vec<char>, desc: bool, v: &BindValue)
    ensures
        final(b).sql@ == old(b).sql@ + cursor_head(t@, col@, desc, old(b).binds@.len()),
        binds_view(final(b).binds@) == binds_view(old(b).binds@) + seq![v@, v@],
        final(b).binds@.len() == old(b).binds@.len() + 2,
{
    b.syntax("(");
    b.sanitize(t);
    b.syntax(".");
    b.sanitize(col);
    if desc {
        b.syntax(" < ");
    } else {
        b.syntax(" > ");
    }
    b.bind(copy_bind(v));
    b.syntax(" OR (");
    b.sanitize(t);
    b.syntax(".");
    b.sanitize(col);
    b.syntax(" = ");
    b.bind(copy_bind(v));
    b.syntax(" AND ");
    proof {
        assert(b.sql@ =~= old(b).sql@ + cursor_head(t@, col@, desc, old(b).binds@.len()));
        assert(binds_view(b.binds@) =~= binds_view(old(b).binds@) + seq![v@, v@]);
    }
}

/// One level of the cursor condition, unfolded.
proof fn lemma_cursor_unfold(t: Seq<char>, os: Seq<(Seq<char>, bool)>, vs: Seq<BindView>, id: int, n: nat)
    requires
        os.len() > 0,
        vs.len() > 0,
    ensures
        ({
            let rest = cursor_text(t, os.drop_first(), vs.drop_first(), id, n + 2);
            &&& cursor_text(t, os, vs, id, n).0 == cursor_head(t, os[0].0, os[0].1, n) + rest.0 + "))"@
            &&& cursor_text(t, os, vs, id, n).1 == seq![vs[0], vs[0]] + rest.1
        }),
{
    let rest = cursor_text(t, os.drop_first(), vs.drop_first(), id, n + 2);
    assert(cursor_text(t, os, vs, id, n).0 =~= cursor_head(t, os[0].0, os[0].1, n) + rest.0 + "))"@);
}

/// Writes the cursor condition from ordered column `j` on.
fn write_cursor(b: &mut StatementBuilder, t: &Vec<char>, order: &Vec<OrderPlan>, vals: &Vec<BindValue>, id: i64, j: usize)
    requires
        j <= order@.len(),
        vals@.len() == order@.len(),
    ensures
        ({
            let c = cursor_text(
                t@,
                orders_view(order@).map_values(|o: (Seq<char>, bool, int)| (o.0, o.1)).skip(j as int),
                binds_view(vals@).skip(j as int),
                id as int,
                old(b).binds@.len(),
            );
            &&& final(b).sql@ == old(b).sql@ + c.0
            &&& binds_view(final(b).binds@) == binds_view(old(b).binds@) + c.1
        }),
    decreases order@.len() - j,
{
    let ghost os = orders_view(order@).map_values(|o: (Seq<char>, bool, int)| (o.0, o.1));
    let ghost vs = binds_view(vals@);
    let ghost n = old(b).binds@.len();
    if j == order.len() {
        b.sanitize(t);
        b.syntax(".");
        b.sanitize_str("id");
        b.syntax(" >= ");
        let ghost before = binds_view(b.binds@);
        b.bind(BindValue::Int(id));
        proof {
            assert(os.skip(j as int).len() == 0);
            assert(binds_view(b.binds@) =~= before.push(BindView::Int(id as int)));
            assert(b.sql@ =~= old(b).sql@ + cursor_text(t@, os.skip(j as int), vs.skip(j as int), id as int, n).0);
            assert(binds_view(b.binds@) =~= binds_view(old(b).binds@) + cursor_text(t@, os.skip(j as int), vs.skip(j as int), id as int, n).1);
        }
        return;
    }
    let o = &order[j];
    proof {
        assert(os.skip(j as int)[0] == (o.col@, o.desc));
        assert(vs.skip(j as int)[0] == vals@[j as int]@);
        assert(os.skip(j as int).drop_first() =~= os.skip(j + 1));
        assert(vs.skip(j as int).drop_first() =~= vs.skip(j + 1));
        lemma_cursor_unfold(t@, os.skip(j as int), vs.skip(j as int), id as int, n);
    }
    let ghost b0 = binds_view(b.binds@);
    write_cursor_head(b, t, &o.col, o.desc, &vals[j]);
    let ghost mid_sql = b.sql@;
    let ghost mid_binds = binds_view(b.binds@);
    write_cursor(b, t, order, vals, id, j + 1);
    b.syntax("))");
    proof {
        let rest = cursor_text(t@, os.skip(j + 1), vs.skip(j + 1), id as int, n + 2);
        assert(b.sql@ =~= old(b).sql@ + cursor_head(t@, o.col@, o.desc, n) + rest.0 + "))"@);
        assert(binds_view(b.binds@) =~= binds_view(old(b).binds@) + (seq![vals@[j as int]@, vals@[j as int]@] + rest.1));
    }
}

/// Writes the `ORDER BY` clause.
fn write_order(b: &mut StatementBuilder, t: &Vec<char>, order: &Vec<OrderPlan>)
    ensures
        final(b).sql@ == old(b).sql@ + order_sql(t@, orders_view(order@).map_values(|o: (Seq<char>, bool, int)| (o.0, o.1))),
        final(b).binds@ == old(b).binds@,
{
    let ghost os = orders_view(order@).map_values(|o: (Seq<char>, bool, int)| (o.0, o.1));
    b.syntax(" ORDER BY ");
    let ghost start = b.sql@;
    let mut i: usize = 0;
    proof {
        assert(os.take(0) =~= Seq::<(Seq<char>, bool)>::empty());
        assert(b.sql@ =~= start + order_terms(t@, os.take(0)));
    }
    while i < order.len()
        invariant
            i <= order@.len(),
            os == orders_view(order@).map_values(|o: (Seq<char>, bool, int)| (o.0, o.1)),
            b.sql@ == start + order_terms(t@, os.take(i as int)),
            b.binds@ == old(b).binds@,
        decreases order@.len() - i,
    {
        proof {
            assert(os.take(i + 1).drop_last() =~= os.take(i as int));
            assert(os.take(i + 1).last() == (order@[i as int].col@, order@[i as int].desc));
        }
        b.sanitize(t);
        b.syntax(".");
        b.sanitize(&order[i].col);
        if order[i].desc {
            b.syntax(" DESC");
        } else {
            b.syntax(" ASC");
        }
        b.syntax(", ");
        i = i + 1;
        proof {
            assert(b.sql@ =~= start + order_terms(t@, os.take(i as int)));
        }
    }
    b.sanitize(t);
    b.syntax(".");
    b.sanitize_str("id");
    b.syntax(" ASC");
    proof {
        assert(os.take(order@.len() as int) =~= os);
        assert(b.sql@ =~= old(b).sql@ + order_sql(t@, os));
    }
}

/// The statement reading a page.
pub fn fetch_many_statement(p: &FetchManyPlan) -> (r: Statement)
    requires
        fetch_many_plan_wf(*p),
    ensures
        r@ == fetch_many_view(*p),
{
    let items = fetch_items_of(&p.base, &p.links);
    let joins = fetch_joins_of(&p.base, &p.links);
    let table = chars_of(p.base.collection_name.pascal_case.as_str());
    let t = chars_of(p.base.collection_name.snake_case.as_str());
    let mut b = StatementBuilder::new();
    write_select_head(&mut b, &items, &table, &joins);
    proof {
        assert(fields_view(p.base.fields@) == p.base@.fields);
        assert(binds_view(b.binds@) =~= Seq::<BindView>::empty());
    }
    let ghost head = b.sql@;
    let has_filters = p.filters.len() > 0;
    if has_filters {
        b.syntax(" WHERE ");
        write_page_filters(&mut b, &p.filters, &p.base.fields);
    }
    match &p.first {
        Some(first) => {
            if has_filters {
                b.syntax(" AND ");
            } else {
                b.syntax(" WHERE ");
            }
            proof {
                assert(orders_view(p.order@).map_values(|o: (Seq<char>, bool, int)| (o.0, o.1)).skip(0) =~= plan_orders(*p));
                assert(binds_view(first.1@).skip(0) =~= binds_view(first.1@));
            }
            write_cursor(&mut b, &t, &p.order, &first.1, first.0, 0);
        },
        None => {},
    }
    proof {
        let w = page_where(*p);
        assert(b.sql@ =~= head + w.0);
        assert(binds_view(b.binds@) =~= w.1);
    }
    write_order(&mut b, &t, &p.order);
    b.syntax(" LIMIT ");
    let mut lim = String::new();
    write_nat((p.limit + 1) as u128, &mut lim);
    b.syntax(lim.as_str());
    b.syntax(";");
    let columns = item_columns(&items);
    let st = b.finish(columns);
    proof {
        assert(lim@ =~= nat_text((p.limit + 1) as nat));
        assert(st@.sql =~= fetch_many_view(*p).sql);
    }
    st
}

/// How many of the rows read belong to the page.
pub open spec fn page_len(rows: nat, limit: nat) -> nat {
    if rows < limit {
        rows
    } else {
        limit
    }
}

/// The ids of the rows of a page, where each is an integer.
pub open spec fn page_ids(rows: Seq<Seq<Json>>) -> Option<Seq<int>>
    decreases rows.len(),
{
    if rows.len() == 0 {
        Some(Seq::empty())
    } else {
        match page_ids(rows.drop_last()) {
            Some(ids) => if rows.last().len() > 0 && rows.last()[0] is Int {
                Some(ids.push(rows.last()[0]->Int_0))
            } else {
                None
            },
            None => None,
        }
    }
}

/// The outputs of the rows of a page with their links.
pub open spec fn page_items(base: CollectionView, ls: Seq<FetchLinkView>, rows: Seq<Seq<Json>>, post: Seq<Seq<Seq<Json>>>) -> Option<Seq<Json>>
    decreases rows.len(),
{
    if rows.len() == 0 {
        Some(Seq::empty())
    } else {
        match (page_items(base, ls, rows.drop_last(), post), fetched_record(base, ls, rows.last(), post)) {
            (Some(items), Some(j)) => Some(items.push(j)),
            _ => None,
        }
    }
}

/// Each ordered column with the row's value of it.
pub open spec fn order_entries(p: FetchManyPlan, row: Seq<Json>) -> Seq<(Seq<char>, Json)> {
    orders_view(p.order@).map_values(|o: (Seq<char>, bool, int)| (o.0, row[1 + o.2]))
}

/// The item that starts the next page: its id, and its values of the
/// ordered columns by name.
pub open spec fn next_item_json(p: FetchManyPlan, row: Seq<Json>) -> Option<Json> {
    if row.len() >= 1 + p.base@.fields.len() {
        Some(Json::Object(seq![
            ("id"@, row[0]),
            ("attributes"@, crate::values::row_object(
                order_entries(p, row),
                crate::values::sorted_keys(orders_view(p.order@).map_values(|o: (Seq<char>, bool, int)| o.0)),
            )),
        ]))
    } else {
        None
    }
}

/// The answer of a page read: its items, and the item that starts the next
/// page or `null`.
pub open spec fn page_answer(p: FetchManyPlan, rows: Seq<Seq<Json>>, post: Seq<Seq<Seq<Json>>>) -> Option<Json> {
    let page = rows.take(page_len(rows.len(), p.limit as nat) as int);
    let next = if rows.len() > p.limit {
        next_item_json(p, rows[p.limit as int])
    } else {
        Some(Json::Null)
    };
    match (page_items(p.base@, fetch_links_view(p.links@), page, post), next) {
        (Some(items), Some(n)) => Some(Json::Object(seq![("items"@, Json::Array(items)), ("next_item"@, n)])),
        _ => None,
    }
}

/// What a page read asks for after the given batches ran: the rows, then
/// the rows of the paired and referencing links of the page's rows, then
/// the answer.
pub open spec fn fetch_many_step_spec(p: FetchManyPlan, results: Seq<Seq<Seq<Seq<Json>>>>) -> StepView {
    if results.len() == 0 {
        StepView::Run(seq![fetch_many_view(p)])
    } else if results[0].len() == 0 {
        StepView::Fail
    } else {
        let rows = results[0][0];
        let page = rows.take(page_len(rows.len(), p.limit as nat) as int);
        if results.len() == 1 {
            match page_ids(page) {
                Some(ids) => StepView::Run(if ids.len() == 0 {
                    Seq::empty()
                } else {
                    post_queries(p.base@, fetch_links_view(p.links@), ids)
                }),
                None => StepView::Fail,
            }
        } else {
            match page_answer(p, rows, results[1]) {
                Some(j) => StepView::Done(output_response(j)),
                None => StepView::Fail,
            }
        }
    }
}

/// The ids of the first `k` rows.
fn page_ids_of(rows: &Rows, k: usize) -> (r: Option<Vec<i64>>)
    requires
        k <= rows@.len(),
    ensures
        match page_ids(rows_view(rows@).take(k as int)) {
            Some(ids) => r matches Some(v) && ids_view(v@) == ids,
            None => r is None,
        },
{
    let ghost rv = rows_view(rows@);
    let mut v: Vec<i64> = Vec::new();
    let mut i: usize = 0;
    proof {
        assert(rv.take(k as int).take(0) =~= Seq::<Seq<Json>>::empty());
        assert(ids_view(v@) =~= Seq::<int>::empty());
    }
    while i < k
        invariant
            i <= k,
            k <= rows@.len(),
            rv == rows_view(rows@),
            page_ids(rv.take(k as int).take(i as int)) == Some(ids_view(v@)),
        decreases k - i,
    {
        let row = &rows[i];
        proof {
            assert(rv.take(k as int).take(i + 1).drop_last() =~= rv.take(k as int).take(i as int));
            assert(rv.take(k as int).take(i + 1).last() == json_seq(row@));
        }
        let ghost before = ids_view(v@);
        if row.len() == 0 {
            proof {
                lemma_page_ids_prefix(rv.take(k as int), i + 1);
            }
            return None;
        }
        match &row[0] {
            JsonValue::Int(x) => {
                v.push(*x);
                proof {
                    assert(ids_view(v@) =~= before.push(*x as int));
                }
            },
            _ => {
                proof {
                    lemma_page_ids_prefix(rv.take(k as int), i + 1);
                }
                return None;
            },
        }
        i = i + 1;
    }
    proof {
        assert(rv.take(k as int).take(k as int) =~= rv.take(k as int));
    }
    Some(v)
}

/// Once some rows have no id, more rows have none.
proof fn lemma_page_ids_prefix(rows: Seq<Seq<Json>>, i: int)
    requires
        0 <= i <= rows.len(),
        page_ids(rows.take(i)) is None,
    ensures
        page_ids(rows) is None,
    decreases rows.len() - i,
{
    if i < rows.len() {
        assert(rows.take(i + 1).drop_last() =~= rows.take(i));
        lemma_page_ids_prefix(rows, i + 1);
    } else {
        assert(rows.take(i) =~= rows);
    }
}

/// Once some rows have no output, more rows have none.
proof fn lemma_page_items_prefix(base: CollectionView, ls: Seq<FetchLinkView>, rows: Seq<Seq<Json>>, post: Seq<Seq<Seq<Json>>>, i: int)
    requires
        0 <= i <= rows.len(),
        page_items(base, ls, rows.take(i), post) is None,
    ensures
        page_items(base, ls, rows, post) is None,
    decreases rows.len() - i,
{
    if i < rows.len() {
        assert(rows.take(i + 1).drop_last() =~= rows.take(i));
        lemma_page_items_prefix(base, ls, rows, post, i + 1);
    } else {
        assert(rows.take(i) =~= rows);
    }
}

/// The outputs of the first `k` rows with their links.
fn page_items_of(base: &DynamicCollection, links: &Vec<FetchLinkPlan>, rows: &Rows, k: usize, post: &Vec<Rows>) -> (r: Option<Vec<JsonValue>>)
    requires
        k <= rows@.len(),
    ensures
        match page_items(base@, fetch_links_view(links@), rows_view(rows@).take(k as int), batch_view(post@)) {
            Some(items) => r matches Some(v) && json_seq(v@) == items,
            None => r is None,
        },
{
    let ghost rv = rows_view(rows@);
    let ghost ls = fetch_links_view(links@);
    let ghost pv = batch_view(post@);
    let mut v: Vec<JsonValue> = Vec::new();
    let mut i: usize = 0;
    proof {
        assert(rv.take(k as int).take(0) =~= Seq::<Seq<Json>>::empty());
        assert(json_seq(v@) =~= Seq::<Json>::empty());
    }
    while i < k
        invariant
            i <= k,
            k <= rows@.len(),
            rv == rows_view(rows@),
            ls == fetch_links_view(links@),
            pv == batch_view(post@),
            page_items(base@, ls, rv.take(k as int).take(i as int), pv) == Some(json_seq(v@)),
        decreases k - i,
    {
        proof {
            assert(rv.take(k as int).take(i + 1).drop_last() =~= rv.take(k as int).take(i as int));
            assert(rv.take(k as int).take(i + 1).last() == json_seq(rows@[i as int]@));
        }
        let ghost before = json_seq(v@);
        match fetched_record_output(base, links, &rows[i], post) {
            Some(j) => {
                v.push(j);
                proof {
                    assert(json_seq(v@) =~= before.push(j@));
                }
            },
            None => {
                proof {
                    lemma_page_items_prefix(base@, ls, rv.take(k as int), pv, i + 1);
                }
                return None;
            },
        }
        i = i + 1;
    }
    proof {
        assert(rv.take(k as int).take(k as int) =~= rv.take(k as int));
    }
    Some(v)
}

/// The item that starts the next page.
fn next_item_of(p: &FetchManyPlan, row: &Vec<JsonValue>) -> (r: Option<JsonValue>)
    requires
        fetch_many_plan_wf(*p),
        crate::registry::no_repeats(orders_view(p.order@).map_values(|o: (Seq<char>, bool, int)| o.0)),
    ensures
        match next_item_json(*p, json_seq(row@)) {
            Some(j) => r matches Some(v) && v@ == j,
            None => r is None,
        },
{
    broadcast use vstd::seq_lib::to_multiset_contains;
    if row.len() == 0 || row.len() - 1 < p.base.fields.len() {
        return None;
    }
    let ghost rv = json_seq(row@);
    let ghost want = order_entries(*p, rv);
    let mut entries: Vec<(Vec<char>, JsonValue)> = Vec::new();
    let mut names: Vec<Vec<char>> = Vec::new();
    let rl = row.len();
    let mut i: usize = 0;
    while i < p.order.len()
        invariant
            rl == row@.len(),
            i <= p.order@.len(),
            fetch_many_plan_wf(*p),
            row@.len() >= 1 + p.base@.fields.len(),
            rv == json_seq(row@),
            want == order_entries(*p, rv),
            entries_view(entries@) == want.take(i as int),
            crate::values::names_view(names@) == orders_view(p.order@).map_values(|o: (Seq<char>, bool, int)| o.0).take(i as int),
        decreases p.order@.len() - i,
    {
        let o = &p.order[i];
        proof {
            assert(p.order@[i as int].field < p.base@.fields.len());
        }
        let ghost b1 = entries_view(entries@);
        let ghost b2 = crate::values::names_view(names@);
        entries.push((copy_chars(&o.col), crate::json::clone_json(&row[1 + o.field])));
        names.push(copy_chars(&o.col));
        proof {
            assert(entries_view(entries@) =~= b1.push(want[i as int]));
            assert(want.take(i + 1) =~= want.take(i as int).push(want[i as int]));
            assert(crate::values::names_view(names@) =~= b2.push(o.col@));
            assert(orders_view(p.order@).map_values(|o: (Seq<char>, bool, int)| o.0).take(i + 1) =~= orders_view(p.order@).map_values(
                |o: (Seq<char>, bool, int)| o.0,
            ).take(i as int).push(o.col@));
        }
        i = i + 1;
    }
    let ghost keys = orders_view(p.order@).map_values(|o: (Seq<char>, bool, int)| o.0);
    proof {
        assert(want.take(p.order@.len() as int) =~= want);
        assert(keys.take(p.order@.len() as int) =~= keys);
    }
    let sorted = crate::values::sort_names(&names);
    proof {
        assert forall|k: int| 0 <= k < sorted@.len() implies lookup_key(entries_view(entries@), (#[trigger] sorted@[k])@) is Some by {
            let key = sorted@[k]@;
            assert(crate::values::names_view(sorted@)[k] == key);
            assert(crate::values::names_view(sorted@).to_multiset().contains(key));
            assert(keys.contains(key));
            let j = choose|j: int| 0 <= j < keys.len() && keys[j] == key;
            assert(entries_view(entries@)[j].0 == key);
            crate::statements::lemma_lookup_some(entries_view(entries@), key, j);
        }
    }
    let attrs = crate::values::serialize_dynamic_row(&entries, &sorted);
    let mut obj: Vec<(Vec<char>, JsonValue)> = Vec::new();
    obj.push((chars_of("id"), crate::json::clone_json(&row[0])));
    obj.push((chars_of("attributes"), attrs));
    proof {
        crate::values::lemma_object_view(obj);
        assert(entries_view(obj@) =~= next_item_json(*p, rv)->Some_0->Object_0);
    }
    Some(JsonValue::Object(obj))
}

/// What a page read asks for next, given the rows of the batches run so
/// far.
pub fn fetch_many_step(p: &FetchManyPlan, results: &Vec<Vec<Rows>>) -> (r: Step)
    requires
        fetch_many_plan_wf(*p),
    ensures
        r@ == fetch_many_step_spec(*p, crate::insert::results_view(results@)),
{
    let ghost rv = crate::insert::results_view(results@);
    if results.len() == 0 {
        let st = fetch_many_statement(p);
        let ghost sv = st@;
        let mut v: Vec<Statement> = Vec::new();
        v.push(st);
        proof {
            assert(statements_view(v@) =~= seq![sv]);
        }
        return Step::Run(v);
    }
    proof {
        assert(rv[0] == batch_view(results@[0]@));
    }
    if results[0].len() == 0 {
        return Step::Fail;
    }
    let rows = &results[0][0];
    proof {
        assert(rv[0][0] == rows_view(rows@));
    }
    let k: usize = if (rows.len() as u64) < p.limit {
        rows.len()
    } else {
        p.limit as usize
    };
    if results.len() == 1 {
        return match page_ids_of(rows, k) {
            Some(ids) => {
                if ids.len() == 0 {
                    let v: Vec<Statement> = Vec::new();
                    proof {
                        assert(statements_view(v@) =~= Seq::<StatementView>::empty());
                    }
                    Step::Run(v)
                } else {
                    Step::Run(post_query_statements(&p.base, &p.links, &ids))
                }
            },
            None => Step::Fail,
        };
    }
    proof {
        assert(rv[1] == batch_view(results@[1]@));
    }
    let items = match page_items_of(&p.base, &p.links, rows, k, &results[1]) {
        Some(items) => items,
        None => return Step::Fail,
    };
    let next = if (rows.len() as u64) > p.limit {
        proof {
            assert(rows_view(rows@)[p.limit as int] == json_seq(rows@[p.limit as int]@));
        }
        match next_item_of(p, &rows[p.limit as usize]) {
            Some(n) => n,
            None => return Step::Fail,
        }
    } else {
        JsonValue::Null
    };
    let ghost iv = json_seq(items@);
    let ghost nv = next@;
    proof {
        crate::values::lemma_array_view(items);
    }
    let mut obj: Vec<(Vec<char>, JsonValue)> = Vec::new();
    obj.push((chars_of("items"), JsonValue::Array(items)));
    obj.push((chars_of("next_item"), next));
    proof {
        crate::values::lemma_object_view(obj);
        assert(entries_view(obj@) =~= seq![("items"@, Json::Array(iv)), ("next_item"@, nv)]);
    }
    Step::Done(output(JsonValue::Object(obj)))
}


impl FetchManyError {
    /// The name of the error, as responses carry it.
    pub open spec fn spec_name(&self) -> Seq<char> {
        match self {
            FetchManyError::CollectionNotFound => "CollectionNotFound"@,
            FetchManyError::InvalidData => "InvalidData"@,
            FetchManyError::LinkNotSetUpForThisBase => "LinkNotSetUpForThisBase"@,
            FetchManyError::InvalidFilter => "InvalidFilter"@,
            FetchManyError::InvalidLink => "InvalidLink"@,
            FetchManyError::InvalidOrderBy => "InvalidOrderBy"@,
            FetchManyError::InvalidFirstItem => "InvalidFirstItem"@,
        }
    }

    /// The name of the error, as responses carry it.
    pub fn name(&self) -> (r: &'static str)
        ensures
            r@ == self.spec_name(),
    {
        match self {
            FetchManyError::CollectionNotFound => "CollectionNotFound",
            FetchManyError::InvalidData => "InvalidData",
            FetchManyError::LinkNotSetUpForThisBase => "LinkNotSetUpForThisBase",
            FetchManyError::InvalidFilter => "InvalidFilter",
            FetchManyError::InvalidLink => "InvalidLink",
            FetchManyError::InvalidOrderBy => "InvalidOrderBy",
            FetchManyError::InvalidFirstItem => "InvalidFirstItem",
        }
    }
}

} // verus!
