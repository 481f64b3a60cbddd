//! Reading rows with their links: the links a read can follow, the select
//! that reads a row and the rows it references, and the reads of the rows
//! that reference it.
use vstd::prelude::*;
use crate::filters::{SupportedFilter, binds_view, filter_ok, filter_text, filters_ok, filters_text, filters_view, FilterView};
use crate::json::{Json, JsonValue, nat_text, write_nat};
use crate::query::{
    Join, JoinView, SelectItem, SelectItemView, item_columns, items_view, joins_view,
    select_head_sql, write_select_head,
};
use crate::registry::{Registry, RegistryView, collection_named, fk_column, has_collection, id_column, junction_table};
use crate::schema::{CollectionView, DynamicCollection, FieldView, fields_view};
use crate::sql::{BindValue, BindView, ColumnType, Statement, StatementBuilder, marker, quoted};
use crate::statements::{collection_items, push_collection_items, json_seq, record_json};
use crate::text::{chars_of, copy_chars};

verus! {

/// A link that a read follows, as a request states it.
pub enum SupportedLinkFetchOne {
    /// The row of `to` that the read row references, or the rows of `to`
    /// that reference it.
    OptionalToMany { to: String },
    /// The rows of `to` paired with the read row.
    ManyToMany { to: String },
    /// The read row's creation and update times.
    Timestamp,
}

/// A link to follow by its plain parts.
pub enum FetchLinkInputView {
    OptionalToMany(Seq<char>),
    ManyToMany(Seq<char>),
    Timestamp,
}

impl View for SupportedLinkFetchOne {
    type V = FetchLinkInputView;

    open spec fn view(&self) -> FetchLinkInputView {
        match self {
            SupportedLinkFetchOne::OptionalToMany { to } => FetchLinkInputView::OptionalToMany(to@),
            SupportedLinkFetchOne::ManyToMany { to } => FetchLinkInputView::ManyToMany(to@),
            SupportedLinkFetchOne::Timestamp => FetchLinkInputView::Timestamp,
        }
    }
}

/// Links to follow by their plain parts.
pub open spec fn fetch_links_input_view(ls: Seq<SupportedLinkFetchOne>) -> Seq<FetchLinkInputView> {
    ls.map_values(|l: SupportedLinkFetchOne| l@)
}

/// A resolved link by its plain parts.
pub enum FetchLinkView {
    /// The read row references a row of this collection.
    Forward(CollectionView),
    /// Rows of this collection reference the read row.
    Inverse(CollectionView),
    /// Rows of this collection are paired with the read row.
    Many(CollectionView),
    /// The read row's times.
    Timestamp,
}

/// A resolved link.
pub enum FetchLinkPlan {
    Forward { to: DynamicCollection },
    Inverse { to: DynamicCollection },
    Many { to: DynamicCollection },
    Timestamp,
}

impl View for FetchLinkPlan {
    type V = FetchLinkView;

    open spec fn view(&self) -> FetchLinkView {
        match self {
            FetchLinkPlan::Forward { to } => FetchLinkView::Forward(to@),
            FetchLinkPlan::Inverse { to } => FetchLinkView::Inverse(to@),
            FetchLinkPlan::Many { to } => FetchLinkView::Many(to@),
            FetchLinkPlan::Timestamp => FetchLinkView::Timestamp,
        }
    }
}

/// Resolved links by their plain parts.
pub open spec fn fetch_links_view(v: Seq<FetchLinkPlan>) -> Seq<FetchLinkView> {
    v.map_values(|l: FetchLinkPlan| l@)
}

/// What a link of a read of `base` resolves to: a reference from `base`,
/// else one to `base`; a declared pairing; the times of a timestamped
/// collection. Nothing where no such link is declared.
pub open spec fn resolve_link(r: RegistryView, base: Seq<char>, l: FetchLinkInputView) -> Option<
    FetchLinkView,
> {
    match l {
        FetchLinkInputView::OptionalToMany(to) => if !has_collection(r.collections, to) {
            None
        } else if r.optional_to_many.contains((base, to)) {
            Some(FetchLinkView::Forward(collection_named(r.collections, to)))
        } else if r.optional_to_many.contains((to, base)) {
            Some(FetchLinkView::Inverse(collection_named(r.collections, to)))
        } else {
            None
        },
        FetchLinkInputView::ManyToMany(to) => if has_collection(r.collections, to)
            && r.many_to_many.contains((base, to)) {
            Some(FetchLinkView::Many(collection_named(r.collections, to)))
        } else {
            None
        },
        FetchLinkInputView::Timestamp => if r.timestamped.contains(base) {
            Some(FetchLinkView::Timestamp)
        } else {
            None
        },
    }
}

/// All links resolved, or nothing where one does not resolve.
pub open spec fn resolve_links(r: RegistryView, base: Seq<char>, ls: Seq<FetchLinkInputView>) -> Option<
    Seq<FetchLinkView>,
>
    decreases ls.len(),
{
    if ls.len() == 0 {
        Some(Seq::empty())
    } else {
        match (resolve_links(r, base, ls.drop_last()), resolve_link(r, base, ls.last())) {
            (Some(rs), Some(l)) => Some(rs.push(l)),
            _ => None,
        }
    }
}

/// Resolves one link of a read of `base`.
pub fn resolve_fetch_link(reg: &Registry, base: &String, l: &SupportedLinkFetchOne) -> (r: Option<
    FetchLinkPlan,
>)
    requires
        reg.wf(),
    ensures
        match resolve_link(reg@, base@, l@) {
            Some(v) => r matches Some(p) && p@ == v,
            None => r is None,
        },
{
    match l {
        SupportedLinkFetchOne::OptionalToMany { to } => {
            let ti = match reg.find_collection(to.as_str()) {
                Some(ti) => ti,
                None => return None,
            };
            if reg.has_optional_to_many(base, to) {
                Some(FetchLinkPlan::Forward { to: reg.collection_at(ti).copy() })
            } else if reg.has_optional_to_many(to, base) {
                Some(FetchLinkPlan::Inverse { to: reg.collection_at(ti).copy() })
            } else {
                None
            }
        },
        SupportedLinkFetchOne::ManyToMany { to } => {
            let ti = match reg.find_collection(to.as_str()) {
                Some(ti) => ti,
                None => return None,
            };
            if reg.has_many_to_many(base, to) {
                Some(FetchLinkPlan::Many { to: reg.collection_at(ti).copy() })
            } else {
                None
            }
        },
        SupportedLinkFetchOne::Timestamp => {
            if reg.is_timestamped(base) {
                Some(FetchLinkPlan::Timestamp)
            } else {
                None
            }
        },
    }
}

/// Once some link does not resolve, the list does not.
proof fn lemma_resolve_links_prefix(r: RegistryView, base: Seq<char>, ls: Seq<FetchLinkInputView>, i: int)
    requires
        0 <= i <= ls.len(),
        resolve_links(r, base, ls.take(i)) is None,
    ensures
        resolve_links(r, base, ls) is None,
    decreases ls.len() - i,
{
    if i < ls.len() {
        assert(ls.take(i + 1).drop_last() =~= ls.take(i));
        lemma_resolve_links_prefix(r, base, ls, i + 1);
    } else {
        assert(ls.take(i) =~= ls);
    }
}

/// Resolves the links of a read of `base`.
pub fn resolve_fetch_links(reg: &Registry, base: &String, links: &Vec<SupportedLinkFetchOne>) -> (r:
    Option<Vec<FetchLinkPlan>>)
    requires
        reg.wf(),
    ensures
        match resolve_links(reg@, base@, fetch_links_input_view(links@)) {
            Some(v) => r matches Some(ps) && fetch_links_view(ps@) == v,
            None => r is None,
        },
{
    let ghost ls = fetch_links_input_view(links@);
    let mut ps: Vec<FetchLinkPlan> = Vec::new();
    let mut i: usize = 0;
    proof {
        assert(ls.take(0) =~= Seq::<FetchLinkInputView>::empty());
        assert(fetch_links_view(ps@) =~= Seq::<FetchLinkView>::empty());
    }
    while i < links.len()
        invariant
            reg.wf(),
            ls == fetch_links_input_view(links@),
            i <= links@.len(),
            resolve_links(reg@, base@, ls.take(i as int)) == Some(fetch_links_view(ps@)),
        decreases links@.len() - i,
    {
        proof {
            assert(ls.take(i + 1).drop_last() =~= ls.take(i as int));
            assert(ls.take(i + 1).last() == links@[i as int]@);
        }
        let ghost before = fetch_links_view(ps@);
        match resolve_fetch_link(reg, base, &links[i]) {
            Some(p) => {
                ps.push(p);
                proof {
                    assert(fetch_links_view(ps@) =~= before.push(ps@.last()@));
                }
            },
            None => {
                proof {
                    lemma_resolve_links_prefix(reg@, base@, ls, i + 1);
                }
                return None;
            },
        }
        i = i + 1;
    }
    proof {
        assert(ls.take(links@.len() as int) =~= ls);
    }
    Some(ps)
}

/// The alias prefix of the columns of link `k` of `n`: `l`, numbered where
/// there is more than one link.
pub open spec fn link_prefix(n: nat, k: nat) -> Seq<char> {
    if n == 1 {
        "l"@
    } else {
        "l"@ + nat_text(k)
    }
}

/// The select item of a column of the read row under an alias.
pub open spec fn own_item(base: CollectionView, column: Seq<char>, alias: Seq<char>, ty: ColumnType, optional: bool) -> SelectItemView {
    SelectItemView { table: base.table, column, alias, ty, optional }
}

/// The columns a link adds to the select, under prefix `p`: the referenced
/// row; the read row's id, to find the rows of the link later; the times.
pub open spec fn link_items(base: CollectionView, l: FetchLinkView, p: Seq<char>) -> Seq<SelectItemView> {
    match l {
        FetchLinkView::Forward(c) => collection_items(c, p + "id"@, p, true),
        FetchLinkView::Inverse(_) => seq![own_item(base, "id"@, p + "id"@, ColumnType::Int, false)],
        FetchLinkView::Many(_) => seq![own_item(base, "id"@, p + "id"@, ColumnType::Int, false)],
        FetchLinkView::Timestamp => seq![
            own_item(base, "created_at"@, p + "created_at"@, ColumnType::Text, true),
            own_item(base, "updated_at"@, p + "updated_at"@, ColumnType::Text, true),
        ],
    }
}

/// The columns of the links, in order, `n` links in all.
pub open spec fn all_link_items(base: CollectionView, ls: Seq<FetchLinkView>, n: nat) -> Seq<SelectItemView>
    decreases ls.len(),
{
    if ls.len() == 0 {
        Seq::empty()
    } else {
        all_link_items(base, ls.drop_last(), n) + link_items(
            base,
            ls.last(),
            link_prefix(n, (ls.len() - 1) as nat),
        )
    }
}

/// The select list of a read: the row's columns, then the links'.
pub open spec fn fetch_items(base: CollectionView, ls: Seq<FetchLinkView>) -> Seq<SelectItemView> {
    collection_items(base, "iid"@, "b"@, false) + all_link_items(base, ls, ls.len())
}

/// The joins of a read: the referenced rows, in link order.
pub open spec fn link_joins(base: CollectionView, ls: Seq<FetchLinkView>) -> Seq<JoinView>
    decreases ls.len(),
{
    if ls.len() == 0 {
        Seq::empty()
    } else {
        link_joins(base, ls.drop_last()) + match ls.last() {
            FetchLinkView::Forward(c) => seq![
                JoinView {
                    inner: false,
                    table: c.table,
                    left_table: base.table,
                    left_column: fk_column(c.name),
                    right_column: "id"@,
                },
            ],
            _ => Seq::empty(),
        }
    }
}

/// The prefix of the columns of link `k` of `n`.
fn link_prefix_chars(n: usize, k: usize) -> (r: Vec<char>)
    ensures
        r@ == link_prefix(n as nat, k as nat),
{
    let mut s = String::new();
    s.append("l");
    if n != 1 {
        write_nat(k as u128, &mut s);
    }
    proof {
        assert(s@ =~= link_prefix(n as nat, k as nat));
    }
    chars_of(s.as_str())
}

/// A text followed by another.
fn concat_chars(a: &Vec<char>, b: &str) -> (r: Vec<char>)
    ensures
        r@ == a@ + b@,
{
    let mut r = copy_chars(a);
    let bs = chars_of(b);
    let mut i: usize = 0;
    while i < bs.len()
        invariant
            i <= bs@.len(),
            r@ == a@ + bs@.take(i as int),
        decreases bs@.len() - i,
    {
        r.push(bs[i]);
        i = i + 1;
        proof {
            assert(r@ =~= a@ + bs@.take(i as int));
        }
    }
    proof {
        assert(bs@.take(bs@.len() as int) =~= bs@);
    }
    r
}

/// Appends the columns a link adds under prefix `p`.
fn push_link_items(items: &mut Vec<SelectItem>, base: &DynamicCollection, l: &FetchLinkPlan, p: &Vec<char>)
    ensures
        items_view(final(items)@) == items_view(old(items)@) + link_items(base@, l@, p@),
{
    let table = chars_of(base.collection_name.pascal_case.as_str());
    let ghost start = items_view(items@);
    match l {
        FetchLinkPlan::Forward { to } => {
            push_collection_items(items, to, &concat_chars(p, "id"), p, true);
        },
        FetchLinkPlan::Inverse { .. } | FetchLinkPlan::Many { .. } => {
            items.push(
                SelectItem {
                    table,
                    column: chars_of("id"),
                    alias: concat_chars(p, "id"),
                    ty: ColumnType::Int,
                    optional: false,
                },
            );
            proof {
                assert(items_view(items@) =~= start + link_items(base@, l@, p@));
            }
        },
        FetchLinkPlan::Timestamp => {
            items.push(
                SelectItem {
                    table: copy_chars(&table),
                    column: chars_of("created_at"),
                    alias: concat_chars(p, "created_at"),
                    ty: ColumnType::Text,
                    optional: true,
                },
            );
            items.push(
                SelectItem {
                    table,
                    column: chars_of("updated_at"),
                    alias: concat_chars(p, "updated_at"),
                    ty: ColumnType::Text,
                    optional: true,
                },
            );
            proof {
                assert(items_view(items@) =~= start + link_items(base@, l@, p@));
            }
        },
    }
}

/// The select list of a read of `base` following `links`.
pub fn fetch_items_of(base: &DynamicCollection, links: &Vec<FetchLinkPlan>) -> (r: Vec<SelectItem>)
    ensures
        items_view(r@) == fetch_items(base@, fetch_links_view(links@)),
{
    let ghost ls = fetch_links_view(links@);
    let mut items: Vec<SelectItem> = Vec::new();
    push_collection_items(&mut items, base, &chars_of("iid"), &chars_of("b"), false);
    let ghost head = collection_items(base@, "iid"@, "b"@, false);
    proof {
        assert(items_view(items@) =~= head);
        assert(ls.take(0) =~= Seq::<FetchLinkView>::empty());
        assert(items_view(items@) =~= head + all_link_items(base@, ls.take(0), ls.len()));
    }
    let n = links.len();
    let mut i: usize = 0;
    while i < links.len()
        invariant
            ls == fetch_links_view(links@),
            n == links@.len(),
            head == collection_items(base@, "iid"@, "b"@, false),
            i <= links@.len(),
            items_view(items@) == head + all_link_items(base@, ls.take(i as int), n as nat),
        decreases links@.len() - i,
    {
        proof {
            assert(ls.take(i + 1).drop_last() =~= ls.take(i as int));
            assert(ls.take(i + 1).last() == links@[i as int]@);
        }
        let p = link_prefix_chars(n, i);
        push_link_items(&mut items, base, &links[i], &p);
        i = i + 1;
        proof {
            assert(items_view(items@) =~= head + all_link_items(base@, ls.take(i as int), n as nat));
        }
    }
    proof {
        assert(ls.take(links@.len() as int) =~= ls);
    }
    items
}

/// The joins of a read of `base` following `links`.
pub fn fetch_joins_of(base: &DynamicCollection, links: &Vec<FetchLinkPlan>) -> (r: Vec<Join>)
    ensures
        joins_view(r@) == link_joins(base@, fetch_links_view(links@)),
{
    let ghost ls = fetch_links_view(links@);
    let mut joins: Vec<Join> = Vec::new();
    let mut i: usize = 0;
    proof {
        assert(ls.take(0) =~= Seq::<FetchLinkView>::empty());
        assert(joins_view(joins@) =~= Seq::<JoinView>::empty());
    }
    while i < links.len()
        invariant
            ls == fetch_links_view(links@),
            i <= links@.len(),
            joins_view(joins@) == link_joins(base@, ls.take(i as int)),
        decreases links@.len() - i,
    {
        proof {
            assert(ls.take(i + 1).drop_last() =~= ls.take(i as int));
            assert(ls.take(i + 1).last() == links@[i as int]@);
        }
        let ghost before = joins_view(joins@);
        match &links[i] {
            FetchLinkPlan::Forward { to } => {
                let mut fk = String::new();
                fk.append("fk_");
                fk.append(to.collection_name.snake_case.as_str());
                fk.append("_def");
                joins.push(
                    Join {
                        inner: false,
                        table: chars_of(to.collection_name.pascal_case.as_str()),
                        left_table: chars_of(base.collection_name.pascal_case.as_str()),
                        left_column: chars_of(fk.as_str()),
                        right_column: chars_of("id"),
                    },
                );
                proof {
                    assert(fk@ =~= fk_column(to@.name));
                    assert(joins_view(joins@) =~= link_joins(base@, ls.take(i + 1)));
                }
            },
            _ => {
                proof {
                    assert(link_joins(base@, ls.take(i + 1)) =~= link_joins(base@, ls.take(i as int)));
                }
            },
        }
        i = i + 1;
    }
    proof {
        assert(ls.take(links@.len() as int) =~= ls);
    }
    joins
}

/// The conditions of a list of filters, each after ` AND `, and the values
/// they bind, when `n` values are bound before them.
pub open spec fn and_filters(fs: Seq<FilterView>, fields: Seq<FieldView>, n: nat) -> (Seq<char>, Seq<BindView>) {
    if fs.len() == 0 {
        (Seq::empty(), Seq::empty())
    } else {
        let r = filters_text(fs, " AND "@, fields, n);
        (" AND "@ + r.0, r.1)
    }
}

/// Writes each filter after ` AND `, checking it against the fields.
pub fn write_and_filters(b: &mut StatementBuilder, filters: &Vec<SupportedFilter>, fields: &Vec<crate::schema::DynamicField>) -> (r: Result<(), ()>)
    ensures
        r is Ok <==> filters_ok(filters_view(filters@), fields_view(fields@)),
        r is Ok ==> {
            let t = and_filters(filters_view(filters@), fields_view(fields@), old(b).binds@.len());
            &&& final(b).sql@ == old(b).sql@ + t.0
            &&& binds_view(final(b).binds@) == binds_view(old(b).binds@) + t.1
        },
{
    let ghost fs = filters_view(filters@);
    let ghost fv = fields_view(fields@);
    let ghost n0 = old(b).binds@.len();
    let ghost start = b.sql@;
    let ghost start_binds = binds_view(b.binds@);
    let mut i: usize = 0;
    proof {
        assert(fs.subrange(0, 0) =~= Seq::<FilterView>::empty());
        assert(b.sql@ =~= start + Seq::<char>::empty());
        assert(binds_view(b.binds@) =~= start_binds + Seq::<BindView>::empty());
        assert(start_binds.len() == n0);
    }
    while i < filters.len()
        invariant
            i <= filters@.len(),
            fs == filters_view(filters@),
            fv == fields_view(fields@),
            start_binds == binds_view(old(b).binds@),
            start_binds.len() == n0,
            n0 == old(b).binds@.len(),
            filters_ok(fs.subrange(0, i as int), fv),
            b.sql@ == start + and_filters(fs.subrange(0, i as int), fv, n0).0,
            binds_view(b.binds@) == start_binds + and_filters(fs.subrange(0, i as int), fv, n0).1,
            b.binds@.len() == n0 + and_filters(fs.subrange(0, i as int), fv, n0).1.len(),
        decreases filters@.len() - i,
    {
        proof {
            assert(fs.subrange(0, i + 1).subrange(0, i as int) =~= fs.subrange(0, i as int));
            assert(fs.subrange(0, i + 1)[i as int] == fs[i as int]);
            assert(fs[i as int] == filters@[i as int]@);
            lemma_and_filters_step(fs, fv, n0, i as int);
        }
        b.syntax(" AND ");
        let ghost before_binds = binds_view(b.binds@);
        let res = filters[i].write(fields, b);
        if res.is_err() {
            proof {
                assert(!filters_ok(fs.subrange(0, i + 1), fv));
                if filters_ok(fs, fv) {
                    lemma_filters_ok_prefix(fs, fv, i + 1);
                }
            }
            return Err(());
        }
        i = i + 1;
        proof {
            assert(b.sql@ =~= start + and_filters(fs.subrange(0, i as int), fv, n0).0);
            assert(binds_view(b.binds@) =~= start_binds + and_filters(fs.subrange(0, i as int), fv, n0).1);
            assert(binds_view(b.binds@).len() == b.binds@.len());
        }
    }
    proof {
        assert(fs.subrange(0, fs.len() as int) =~= fs);
    }
    Ok(())
}

/// One more filter extends the text by ` AND ` and its condition, and the
/// values by its values.
proof fn lemma_and_filters_step(fs: Seq<FilterView>, fv: Seq<FieldView>, n0: nat, i: int)
    requires
        0 <= i < fs.len(),
    ensures
        ({
            let p = and_filters(fs.subrange(0, i), fv, n0);
            let l = filter_text(fs[i], fv, n0 + p.1.len());
            &&& and_filters(fs.subrange(0, i + 1), fv, n0).0 == p.0 + " AND "@ + l.0
            &&& and_filters(fs.subrange(0, i + 1), fv, n0).1 == p.1 + l.1
        }),
{
    let s1 = fs.subrange(0, i + 1);
    assert(s1.subrange(0, s1.len() - 1) =~= fs.subrange(0, i));
    assert(s1[s1.len() - 1] == fs[i]);
    if i == 0 {
        assert(fs.subrange(0, 0).len() == 0);
        assert(filters_text(fs.subrange(0, 0), " AND "@, fv, n0).1 =~= Seq::<BindView>::empty());
        assert(and_filters(fs.subrange(0, 1), fv, n0).1 =~= filter_text(fs[0], fv, n0).1);
    }
}

/// A list of filters all of which apply has every prefix applying.
pub proof fn lemma_filters_ok_prefix(fs: Seq<FilterView>, fields: Seq<FieldView>, i: int)
    requires
        0 <= i <= fs.len(),
        filters_ok(fs, fields),
    ensures
        filters_ok(fs.subrange(0, i), fields),
    decreases fs.len() - i,
{
    if i < fs.len() {
        lemma_filters_ok_prefix(fs, fields, i + 1);
        assert(fs.subrange(0, i + 1).subrange(0, i) =~= fs.subrange(0, i));
    } else {
        assert(fs.subrange(0, i) =~= fs);
    }
}

/// The statement that reads row `id` of `base` with the links' columns,
/// if it passes the filters.
pub open spec fn fetch_one_view(base: CollectionView, ls: Seq<FetchLinkView>, fs: Seq<FilterView>, id: int) -> crate::session::StatementView {
    let items = fetch_items(base, ls);
    let w = and_filters(fs, base.fields, 1);
    crate::session::StatementView {
        sql: select_head_sql(items, base.table, link_joins(base, ls)) + " WHERE "@ + quoted(base.table)
            + "."@ + quoted("id"@) + " = "@ + marker(1) + w.0 + ";"@,
        binds: seq![BindView::Int(id)] + w.1,
        columns: items.map_values(|it: SelectItemView| crate::query::item_column(it)),
    }
}

/// Reads row `id` of `base` with the links' columns, if it passes the
/// filters (which must apply).
pub fn fetch_one_statement(
    base: &DynamicCollection,
    links: &Vec<FetchLinkPlan>,
    filters: &Vec<SupportedFilter>,
    id: i64,
) -> (r: Statement)
    requires
        filters_ok(filters_view(filters@), base@.fields),
    ensures
        r@ == fetch_one_view(base@, fetch_links_view(links@), filters_view(filters@), id as int),
{
    let items = fetch_items_of(base, links);
    let joins = fetch_joins_of(base, links);
    let table = chars_of(base.collection_name.pascal_case.as_str());
    let mut b = StatementBuilder::new();
    write_select_head(&mut b, &items, &table, &joins);
    b.syntax(" WHERE ");
    b.sanitize(&table);
    b.syntax(".");
    b.sanitize_str("id");
    b.syntax(" = ");
    b.bind(BindValue::Int(id));
    proof {
        assert(fields_view(base.fields@) == base@.fields);
        assert(b.binds@.len() == 1);
    }
    let ghost mid = b.sql@;
    let ghost mid_binds = binds_view(b.binds@);
    let res = write_and_filters(&mut b, filters, &base.fields);
    if res.is_err() {
        proof {
            assert(false);
        }
    }
    b.syntax(";");
    let columns = item_columns(&items);
    let st = b.finish(columns);
    proof {
        assert(mid_binds =~= seq![BindView::Int(id as int)]);
        assert(st@.sql =~= fetch_one_view(base@, fetch_links_view(links@), filters_view(filters@), id as int).sql);
        assert(st@.binds =~= fetch_one_view(base@, fetch_links_view(links@), filters_view(filters@), id as int).binds);
    }
    st
}

/// The columns of a row of `c` as they are named in its table.
pub open spec fn plain_items(c: CollectionView) -> Seq<SelectItemView> {
    seq![SelectItemView { table: c.table, column: "id"@, alias: Seq::empty(), ty: ColumnType::Int, optional: false }]
        + c.fields.map_values(
        |f: FieldView|
            SelectItemView { table: c.table, column: f.name, alias: Seq::empty(), ty: f.ty, optional: f.optional },
    )
}

/// Appends the columns of a row of `c` as they are named in its table.
fn push_plain_items(items: &mut Vec<SelectItem>, c: &DynamicCollection)
    ensures
        items_view(final(items)@) == items_view(old(items)@) + plain_items(c@),
{
    let table = chars_of(c.collection_name.pascal_case.as_str());
    let ghost start = items_view(items@);
    let ghost all = plain_items(c@);
    items.push(SelectItem { table: copy_chars(&table), column: chars_of("id"), alias: Vec::new(), ty: ColumnType::Int, optional: false });
    proof {
        assert(items_view(items@) =~= start + all.take(1));
    }
    let mut i: usize = 0;
    while i < c.fields.len()
        invariant
            i <= c.fields@.len(),
            table@ == c@.table,
            all == plain_items(c@),
            all.len() == c.fields@.len() + 1,
            items_view(items@) == start + all.take(i + 1),
        decreases c.fields@.len() - i,
    {
        let f = &c.fields[i];
        let ghost before = items_view(items@);
        items.push(
            SelectItem {
                table: copy_chars(&table),
                column: chars_of(f.name.snake_case.as_str()),
                alias: Vec::new(),
                ty: f.type_info,
                optional: f.is_optional,
            },
        );
        proof {
            assert(c@.fields[i as int] == f@);
            assert(items_view(items@) =~= before.push(all[i + 1]));
            assert(all.take(i + 2) =~= all.take(i + 1).push(all[i + 1]));
        }
        i = i + 1;
    }
    proof {
        assert(all.take(c.fields@.len() as int + 1) =~= all);
    }
}

/// The statement reading the rows of a link's collection that belong to
/// the read rows `ids`: paired with them, or referencing them. Each row
/// comes with the id it belongs to, as `from_id`.
pub open spec fn post_query_view(base: CollectionView, l: FetchLinkView, ids: Seq<int>) -> crate::session::StatementView {
    let (items, from, joins, key_table, key_column) = match l {
        FetchLinkView::Many(c) => {
            let jt = junction_table(base.name, c.name);
            (
                seq![SelectItemView { table: jt, column: id_column(base.name), alias: "from_id"@, ty: ColumnType::Int, optional: false }]
                    + plain_items(c),
                jt,
                seq![JoinView { inner: true, table: c.table, left_table: jt, left_column: id_column(c.name), right_column: "id"@ }],
                jt,
                id_column(base.name),
            )
        },
        FetchLinkView::Inverse(c) => (
            seq![SelectItemView { table: c.table, column: fk_column(base.name), alias: "from_id"@, ty: ColumnType::Int, optional: true }]
                + plain_items(c),
            c.table,
            Seq::empty(),
            c.table,
            fk_column(base.name),
        ),
        _ => (Seq::empty(), Seq::empty(), Seq::empty(), Seq::empty(), Seq::empty()),
    };
    crate::session::StatementView {
        sql: select_head_sql(items, from, joins) + " WHERE "@ + quoted(key_table) + "."@ + quoted(key_column)
            + " IN ("@ + crate::query::markers_sql(0, ids.len()) + ");"@,
        binds: ids.map_values(|i: int| BindView::Int(i)),
        columns: items.map_values(|it: SelectItemView| crate::query::item_column(it)),
    }
}

/// Integers by their values.
pub open spec fn ids_view(ids: Seq<i64>) -> Seq<int> {
    ids.map_values(|i: i64| i as int)
}

/// The read of the rows of a paired or referencing link that belong to
/// the rows `ids`.
pub fn post_query_statement(base: &DynamicCollection, l: &FetchLinkPlan, ids: &Vec<i64>) -> (r: Statement)
    requires
        l@ is Many || l@ is Inverse,
    ensures
        r@ == post_query_view(base@, l@, ids_view(ids@)),
{
    let mut items: Vec<SelectItem> = Vec::new();
    let mut joins: Vec<Join> = Vec::new();
    let from: Vec<char>;
    let key_table: Vec<char>;
    let key_column: Vec<char>;
    match l {
        FetchLinkPlan::Many { to } => {
            let mut jt = String::new();
            jt.append("ct_");
            jt.append(base.collection_name.snake_case.as_str());
            jt.append(to.collection_name.snake_case.as_str());
            jt.append("_def");
            let mut from_id = String::new();
            from_id.append(base.collection_name.snake_case.as_str());
            from_id.append("_id");
            let mut to_id = String::new();
            to_id.append(to.collection_name.snake_case.as_str());
            to_id.append("_id");
            proof {
                assert(jt@ =~= junction_table(base@.name, to@.name));
                assert(from_id@ =~= id_column(base@.name));
                assert(to_id@ =~= id_column(to@.name));
            }
            items.push(SelectItem { table: chars_of(jt.as_str()), column: chars_of(from_id.as_str()), alias: chars_of("from_id"), ty: ColumnType::Int, optional: false });
            push_plain_items(&mut items, to);
            joins.push(Join {
                inner: true,
                table: chars_of(to.collection_name.pascal_case.as_str()),
                left_table: chars_of(jt.as_str()),
                left_column: chars_of(to_id.as_str()),
                right_column: chars_of("id"),
            });
            from = chars_of(jt.as_str());
            key_table = chars_of(jt.as_str());
            key_column = chars_of(from_id.as_str());
            proof {
                assert(items_view(items@) =~= seq![SelectItemView { table: jt@, column: id_column(base@.name), alias: "from_id"@, ty: ColumnType::Int, optional: false }]
                    + plain_items(to@));
                assert(joins_view(joins@) =~= seq![JoinView { inner: true, table: to@.table, left_table: jt@, left_column: id_column(to@.name), right_column: "id"@ }]);
            }
        },
        FetchLinkPlan::Inverse { to } => {
            let mut fk = String::new();
            fk.append("fk_");
            fk.append(base.collection_name.snake_case.as_str());
            fk.append("_def");
            proof {
                assert(fk@ =~= fk_column(base@.name));
            }
            items.push(SelectItem { table: chars_of(to.collection_name.pascal_case.as_str()), column: chars_of(fk.as_str()), alias: chars_of("from_id"), ty: ColumnType::Int, optional: true });
            push_plain_items(&mut items, to);
            from = chars_of(to.collection_name.pascal_case.as_str());
            key_table = chars_of(to.collection_name.pascal_case.as_str());
            key_column = chars_of(fk.as_str());
            proof {
                assert(items_view(items@) =~= seq![SelectItemView { table: to@.table, column: fk_column(base@.name), alias: "from_id"@, ty: ColumnType::Int, optional: true }]
                    + plain_items(to@));
                assert(joins_view(joins@) =~= Seq::<JoinView>::empty());
            }
        },
        _ => {
            proof {
                assert(false);
            }
            from = Vec::new();
            key_table = Vec::new();
            key_column = Vec::new();
        },
    }
    let ghost want = post_query_view(base@, l@, ids_view(ids@));
    let mut b = StatementBuilder::new();
    write_select_head(&mut b, &items, &from, &joins);
    b.syntax(" WHERE ");
    b.sanitize(&key_table);
    b.syntax(".");
    b.sanitize(&key_column);
    b.syntax(" IN (");
    let mut values: Vec<BindValue> = Vec::new();
    let mut i: usize = 0;
    while i < ids.len()
        invariant
            i <= ids@.len(),
            binds_view(values@) == ids_view(ids@).take(i as int).map_values(|i: int| BindView::Int(i)),
        decreases ids@.len() - i,
    {
        let ghost before = binds_view(values@);
        values.push(BindValue::Int(ids[i]));
        proof {
            assert(binds_view(values@) =~= before.push(BindView::Int(ids@[i as int] as int)));
            assert(ids_view(ids@).take(i + 1).map_values(|i: int| BindView::Int(i)) =~= ids_view(ids@).take(
                i as int,
            ).map_values(|i: int| BindView::Int(i)).push(BindView::Int(ids@[i as int] as int)));
        }
        i = i + 1;
    }
    proof {
        assert(ids_view(ids@).take(ids@.len() as int) =~= ids_view(ids@));
        assert(binds_view(b.binds@) =~= Seq::<BindView>::empty());
    }
    crate::statements::bind_all(&mut b, &values);
    b.syntax(");");
    let columns = item_columns(&items);
    let st = b.finish(columns);
    proof {
        assert(st@.sql =~= want.sql);
        assert(st@.binds =~= want.binds);
        assert(st@.columns =~= want.columns);
    }
    st
}

/// The reads of the rows of the paired and referencing links, in link
/// order, for the rows `ids`.
pub open spec fn post_queries(base: CollectionView, ls: Seq<FetchLinkView>, ids: Seq<int>) -> Seq<crate::session::StatementView>
    decreases ls.len(),
{
    if ls.len() == 0 {
        Seq::empty()
    } else {
        post_queries(base, ls.drop_last(), ids) + if ls.last() is Many || ls.last() is Inverse {
            seq![post_query_view(base, ls.last(), ids)]
        } else {
            Seq::empty()
        }
    }
}

/// How many links have their rows read afterwards.
pub open spec fn post_count(ls: Seq<FetchLinkView>) -> nat
    decreases ls.len(),
{
    if ls.len() == 0 {
        0
    } else {
        post_count(ls.drop_last()) + if ls.last() is Many || ls.last() is Inverse {
            1nat
        } else {
            0nat
        }
    }
}

/// How many columns a link adds to the select.
pub open spec fn link_width(l: FetchLinkView) -> nat {
    match l {
        FetchLinkView::Forward(c) => 1 + c.fields.len(),
        FetchLinkView::Inverse(_) => 1,
        FetchLinkView::Many(_) => 1,
        FetchLinkView::Timestamp => 2,
    }
}

/// How many columns the links add to the select.
pub open spec fn width_sum(ls: Seq<FetchLinkView>) -> nat
    decreases ls.len(),
{
    if ls.len() == 0 {
        0
    } else {
        width_sum(ls.drop_last()) + link_width(ls.last())
    }
}

/// The outputs of the rows of `c` that belong to row `id`, in the order
/// they came: nothing where a row is too short.
pub open spec fn many_output(c: CollectionView, rows: Seq<Seq<Json>>, id: int) -> Option<Seq<Json>>
    decreases rows.len(),
{
    if rows.len() == 0 {
        Some(Seq::empty())
    } else {
        match many_output(c, rows.drop_last(), id) {
            None => None,
            Some(outs) => {
                let r = rows.last();
                if r.len() < 2 + c.fields.len() {
                    None
                } else if r[0] == Json::Int(id) {
                    Some(outs.push(record_json(c.fields, r[1], r.subrange(2, 2 + c.fields.len() as int))))
                } else {
                    Some(outs)
                }
            },
        }
    }
}

/// The output of one link of a read row: the referenced row or `null`;
/// the rows that belong to it; its times.
pub open spec fn one_link_output(
    l: FetchLinkView,
    row: Seq<Json>,
    off: int,
    post: Seq<Seq<Seq<Json>>>,
    k: int,
    id: int,
) -> Option<Json> {
    match l {
        FetchLinkView::Forward(c) => if row[off] == Json::Null {
            Some(Json::Null)
        } else {
            Some(record_json(c.fields, row[off], row.subrange(off + 1, off + 1 + c.fields.len())))
        },
        FetchLinkView::Inverse(c) => if 0 <= k < post.len() {
            match many_output(c, post[k], id) {
                Some(rs) => Some(Json::Object(seq![("many_output"@, Json::Array(rs))])),
                None => None,
            }
        } else {
            None
        },
        FetchLinkView::Many(c) => if 0 <= k < post.len() {
            match many_output(c, post[k], id) {
                Some(rs) => Some(Json::Object(seq![("many_output"@, Json::Array(rs))])),
                None => None,
            }
        } else {
            None
        },
        FetchLinkView::Timestamp => Some(
            Json::Object(seq![("created_at"@, row[off]), ("updated_at"@, row[off + 1])]),
        ),
    }
}

/// The outputs of the links of a read row of `base`, in order.
pub open spec fn fetched_links(
    base: CollectionView,
    ls: Seq<FetchLinkView>,
    row: Seq<Json>,
    post: Seq<Seq<Seq<Json>>>,
    id: int,
) -> Option<Seq<Json>>
    decreases ls.len(),
{
    if ls.len() == 0 {
        Some(Seq::empty())
    } else {
        let before = ls.drop_last();
        match (
            fetched_links(base, before, row, post, id),
            one_link_output(ls.last(), row, (1 + base.fields.len() + width_sum(before)) as int, post, post_count(before) as int, id),
        ) {
            (Some(outs), Some(o)) => Some(outs.push(o)),
            _ => None,
        }
    }
}

/// The output of a read row with its links: nothing where the row is too
/// short or its id is not an integer.
pub open spec fn fetched_record(
    base: CollectionView,
    ls: Seq<FetchLinkView>,
    row: Seq<Json>,
    post: Seq<Seq<Seq<Json>>>,
) -> Option<Json> {
    if row.len() >= 1 + base.fields.len() + width_sum(ls) && row[0] is Int {
        match fetched_links(base, ls, row, post, row[0]->Int_0) {
            Some(outs) => Some(crate::insert::linked_record_json(base.fields, row, outs)),
            None => None,
        }
    } else {
        None
    }
}

/// The outputs of the rows of `c` that belong to row `id`.
pub fn many_records(c: &DynamicCollection, rows: &crate::session::Rows, id: i64) -> (r: Option<Vec<JsonValue>>)
    ensures
        match many_output(c@, crate::session::rows_view(rows@), id as int) {
            Some(outs) => r matches Some(v) && json_seq(v@) == outs,
            None => r is None,
        },
{
    let ghost rv = crate::session::rows_view(rows@);
    let mut outs: Vec<JsonValue> = Vec::new();
    let mut i: usize = 0;
    proof {
        assert(rv.take(0) =~= Seq::<Seq<Json>>::empty());
        assert(json_seq(outs@) =~= Seq::<Json>::empty());
    }
    while i < rows.len()
        invariant
            rv == crate::session::rows_view(rows@),
            i <= rows@.len(),
            many_output(c@, rv.take(i as int), id as int) == Some(json_seq(outs@)),
        decreases rows@.len() - i,
    {
        let row = &rows[i];
        proof {
            assert(rv.take(i + 1).drop_last() =~= rv.take(i as int));
            assert(rv.take(i + 1).last() == json_seq(row@));
        }
        if row.len() < 2 || row.len() - 2 < c.fields.len() {
            proof {
                lemma_many_output_prefix(c@, rv, id as int, i + 1);
            }
            return None;
        }
        let matches = match &row[0] {
            JsonValue::Int(x) => *x == id,
            _ => false,
        };
        if matches {
            let ghost before = json_seq(outs@);
            let rec = crate::statements::record_output(c, row, 1);
            outs.push(rec);
            proof {
                assert(json_seq(outs@) =~= before.push(rec@));
            }
        }
        i = i + 1;
    }
    proof {
        assert(rv.take(rows@.len() as int) =~= rv);
    }
    Some(outs)
}

/// Once some rows have no output, more rows have none.
proof fn lemma_many_output_prefix(c: CollectionView, rows: Seq<Seq<Json>>, id: int, i: int)
    requires
        0 <= i <= rows.len(),
        many_output(c, rows.take(i), id) is None,
    ensures
        many_output(c, rows, id) is None,
    decreases rows.len() - i,
{
    if i < rows.len() {
        assert(rows.take(i + 1).drop_last() =~= rows.take(i));
        lemma_many_output_prefix(c, rows, id, i + 1);
    } else {
        assert(rows.take(i) =~= rows);
    }
}

/// Once some links have no output, more links have none.
proof fn lemma_fetched_links_prefix(
    base: CollectionView,
    ls: Seq<FetchLinkView>,
    row: Seq<Json>,
    post: Seq<Seq<Seq<Json>>>,
    id: int,
    i: int,
)
    requires
        0 <= i <= ls.len(),
        fetched_links(base, ls.take(i), row, post, id) is None,
    ensures
        fetched_links(base, ls, row, post, id) is None,
    decreases ls.len() - i,
{
    if i < ls.len() {
        assert(ls.take(i + 1).drop_last() =~= ls.take(i));
        lemma_fetched_links_prefix(base, ls, row, post, id, i + 1);
    } else {
        assert(ls.take(i) =~= ls);
    }
}

/// The columns the links add never shrink as links are added.
proof fn lemma_width_sum_mono(ls: Seq<FetchLinkView>, i: int)
    requires
        0 <= i <= ls.len(),
    ensures
        width_sum(ls.take(i)) <= width_sum(ls),
    decreases ls.len() - i,
{
    if i < ls.len() {
        assert(ls.take(i + 1).drop_last() =~= ls.take(i));
        lemma_width_sum_mono(ls, i + 1);
    } else {
        assert(ls.take(i) =~= ls);
    }
}

/// The outputs of the links of a read row whose id is `id`, given the rows
/// read afterwards: nothing where the row is too short for the links.
pub fn fetched_links_output(
    base: &DynamicCollection,
    links: &Vec<FetchLinkPlan>,
    row: &Vec<JsonValue>,
    post: &Vec<crate::session::Rows>,
    id: i64,
) -> (r: Option<Vec<JsonValue>>)
    requires
        row@.len() >= 1 + base@.fields.len(),
        json_seq(row@)[0] == Json::Int(id as int),
    ensures
        if row@.len() >= 1 + base@.fields.len() + width_sum(fetch_links_view(links@)) {
            match fetched_links(base@, fetch_links_view(links@), json_seq(row@), crate::session::batch_view(post@), id as int) {
                Some(o) => r matches Some(v) && json_seq(v@) == o,
                None => r is None,
            }
        } else {
            r is None
        },
{
    let ghost ls = fetch_links_view(links@);
    let ghost rv = json_seq(row@);
    let ghost pv = crate::session::batch_view(post@);
    let rl = row.len();
    let n = base.fields.len();
    let mut off: usize = 1 + n;
    let mut k: usize = 0;
    let mut outs: Vec<JsonValue> = Vec::new();
    let mut i: usize = 0;
    proof {
        assert(ls.take(0) =~= Seq::<FetchLinkView>::empty());
        assert(json_seq(outs@) =~= Seq::<Json>::empty());
    }
    while i < links.len()
        invariant
            ls == fetch_links_view(links@),
            rv == json_seq(row@),
            pv == crate::session::batch_view(post@),
            rl == row@.len(),
            n == base@.fields.len(),
            rv[0] == Json::Int(id as int),
            i <= links@.len(),
            off == 1 + n + width_sum(ls.take(i as int)),
            off <= rl,
            k == post_count(ls.take(i as int)),
            k <= i,
            fetched_links(base@, ls.take(i as int), rv, pv, id as int) == Some(json_seq(outs@)),
        decreases links@.len() - i,
    {
        proof {
            assert(ls.take(i + 1).drop_last() =~= ls.take(i as int));
            assert(ls.take(i + 1).last() == links@[i as int]@);
        }
        let ghost before = json_seq(outs@);
        let o: Option<JsonValue> = match &links[i] {
            FetchLinkPlan::Forward { to } => {
                if rl - off < 1 || rl - off - 1 < to.fields.len() {
                    None
                } else {
                    match &row[off] {
                        JsonValue::Null => Some(JsonValue::Null),
                        _ => {
                            proof {
                                assert(rv[off as int] != Json::Null);
                            }
                            Some(crate::statements::record_output(to, row, off))
                        },
                    }
                }
            },
            FetchLinkPlan::Inverse { to } | FetchLinkPlan::Many { to } => {
                if k >= post.len() || rl - off < 1 {
                    None
                } else {
                    proof {
                        assert(pv[k as int] == crate::session::rows_view(post@[k as int]@));
                    }
                    match many_records(to, &post[k], id) {
                        Some(rs) => {
                            let ghost rsv = json_seq(rs@);
                            proof {
                                crate::values::lemma_array_view(rs);
                            }
                            Some(crate::session::single_member("many_output", JsonValue::Array(rs)))
                        },
                        None => None,
                    }
                }
            },
            FetchLinkPlan::Timestamp => {
                if rl - off < 2 {
                    None
                } else {
                    let mut es: Vec<(Vec<char>, JsonValue)> = Vec::new();
                    es.push((chars_of("created_at"), crate::json::clone_json(&row[off])));
                    es.push((chars_of("updated_at"), crate::json::clone_json(&row[off + 1])));
                    proof {
                        crate::values::lemma_object_view(es);
                        assert(crate::values::entries_view(es@) =~= seq![("created_at"@, rv[off as int]), ("updated_at"@, rv[off + 1])]);
                    }
                    Some(JsonValue::Object(es))
                }
            },
        };
        match o {
            Some(v) => {
                outs.push(v);
                proof {
                    assert(json_seq(outs@) =~= before.push(v@));
                }
            },
            None => {
                proof {
                    lemma_width_sum_mono(ls, i + 1);
                    if rv.len() >= 1 + n + width_sum(ls) {
                        assert(fetched_links(base@, ls.take(i + 1), rv, pv, id as int) is None);
                        lemma_fetched_links_prefix(base@, ls, rv, pv, id as int, i + 1);
                    }
                }
                return None;
            },
        }
        match &links[i] {
            FetchLinkPlan::Forward { to } => {
                off = off + 1 + to.fields.len();
            },
            FetchLinkPlan::Inverse { .. } | FetchLinkPlan::Many { .. } => {
                off = off + 1;
                k = k + 1;
            },
            FetchLinkPlan::Timestamp => {
                off = off + 2;
            },
        }
        i = i + 1;
    }
    proof {
        assert(ls.take(links@.len() as int) =~= ls);
    }
    Some(outs)
}

/// The output of a read row with its links, given the rows read
/// afterwards.
pub fn fetched_record_output(
    base: &DynamicCollection,
    links: &Vec<FetchLinkPlan>,
    row: &Vec<JsonValue>,
    post: &Vec<crate::session::Rows>,
) -> (r: Option<JsonValue>)
    ensures
        match fetched_record(base@, fetch_links_view(links@), json_seq(row@), crate::session::batch_view(post@)) {
            Some(j) => r matches Some(v) && v@ == j,
            None => r is None,
        },
{
    let id = match row.len() {
        0 => return None,
        _ => match &row[0] {
            JsonValue::Int(x) => *x,
            _ => return None,
        },
    };
    if row.len() - 1 < base.fields.len() {
        return None;
    }
    match fetched_links_output(base, links, row, post, id) {
        Some(outs) => Some(crate::insert::linked_record_output(base, row, outs)),
        None => None,
    }
}

/// The reads of the rows of the paired and referencing links for the rows
/// `ids`.
pub fn post_query_statements(base: &DynamicCollection, links: &Vec<FetchLinkPlan>, ids: &Vec<i64>) -> (r: Vec<Statement>)
    ensures
        crate::session::statements_view(r@) == post_queries(base@, fetch_links_view(links@), ids_view(ids@)),
{
    let ghost ls = fetch_links_view(links@);
    let mut r: Vec<Statement> = Vec::new();
    let mut i: usize = 0;
    proof {
        assert(ls.take(0) =~= Seq::<FetchLinkView>::empty());
        assert(crate::session::statements_view(r@) =~= Seq::<crate::session::StatementView>::empty());
    }
    while i < links.len()
        invariant
            ls == fetch_links_view(links@),
            i <= links@.len(),
            crate::session::statements_view(r@) == post_queries(base@, ls.take(i as int), ids_view(ids@)),
        decreases links@.len() - i,
    {
        proof {
            assert(ls.take(i + 1).drop_last() =~= ls.take(i as int));
            assert(ls.take(i + 1).last() == links@[i as int]@);
        }
        let ghost before = crate::session::statements_view(r@);
        match &links[i] {
            FetchLinkPlan::Inverse { .. } | FetchLinkPlan::Many { .. } => {
                let st = post_query_statement(base, &links[i], ids);
                r.push(st);
                proof {
                    assert(crate::session::statements_view(r@) =~= before.push(st@));
                }
            },
            _ => {
                proof {
                    assert(crate::session::statements_view(r@) =~= before + Seq::<crate::session::StatementView>::empty());
                }
            },
        }
        i = i + 1;
    }
    proof {
        assert(ls.take(links@.len() as int) =~= ls);
    }
    r
}

/// Whether the filters apply to the fields.
pub fn check_filters(filters: &Vec<SupportedFilter>, fields: &Vec<crate::schema::DynamicField>) -> (r: bool)
    ensures
        r == filters_ok(filters_view(filters@), fields_view(fields@)),
{
    let mut scratch = StatementBuilder::new();
    write_and_filters(&mut scratch, filters, fields).is_ok()
}

/// A request to read one row by its id.
pub struct FetchOneInput {
    pub base: String,
    pub id: i64,
    pub filters: Vec<SupportedFilter>,
    pub links: Vec<SupportedLinkFetchOne>,
}

/// Why a read of one row was refused or found nothing.
#[derive(Debug, PartialEq, Eq, Structural)]
pub enum FetchOneError {
    CollectionNotFound,
    NotFound,
    InvalidFilter,
    InvalidLink,
}

/// Why a read is refused, if it is: an unknown collection, then a filter
/// that does not apply, then a link that does not resolve.
pub open spec fn fetch_one_error(
    r: RegistryView,
    base: Seq<char>,
    fs: Seq<FilterView>,
    ls: Seq<FetchLinkInputView>,
) -> Option<FetchOneError> {
    if !has_collection(r.collections, base) {
        Some(FetchOneError::CollectionNotFound)
    } else if !filters_ok(fs, collection_named(r.collections, base).fields) {
        Some(FetchOneError::InvalidFilter)
    } else if resolve_links(r, base, ls) is None {
        Some(FetchOneError::InvalidLink)
    } else {
        None
    }
}

/// An accepted read of one row.
pub struct FetchOnePlan {
    pub base: DynamicCollection,
    pub links: Vec<FetchLinkPlan>,
    pub filters: Vec<SupportedFilter>,
    pub id: i64,
}

/// Resolves a request to read one row.
pub fn plan_fetch_one(reg: &Registry, input: FetchOneInput) -> (r: Result<FetchOnePlan, FetchOneError>)
    requires
        reg.wf(),
    ensures
        match fetch_one_error(reg@, input.base@, filters_view(input.filters@), fetch_links_input_view(input.links@)) {
            Some(e) => r == Err::<FetchOnePlan, FetchOneError>(e),
            None => r matches Ok(p) && {
                &&& p.base@ == collection_named(reg@.collections, input.base@)
                &&& Some(fetch_links_view(p.links@)) == resolve_links(reg@, input.base@, fetch_links_input_view(input.links@))
                &&& filters_view(p.filters@) == filters_view(input.filters@)
                &&& filters_ok(filters_view(p.filters@), p.base@.fields)
                &&& p.id == input.id
            },
        },
{
    let bi = match reg.find_collection(input.base.as_str()) {
        Some(bi) => bi,
        None => return Err(FetchOneError::CollectionNotFound),
    };
    let base = reg.collection_at(bi);
    proof {
        assert(fields_view(base.fields@) == base@.fields);
    }
    if !check_filters(&input.filters, &base.fields) {
        return Err(FetchOneError::InvalidFilter);
    }
    let links = match resolve_fetch_links(reg, &input.base, &input.links) {
        Some(l) => l,
        None => return Err(FetchOneError::InvalidLink),
    };
    Ok(FetchOnePlan { base: base.copy(), links, filters: input.filters, id: input.id })
}

/// What a read of one row asks for after the given batches ran: the row,
/// then the rows of its paired and referencing links, then the answer;
/// `NotFound` where no row came back.
pub open spec fn fetch_one_step_spec(p: FetchOnePlan, results: Seq<Seq<Seq<Seq<Json>>>>) -> crate::session::StepView {
    let ls = fetch_links_view(p.links@);
    if results.len() == 0 {
        crate::session::StepView::Run(seq![fetch_one_view(p.base@, ls, filters_view(p.filters@), p.id as int)])
    } else if results[0].len() == 0 {
        crate::session::StepView::Fail
    } else if results[0][0].len() == 0 {
        crate::session::StepView::Done(crate::session::error_response("NotFound"@))
    } else if results.len() == 1 {
        crate::session::StepView::Run(post_queries(p.base@, ls, seq![p.id as int]))
    } else {
        match fetched_record(p.base@, ls, results[0][0][0], results[1]) {
            Some(j) => crate::session::StepView::Done(crate::session::output_response(j)),
            None => crate::session::StepView::Fail,
        }
    }
}

/// What a read of one row asks for next.
pub fn fetch_one_step(p: &FetchOnePlan, results: &Vec<Vec<crate::session::Rows>>) -> (r: crate::session::Step)
    requires
        filters_ok(filters_view(p.filters@), p.base@.fields),
    ensures
        r@ == fetch_one_step_spec(*p, crate::insert::results_view(results@)),
{
    let ghost rv = crate::insert::results_view(results@);
    if results.len() == 0 {
        let st = fetch_one_statement(&p.base, &p.links, &p.filters, p.id);
        let ghost sv = st@;
        let mut v: Vec<Statement> = Vec::new();
        v.push(st);
        proof {
            assert(crate::session::statements_view(v@) =~= seq![sv]);
        }
        return crate::session::Step::Run(v);
    }
    proof {
        assert(rv[0] == crate::session::batch_view(results@[0]@));
    }
    if results[0].len() == 0 {
        return crate::session::Step::Fail;
    }
    proof {
        assert(rv[0][0] == crate::session::rows_view(results@[0]@[0]@));
    }
    if results[0][0].len() == 0 {
        return crate::session::Step::Done(crate::session::error("NotFound"));
    }
    if results.len() == 1 {
        let mut ids: Vec<i64> = Vec::new();
        ids.push(p.id);
        proof {
            assert(ids_view(ids@) =~= seq![p.id as int]);
        }
        return crate::session::Step::Run(post_query_statements(&p.base, &p.links, &ids));
    }
    proof {
        assert(rv[1] == crate::session::batch_view(results@[1]@));
        assert(rv[0][0][0] == json_seq(results@[0]@[0]@[0]@));
    }
    match fetched_record_output(&p.base, &p.links, &results[0][0][0], &results[1]) {
        Some(j) => crate::session::Step::Done(crate::session::output(j)),
        None => crate::session::Step::Fail,
    }
}


impl FetchOneError {
    /// The name of the error, as responses carry it.
    pub open spec fn spec_name(&self) -> Seq<char> {
        match self {
            FetchOneError::CollectionNotFound => "CollectionNotFound"@,
            FetchOneError::NotFound => "NotFound"@,
            FetchOneError::InvalidFilter => "InvalidFilter"@,
            FetchOneError::InvalidLink => "InvalidLink"@,
        }
    }

    /// The name of the error, as responses carry it.
    pub fn name(&self) -> (r: &'static str)
        ensures
            r@ == self.spec_name(),
    {
        match self {
            FetchOneError::CollectionNotFound => "CollectionNotFound",
            FetchOneError::NotFound => "NotFound",
            FetchOneError::InvalidFilter => "InvalidFilter",
            FetchOneError::InvalidLink => "InvalidLink",
        }
    }
}

} // verus!
