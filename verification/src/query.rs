//! The pieces that statements are made of: select lists, joins, column
//! lists and placeholders.
use vstd::prelude::*;
use crate::sql::{ColumnSpec, ColumnType, StatementBuilder, join, marker, quoted};
use crate::text::copy_chars;

verus! {

/// One item of a select list: a column of a table, with the name the row
/// carries it under (the column's own name when `alias` is empty).
pub struct SelectItem {
    pub table: Vec<char>,
    pub column: Vec<char>,
    pub alias: Vec<char>,
    pub ty: ColumnType,
    pub optional: bool,
}

/// A select item by its plain parts.
pub struct SelectItemView {
    pub table: Seq<char>,
    pub column: Seq<char>,
    pub alias: Seq<char>,
    pub ty: ColumnType,
    pub optional: bool,
}

impl View for SelectItem {
    type V = SelectItemView;

    open spec fn view(&self) -> SelectItemView {
        SelectItemView {
            table: self.table@,
            column: self.column@,
            alias: self.alias@,
            ty: self.ty,
            optional: self.optional,
        }
    }
}

/// Select items by their plain parts.
pub open spec fn items_view(v: Seq<SelectItem>) -> Seq<SelectItemView> {
    v.map_values(|it: SelectItem| it@)
}

/// A select item as SQL: `"table"."column"`, then `AS "alias"` where it
/// has one.
pub open spec fn item_sql(it: SelectItemView) -> Seq<char> {
    quoted(it.table) + "."@ + quoted(it.column) + if it.alias.len() == 0 {
        Seq::empty()
    } else {
        " AS "@ + quoted(it.alias)
    }
}

/// A select list: the items separated by commas.
pub open spec fn items_sql(its: Seq<SelectItemView>) -> Seq<char> {
    join(its.map_values(|it: SelectItemView| item_sql(it)), ", "@)
}

/// The column a row carries for a select item.
pub open spec fn item_column(it: SelectItemView) -> (Seq<char>, ColumnType, bool) {
    (if it.alias.len() == 0 {
        it.column
    } else {
        it.alias
    }, it.ty, it.optional)
}

/// Columns by their plain parts.
pub open spec fn columns_view(v: Seq<ColumnSpec>) -> Seq<(Seq<char>, ColumnType, bool)> {
    v.map_values(|c: ColumnSpec| (c.name@, c.ty, c.optional))
}

/// A join: `LEFT JOIN` or `INNER JOIN` a table on a column of a table
/// already in the query equal to a column of the joined one.
pub struct Join {
    pub inner: bool,
    pub table: Vec<char>,
    pub left_table: Vec<char>,
    pub left_column: Vec<char>,
    pub right_column: Vec<char>,
}

/// A join by its plain parts.
pub struct JoinView {
    pub inner: bool,
    pub table: Seq<char>,
    pub left_table: Seq<char>,
    pub left_column: Seq<char>,
    pub right_column: Seq<char>,
}

impl View for Join {
    type V = JoinView;

    open spec fn view(&self) -> JoinView {
        JoinView {
            inner: self.inner,
            table: self.table@,
            left_table: self.left_table@,
            left_column: self.left_column@,
            right_column: self.right_column@,
        }
    }
}

/// Joins by their plain parts.
pub open spec fn joins_view(v: Seq<Join>) -> Seq<JoinView> {
    v.map_values(|j: Join| j@)
}

/// A join as SQL, with the space before it.
pub open spec fn join_sql(j: JoinView) -> Seq<char> {
    (if j.inner {
        " INNER JOIN "@
    } else {
        " LEFT JOIN "@
    }) + quoted(j.table) + " ON "@ + quoted(j.left_table) + "."@ + quoted(j.left_column) + " = "@
        + quoted(j.table) + "."@ + quoted(j.right_column)
}

/// The joins of a query, one after the other.
pub open spec fn joins_sql(js: Seq<JoinView>) -> Seq<char>
    decreases js.len(),
{
    if js.len() == 0 {
        Seq::empty()
    } else {
        joins_sql(js.drop_last()) + join_sql(js.last())
    }
}

/// The head of a select statement: the list, the table, the joins.
pub open spec fn select_head_sql(
    items: Seq<SelectItemView>,
    from: Seq<char>,
    joins: Seq<JoinView>,
) -> Seq<char> {
    "SELECT "@ + items_sql(items) + " FROM "@ + quoted(from) + joins_sql(joins)
}

/// Column names, quoted and separated by commas.
pub open spec fn names_sql(names: Seq<Seq<char>>) -> Seq<char> {
    join(names.map_values(|n: Seq<char>| quoted(n)), ", "@)
}

/// The placeholders `$from+1` to `$from+count`, separated by commas.
pub open spec fn markers_sql(from: nat, count: nat) -> Seq<char> {
    join(Seq::new(count, |i: int| marker((from + i + 1) as nat)), ", "@)
}

/// A text joined with one more item.
pub proof fn lemma_join_push(s: Seq<Seq<char>>, x: Seq<char>, sep: Seq<char>)
    ensures
        join(s.push(x), sep) == if s.len() == 0 {
            x
        } else {
            join(s, sep) + sep + x
        },
{
    assert(s.push(x).drop_last() =~= s);
}

/// Writes a select item.
pub fn write_item(b: &mut StatementBuilder, it: &SelectItem)
    ensures
        final(b).sql@ == old(b).sql@ + item_sql(it@),
        final(b).binds@ == old(b).binds@,
{
    b.sanitize(&it.table);
    b.syntax(".");
    b.sanitize(&it.column);
    if it.alias.len() > 0 {
        b.syntax(" AS ");
        b.sanitize(&it.alias);
    }
    proof {
        assert(b.sql@ =~= old(b).sql@ + item_sql(it@));
    }
}

/// Writes a select list.
pub fn write_items(b: &mut StatementBuilder, items: &Vec<SelectItem>)
    ensures
        final(b).sql@ == old(b).sql@ + items_sql(items_view(items@)),
        final(b).binds@ == old(b).binds@,
{
    let ghost start = b.sql@;
    let ghost all = items_view(items@).map_values(|it: SelectItemView| item_sql(it));
    let mut i: usize = 0;
    proof {
        assert(all.take(0) =~= Seq::<Seq<char>>::empty());
        assert(b.sql@ =~= start + join(all.take(0), ", "@));
    }
    while i < items.len()
        invariant
            i <= items@.len(),
            all == items_view(items@).map_values(|it: SelectItemView| item_sql(it)),
            b.sql@ == start + join(all.take(i as int), ", "@),
            b.binds@ == old(b).binds@,
        decreases items@.len() - i,
    {
        if i > 0 {
            b.syntax(", ");
        }
        write_item(b, &items[i]);
        proof {
            assert(all.take(i + 1) =~= all.take(i as int).push(all[i as int]));
            lemma_join_push(all.take(i as int), all[i as int], ", "@);
            assert(all[i as int] == item_sql(items@[i as int]@));
        }
        i = i + 1;
        proof {
            assert(b.sql@ =~= start + join(all.take(i as int), ", "@));
        }
    }
    proof {
        assert(all.take(items@.len() as int) =~= all);
    }
}

/// Writes the joins of a query.
pub fn write_joins(b: &mut StatementBuilder, joins: &Vec<Join>)
    ensures
        final(b).sql@ == old(b).sql@ + joins_sql(joins_view(joins@)),
        final(b).binds@ == old(b).binds@,
{
    let ghost start = b.sql@;
    let mut i: usize = 0;
    proof {
        assert(joins_view(joins@).take(0) =~= Seq::<JoinView>::empty());
        assert(b.sql@ =~= start + joins_sql(joins_view(joins@).take(0)));
    }
    while i < joins.len()
        invariant
            i <= joins@.len(),
            b.sql@ == start + joins_sql(joins_view(joins@).take(i as int)),
            b.binds@ == old(b).binds@,
        decreases joins@.len() - i,
    {
        let j = &joins[i];
        if j.inner {
            b.syntax(" INNER JOIN ");
        } else {
            b.syntax(" LEFT JOIN ");
        }
        b.sanitize(&j.table);
        b.syntax(" ON ");
        b.sanitize(&j.left_table);
        b.syntax(".");
        b.sanitize(&j.left_column);
        b.syntax(" = ");
        b.sanitize(&j.table);
        b.syntax(".");
        b.sanitize(&j.right_column);
        proof {
            assert(joins_view(joins@).take(i + 1).drop_last() =~= joins_view(joins@).take(i as int));
            assert(joins_view(joins@).take(i + 1).last() == j@);
        }
        i = i + 1;
        proof {
            assert(b.sql@ =~= start + joins_sql(joins_view(joins@).take(i as int)));
        }
    }
    proof {
        assert(joins_view(joins@).take(joins@.len() as int) =~= joins_view(joins@));
    }
}

/// Writes the head of a select statement.
pub fn write_select_head(b: &mut StatementBuilder, items: &Vec<SelectItem>, from: &Vec<char>, joins: &Vec<Join>)
    ensures
        final(b).sql@ == old(b).sql@ + select_head_sql(items_view(items@), from@, joins_view(joins@)),
        final(b).binds@ == old(b).binds@,
{
    b.syntax("SELECT ");
    write_items(b, items);
    b.syntax(" FROM ");
    b.sanitize(from);
    write_joins(b, joins);
    proof {
        assert(b.sql@ =~= old(b).sql@ + select_head_sql(items_view(items@), from@, joins_view(joins@)));
    }
}

/// The columns that rows of a select list carry.
pub fn item_columns(items: &Vec<SelectItem>) -> (r: Vec<ColumnSpec>)
    ensures
        columns_view(r@) == items_view(items@).map_values(|it: SelectItemView| item_column(it)),
{
    let mut r: Vec<ColumnSpec> = Vec::new();
    let mut i: usize = 0;
    while i < items.len()
        invariant
            i <= items@.len(),
            columns_view(r@) == items_view(items@).take(i as int).map_values(
                |it: SelectItemView| item_column(it),
            ),
        decreases items@.len() - i,
    {
        let it = &items[i];
        let name = if it.alias.len() == 0 {
            copy_chars(&it.column)
        } else {
            copy_chars(&it.alias)
        };
        let ghost before = columns_view(r@);
        let ghost col = (name@, it.ty, it.optional);
        proof {
            assert(col == item_column(items_view(items@)[i as int]));
        }
        r.push(ColumnSpec { name, ty: it.ty, optional: it.optional });
        proof {
            assert(columns_view(r@) =~= before.push(col));
            assert(items_view(items@).take(i + 1).map_values(|it: SelectItemView| item_column(it))
                =~= items_view(items@).take(i as int).map_values(|it: SelectItemView| item_column(it)).push(col));
        }
        i = i + 1;
    }
    proof {
        assert(items_view(items@).take(items@.len() as int) =~= items_view(items@));
    }
    r
}

/// Writes quoted column names separated by commas.
pub fn write_names(b: &mut StatementBuilder, names: &Vec<Vec<char>>)
    ensures
        final(b).sql@ == old(b).sql@ + names_sql(crate::values::names_view(names@)),
        final(b).binds@ == old(b).binds@,
{
    let ghost start = b.sql@;
    let ghost all = crate::values::names_view(names@).map_values(|n: Seq<char>| quoted(n));
    let mut i: usize = 0;
    proof {
        assert(all.take(0) =~= Seq::<Seq<char>>::empty());
        assert(b.sql@ =~= start + join(all.take(0), ", "@));
    }
    while i < names.len()
        invariant
            i <= names@.len(),
            all == crate::values::names_view(names@).map_values(|n: Seq<char>| quoted(n)),
            b.sql@ == start + join(all.take(i as int), ", "@),
            b.binds@ == old(b).binds@,
        decreases names@.len() - i,
    {
        if i > 0 {
            b.syntax(", ");
        }
        b.sanitize(&names[i]);
        proof {
            assert(all.take(i + 1) =~= all.take(i as int).push(all[i as int]));
            lemma_join_push(all.take(i as int), all[i as int], ", "@);
        }
        i = i + 1;
        proof {
            assert(b.sql@ =~= start + join(all.take(i as int), ", "@));
        }
    }
    proof {
        assert(all.take(names@.len() as int) =~= all);
    }
}

/// Column names of a collection, to be written as a list.
pub struct StoredMemberNames {
    pub cols: Vec<Vec<char>>,
}

impl StoredMemberNames {
    /// Appends nothing where there are no columns; otherwise `start`, then
    /// the quoted columns separated by `sep`.
    pub fn expression(&self, start: &str, sep: &str, ctx: &mut StatementBuilder)
        ensures
            final(ctx).binds@ == old(ctx).binds@,
            final(ctx).sql@ == old(ctx).sql@ + if self.cols@.len() == 0 {
                Seq::empty()
            } else {
                start@ + join(crate::values::names_view(self.cols@).map_values(|n: Seq<char>| quoted(n)), sep@)
            },
    {
        if self.cols.len() == 0 {
            proof {
                assert(ctx.sql@ =~= old(ctx).sql@ + Seq::<char>::empty());
            }
            return;
        }
        ctx.syntax(start);
        let ghost head = ctx.sql@;
        let ghost all = crate::values::names_view(self.cols@).map_values(|n: Seq<char>| quoted(n));
        let mut i: usize = 0;
        proof {
            assert(all.take(0) =~= Seq::<Seq<char>>::empty());
            assert(ctx.sql@ =~= head + join(all.take(0), sep@));
        }
        while i < self.cols.len()
            invariant
                i <= self.cols@.len(),
                all == crate::values::names_view(self.cols@).map_values(|n: Seq<char>| quoted(n)),
                ctx.sql@ == head + join(all.take(i as int), sep@),
                ctx.binds@ == old(ctx).binds@,
            decreases self.cols@.len() - i,
        {
            if i > 0 {
                ctx.syntax(sep);
            }
            ctx.sanitize(&self.cols[i]);
            proof {
                assert(all.take(i + 1) =~= all.take(i as int).push(all[i as int]));
                lemma_join_push(all.take(i as int), all[i as int], sep@);
            }
            i = i + 1;
            proof {
                assert(ctx.sql@ =~= head + join(all.take(i as int), sep@));
            }
        }
        proof {
            assert(all.take(self.cols@.len() as int) =~= all);
            assert(ctx.sql@ =~= old(ctx).sql@ + (start@ + join(all, sep@)));
        }
    }
}

/// The name a row carries an aliased column under: the alias, the number
/// where there is one, the column.
pub open spec fn aliased_name(alias: Seq<char>, num: Option<usize>, col: Seq<char>) -> Seq<char> {
    alias + match num {
        Some(n) => crate::json::nat_text(n as nat),
        None => Seq::empty(),
    } + col
}

/// An aliased column as SQL: `"table"."col" AS "name"`.
pub open spec fn aliased_member_sql(table: Seq<char>, alias: Seq<char>, num: Option<usize>, col: Seq<char>) -> Seq<char> {
    quoted(table) + "."@ + quoted(col) + " AS "@ + quoted(aliased_name(alias, num, col))
}

/// The columns of a table selected under aliased names.
pub struct DynamicAliasedMembers {
    pub table: Vec<char>,
    pub cols: Vec<Vec<char>>,
    pub alias: Vec<char>,
    pub num: Option<usize>,
}

impl DynamicAliasedMembers {
    /// The name a row carries column `col` under.
    pub fn aliased(&self, col: &Vec<char>) -> (r: Vec<char>)
        ensures
            r@ == aliased_name(self.alias@, self.num, col@),
    {
        let mut name = String::new();
        let ghost a = self.alias@;
        let mut i: usize = 0;
        while i < self.alias.len()
            invariant
                i <= self.alias@.len(),
                a == self.alias@,
                name@ == a.take(i as int),
            decreases self.alias@.len() - i,
        {
            crate::text::push_char(&mut name, self.alias[i]);
            proof {
                assert(a.take(i + 1) =~= a.take(i as int).push(a[i as int]));
            }
            i = i + 1;
        }
        proof {
            assert(a.take(a.len() as int) =~= a);
        }
        match self.num {
            Some(n) => crate::json::write_nat(n as u128, &mut name),
            None => {},
        }
        let ghost mid = name@;
        let mut k: usize = 0;
        while k < col.len()
            invariant
                k <= col@.len(),
                name@ == mid + col@.take(k as int),
            decreases col@.len() - k,
        {
            crate::text::push_char(&mut name, col[k]);
            proof {
                assert(col@.take(k + 1) =~= col@.take(k as int).push(col@[k as int]));
            }
            k = k + 1;
        }
        proof {
            assert(col@.take(col@.len() as int) =~= col@);
            assert(name@ =~= aliased_name(self.alias@, self.num, col@));
        }
        crate::text::chars_of(name.as_str())
    }

    /// Appends nothing where there are no columns; otherwise `start`, then
    /// each column as `"table"."col" AS "name"`, separated by `sep`.
    pub fn expression(&self, start: &str, sep: &str, ctx: &mut StatementBuilder)
        ensures
            final(ctx).binds@ == old(ctx).binds@,
            final(ctx).sql@ == old(ctx).sql@ + if self.cols@.len() == 0 {
                Seq::empty()
            } else {
                start@ + join(
                    crate::values::names_view(self.cols@).map_values(
                        |c: Seq<char>| aliased_member_sql(self.table@, self.alias@, self.num, c),
                    ),
                    sep@,
                )
            },
    {
        if self.cols.len() == 0 {
            proof {
                assert(ctx.sql@ =~= old(ctx).sql@ + Seq::<char>::empty());
            }
            return;
        }
        ctx.syntax(start);
        let ghost head = ctx.sql@;
        let ghost all = crate::values::names_view(self.cols@).map_values(
            |c: Seq<char>| aliased_member_sql(self.table@, self.alias@, self.num, c),
        );
        let mut i: usize = 0;
        proof {
            assert(all.take(0) =~= Seq::<Seq<char>>::empty());
            assert(ctx.sql@ =~= head + join(all.take(0), sep@));
        }
        while i < self.cols.len()
            invariant
                i <= self.cols@.len(),
                all == crate::values::names_view(self.cols@).map_values(
                    |c: Seq<char>| aliased_member_sql(self.table@, self.alias@, self.num, c),
                ),
                ctx.sql@ == head + join(all.take(i as int), sep@),
                ctx.binds@ == old(ctx).binds@,
            decreases self.cols@.len() - i,
        {
            if i > 0 {
                ctx.syntax(sep);
            }
            let ghost before = ctx.sql@;
            let name = self.aliased(&self.cols[i]);
            ctx.sanitize(&self.table);
            ctx.syntax(".");
            ctx.sanitize(&self.cols[i]);
            ctx.syntax(" AS ");
            ctx.sanitize(&name);
            proof {
                assert(ctx.sql@ =~= before + all[i as int]);
                assert(all.take(i + 1) =~= all.take(i as int).push(all[i as int]));
                lemma_join_push(all.take(i as int), all[i as int], sep@);
            }
            i = i + 1;
            proof {
                assert(ctx.sql@ =~= head + join(all.take(i as int), sep@));
            }
        }
        proof {
            assert(all.take(self.cols@.len() as int) =~= all);
            assert(ctx.sql@ =~= old(ctx).sql@ + (start@ + join(all, sep@)));
        }
    }
}

} // verus!
