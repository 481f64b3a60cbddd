//! The statements that operations run on a collection's table, and the
//! output objects made from the rows they return.
use vstd::prelude::*;
use crate::json::{Json, JsonValue, clone_json};
use crate::query::{
    SelectItem, SelectItemView, columns_view, item_columns, items_view,
    lemma_join_push, markers_sql, names_sql, select_head_sql, write_names, write_select_head,
};
use crate::registry::{id_column, junction_table};
use crate::schema::{CollectionView, DynamicCollection, FieldView};
use crate::sql::{BindValue, BindView, ColumnSpec, ColumnType, Statement, StatementBuilder, join, marker, quoted};
use crate::filters::binds_view;
use crate::text::{chars_of, copy_chars};
use crate::values::{
    lookup_key, names_view, row_object, serialize_dynamic_row, sort_names, sorted_keys,
    entries_view, lemma_object_view,
};

verus! {

/// A copy of a bound value.
pub fn copy_bind(b: &BindValue) -> (r: BindValue)
    ensures
        r@ == b@,
{
    match b {
        BindValue::Null => BindValue::Null,
        BindValue::Bool(x) => BindValue::Bool(*x),
        BindValue::Int(x) => BindValue::Int(*x),
        BindValue::Real(t) => BindValue::Real(copy_chars(t)),
        BindValue::Text(t) => BindValue::Text(copy_chars(t)),
    }
}

/// The statement that inserts a row with the given columns and returns
/// its id and those columns; a row of defaults where there are none.
pub open spec fn insert_sql(table: Seq<char>, cols: Seq<Seq<char>>) -> Seq<char> {
    if cols.len() == 0 {
        "INSERT INTO "@ + quoted(table) + " DEFAULT VALUES RETURNING \"id\";"@
    } else {
        "INSERT INTO "@ + quoted(table) + " ("@ + names_sql(cols) + ") VALUES ("@ + markers_sql(
            0,
            cols.len(),
        ) + ") RETURNING "@ + names_sql(seq!["id"@] + cols) + ";"@
    }
}

/// Binds the values in order, separated by commas.
pub fn bind_all(b: &mut StatementBuilder, values: &Vec<BindValue>)
    ensures
        final(b).sql@ == old(b).sql@ + markers_sql(old(b).binds@.len(), values@.len()),
        binds_view(final(b).binds@) == binds_view(old(b).binds@) + binds_view(values@),
{
    let ghost start = b.sql@;
    let ghost n0 = old(b).binds@.len();
    let ghost start_binds = binds_view(b.binds@);
    let mut i: usize = 0;
    proof {
        assert(Seq::new(0, |k: int| marker((n0 + k + 1) as nat)) =~= Seq::<Seq<char>>::empty());
        assert(b.sql@ =~= start + markers_sql(n0, 0));
        assert(binds_view(b.binds@) =~= start_binds + binds_view(values@.take(0)));
    }
    while i < values.len()
        invariant
            i <= values@.len(),
            b.binds@.len() == n0 + i,
            b.sql@ == start + markers_sql(n0, i as nat),
            binds_view(b.binds@) == start_binds + binds_view(values@.take(i as int)),
        decreases values@.len() - i,
    {
        if i > 0 {
            b.syntax(", ");
        }
        let v = copy_bind(&values[i]);
        let ghost before_binds = binds_view(b.binds@);
        b.bind(v);
        proof {
            let s = Seq::new(i as nat, |k: int| marker((n0 + k + 1) as nat));
            assert(Seq::new((i + 1) as nat, |k: int| marker((n0 + k + 1) as nat)) =~= s.push(
                marker((n0 + i + 1) as nat),
            ));
            lemma_join_push(s, marker((n0 + i + 1) as nat), ", "@);
            assert(binds_view(b.binds@) =~= before_binds.push(values@[i as int]@));
            assert(binds_view(values@.take(i + 1)) =~= binds_view(values@.take(i as int)).push(
                values@[i as int]@,
            ));
        }
        i = i + 1;
        proof {
            assert(b.sql@ =~= start + markers_sql(n0, i as nat));
        }
    }
    proof {
        assert(values@.take(values@.len() as int) =~= values@);
    }
}

/// The statement that inserts a row into `table` with `values` in the
/// columns `cols`, returning the row as `columns` describes it.
pub fn insert_statement(
    table: &Vec<char>,
    cols: &Vec<Vec<char>>,
    values: &Vec<BindValue>,
    columns: Vec<ColumnSpec>,
) -> (r: Statement)
    requires
        cols@.len() == values@.len(),
    ensures
        r.sql@ == insert_sql(table@, names_view(cols@)),
        binds_view(r.binds@) == binds_view(values@),
        r.columns@ == columns@,
{
    let mut b = StatementBuilder::new();
    b.syntax("INSERT INTO ");
    b.sanitize(table);
    if cols.len() == 0 {
        b.syntax(" DEFAULT VALUES RETURNING \"id\";");
        proof {
            assert(b.sql@ =~= insert_sql(table@, names_view(cols@)));
            assert(binds_view(b.binds@) =~= binds_view(values@));
        }
        return b.finish(columns);
    }
    b.syntax(" (");
    write_names(&mut b, cols);
    b.syntax(") VALUES (");
    proof {
        assert(binds_view(b.binds@) =~= Seq::<BindView>::empty());
    }
    bind_all(&mut b, values);
    b.syntax(") RETURNING ");
    let mut all: Vec<Vec<char>> = Vec::new();
    all.push(chars_of("id"));
    let mut i: usize = 0;
    while i < cols.len()
        invariant
            i <= cols@.len(),
            names_view(all@) == seq!["id"@] + names_view(cols@).take(i as int),
        decreases cols@.len() - i,
    {
        let ghost before = names_view(all@);
        all.push(copy_chars(&cols[i]));
        proof {
            assert(names_view(all@) =~= before.push(cols@[i as int]@));
            assert(names_view(cols@).take(i + 1) =~= names_view(cols@).take(i as int).push(cols@[i as int]@));
        }
        i = i + 1;
    }
    proof {
        assert(names_view(cols@).take(cols@.len() as int) =~= names_view(cols@));
    }
    write_names(&mut b, &all);
    b.syntax(";");
    proof {
        assert(b.sql@ =~= insert_sql(table@, names_view(cols@)));
        assert(binds_view(b.binds@) =~= binds_view(values@));
    }
    b.finish(columns)
}

/// The select items of a collection's row: its id under `id_alias`, each
/// field under `prefix` followed by its name.
pub open spec fn collection_items(
    c: CollectionView,
    id_alias: Seq<char>,
    prefix: Seq<char>,
    optional: bool,
) -> Seq<SelectItemView> {
    seq![
        SelectItemView {
            table: c.table,
            column: "id"@,
            alias: id_alias,
            ty: ColumnType::Int,
            optional: optional,
        },
    ] + c.fields.map_values(
        |f: FieldView|
            SelectItemView {
                table: c.table,
                column: f.name,
                alias: prefix + f.name,
                ty: f.ty,
                optional: optional || f.optional,
            },
    )
}

/// Appends the select items of a collection's row to `items`.
pub fn push_collection_items(
    items: &mut Vec<SelectItem>,
    c: &DynamicCollection,
    id_alias: &Vec<char>,
    prefix: &Vec<char>,
    optional: bool,
)
    ensures
        items_view(final(items)@) == items_view(old(items)@) + collection_items(
            c@,
            id_alias@,
            prefix@,
            optional,
        ),
{
    let table = chars_of(c.collection_name.pascal_case.as_str());
    let ghost start = items_view(items@);
    items.push(
        SelectItem {
            table: copy_chars(&table),
            column: chars_of("id"),
            alias: copy_chars(id_alias),
            ty: ColumnType::Int,
            optional,
        },
    );
    let ghost all = collection_items(c@, id_alias@, prefix@, optional);
    proof {
        assert(items_view(items@) =~= start + all.take(1));
    }
    let mut i: usize = 0;
    while i < c.fields.len()
        invariant
            i <= c.fields@.len(),
            table@ == c@.table,
            all == collection_items(c@, id_alias@, prefix@, optional),
            all.len() == c.fields@.len() + 1,
            items_view(items@) == start + all.take(i + 1),
        decreases c.fields@.len() - i,
    {
        let f = &c.fields[i];
        let mut alias = copy_chars(prefix);
        let name = chars_of(f.name.snake_case.as_str());
        let mut k: usize = 0;
        while k < name.len()
            invariant
                k <= name@.len(),
                alias@ == prefix@ + name@.take(k as int),
            decreases name@.len() - k,
        {
            alias.push(name[k]);
            k = k + 1;
            proof {
                assert(alias@ =~= prefix@ + name@.take(k as int));
            }
        }
        proof {
            assert(name@.take(name@.len() as int) =~= name@);
        }
        let ghost before = items_view(items@);
        items.push(
            SelectItem {
                table: copy_chars(&table),
                column: name,
                alias,
                ty: f.type_info,
                optional: optional || f.is_optional,
            },
        );
        proof {
            assert(c@.fields[i as int] == f@);
            assert(all[i + 1] == items_view(items@)[items_view(items@).len() - 1]);
            assert(items_view(items@) =~= before.push(all[i + 1]));
            assert(all.take(i + 2) =~= all.take(i + 1).push(all[i + 1]));
        }
        i = i + 1;
    }
    proof {
        assert(all.take(c.fields@.len() as int + 1) =~= all);
    }
}

/// The statement that reads one row of a collection by its id.
pub open spec fn select_by_id_sql(c: CollectionView) -> Seq<char> {
    select_head_sql(collection_items(c, "iid"@, "b"@, false), c.table, Seq::empty()) + " WHERE \"id\" = "@
        + marker(1) + ";"@
}

/// Reads the row of `c` with id `id`.
pub fn select_by_id_statement(c: &DynamicCollection, id: i64) -> (r: Statement)
    ensures
        r.sql@ == select_by_id_sql(c@),
        binds_view(r.binds@) == seq![BindView::Int(id as int)],
        columns_view(r.columns@) == collection_items(c@, "iid"@, "b"@, false).map_values(
            |it: SelectItemView| crate::query::item_column(it),
        ),
{
    let mut items: Vec<SelectItem> = Vec::new();
    push_collection_items(&mut items, c, &chars_of("iid"), &chars_of("b"), false);
    proof {
        assert(items_view(items@) =~= collection_items(c@, "iid"@, "b"@, false));
    }
    let mut b = StatementBuilder::new();
    let joins: Vec<crate::query::Join> = Vec::new();
    proof {
        assert(crate::query::joins_view(joins@) =~= Seq::<crate::query::JoinView>::empty());
    }
    write_select_head(&mut b, &items, &chars_of(c.collection_name.pascal_case.as_str()), &joins);
    b.syntax(" WHERE \"id\" = ");
    b.bind(BindValue::Int(id));
    b.syntax(";");
    let columns = item_columns(&items);
    proof {
        assert(b.sql@ =~= select_by_id_sql(c@));
        assert(binds_view(b.binds@) =~= seq![BindView::Int(id as int)]);
    }
    b.finish(columns)
}

/// The statement that pairs two rows through a junction table.
pub open spec fn junction_insert_sql(from: Seq<char>, to: Seq<char>) -> Seq<char> {
    "INSERT INTO "@ + quoted(junction_table(from, to)) + " ("@ + quoted(id_column(from)) + ", "@
        + quoted(id_column(to)) + ") VALUES ("@ + marker(1) + ", "@ + marker(2) + ");"@
}

/// The statement that unpairs two rows of a junction table.
pub open spec fn junction_delete_sql(from: Seq<char>, to: Seq<char>) -> Seq<char> {
    "DELETE FROM "@ + quoted(junction_table(from, to)) + " WHERE "@ + quoted(id_column(from))
        + " = "@ + marker(1) + " AND "@ + quoted(id_column(to)) + " = "@ + marker(2) + ";"@
}

/// The junction table and its two id columns for a many-to-many link.
fn junction_names(from: &str, to: &str) -> (r: (String, String, String))
    ensures
        r.0@ == junction_table(from@, to@),
        r.1@ == id_column(from@),
        r.2@ == id_column(to@),
{
    let mut t = String::new();
    t.append("ct_");
    t.append(from);
    t.append(to);
    t.append("_def");
    let mut f = String::new();
    f.append(from);
    f.append("_id");
    let mut g = String::new();
    g.append(to);
    g.append("_id");
    proof {
        assert(t@ =~= junction_table(from@, to@));
        assert(f@ =~= id_column(from@));
        assert(g@ =~= id_column(to@));
    }
    (t, f, g)
}

/// Pairs row `from_id` of `from` with row `to_id` of `to`.
pub fn junction_insert_statement(from: &str, to: &str, from_id: i64, to_id: i64) -> (r: Statement)
    ensures
        r.sql@ == junction_insert_sql(from@, to@),
        binds_view(r.binds@) == seq![BindView::Int(from_id as int), BindView::Int(to_id as int)],
        r.columns@.len() == 0,
{
    let (t, f, g) = junction_names(from, to);
    let mut b = StatementBuilder::new();
    b.syntax("INSERT INTO ");
    b.sanitize_str(t.as_str());
    b.syntax(" (");
    b.sanitize_str(f.as_str());
    b.syntax(", ");
    b.sanitize_str(g.as_str());
    b.syntax(") VALUES (");
    b.bind(BindValue::Int(from_id));
    b.syntax(", ");
    b.bind(BindValue::Int(to_id));
    b.syntax(");");
    proof {
        assert(b.sql@ =~= junction_insert_sql(from@, to@));
        assert(binds_view(b.binds@) =~= seq![BindView::Int(from_id as int), BindView::Int(to_id as int)]);
    }
    b.finish(Vec::new())
}

/// Unpairs row `from_id` of `from` and row `to_id` of `to`.
pub fn junction_delete_statement(from: &str, to: &str, from_id: i64, to_id: i64) -> (r: Statement)
    ensures
        r.sql@ == junction_delete_sql(from@, to@),
        binds_view(r.binds@) == seq![BindView::Int(from_id as int), BindView::Int(to_id as int)],
        r.columns@.len() == 0,
{
    let (t, f, g) = junction_names(from, to);
    let mut b = StatementBuilder::new();
    b.syntax("DELETE FROM ");
    b.sanitize_str(t.as_str());
    b.syntax(" WHERE ");
    b.sanitize_str(f.as_str());
    b.syntax(" = ");
    b.bind(BindValue::Int(from_id));
    b.syntax(" AND ");
    b.sanitize_str(g.as_str());
    b.syntax(" = ");
    b.bind(BindValue::Int(to_id));
    b.syntax(";");
    proof {
        assert(b.sql@ =~= junction_delete_sql(from@, to@));
        assert(binds_view(b.binds@) =~= seq![BindView::Int(from_id as int), BindView::Int(to_id as int)]);
    }
    b.finish(Vec::new())
}

/// JSON values by their plain parts.
pub open spec fn json_seq(row: Seq<JsonValue>) -> Seq<Json> {
    row.map_values(|v: JsonValue| v@)
}

/// Each field's name with the value the row holds for it.
pub open spec fn zip_fields(fields: Seq<FieldView>, values: Seq<Json>) -> Seq<(Seq<char>, Json)> {
    Seq::new(fields.len(), |i: int| (fields[i].name, values[i]))
}

/// The attributes of a row: an object with a member per field, ordered by
/// name.
pub open spec fn attributes_json(fields: Seq<FieldView>, values: Seq<Json>) -> Json {
    row_object(zip_fields(fields, values), sorted_keys(fields.map_values(|f: FieldView| f.name)))
}

/// A row as the client outputs it: its id and its attributes.
pub open spec fn record_json(fields: Seq<FieldView>, id: Json, values: Seq<Json>) -> Json {
    Json::Object(seq![("id"@, id), ("attributes"@, attributes_json(fields, values))])
}

/// A key held by some entry is found.
pub proof fn lemma_lookup_some(entries: Seq<(Seq<char>, Json)>, key: Seq<char>, i: int)
    requires
        0 <= i < entries.len(),
        entries[i].0 == key,
    ensures
        lookup_key(entries, key) is Some,
    decreases i,
{
    if i > 0 && entries[0].0 != key {
        lemma_lookup_some(entries.drop_first(), key, i - 1);
    }
}

/// The output object of the row of `c` whose id is at `start` in `row`,
/// its fields following in order.
pub fn record_output(c: &DynamicCollection, row: &Vec<JsonValue>, start: usize) -> (r: JsonValue)
    requires
        start + 1 + c@.fields.len() <= row@.len(),
    ensures
        r@ == record_json(
            c@.fields,
            row@[start as int]@,
            json_seq(row@).subrange(start + 1, start + 1 + c@.fields.len()),
        ),
{
    broadcast use vstd::seq_lib::to_multiset_contains;
    let names = c.field_names();
    let ghost values = json_seq(row@).subrange(start + 1, start + 1 + c@.fields.len());
    let ghost zipped = zip_fields(c@.fields, values);
    let mut entries: Vec<(Vec<char>, JsonValue)> = Vec::new();
    let rl = row.len();
    let mut i: usize = 0;
    while i < names.len()
        invariant
            rl == row@.len(),
            i <= names@.len(),
            names@.len() == c@.fields.len(),
            start + 1 + c@.fields.len() <= row@.len(),
            names_view(names@) == c@.fields.map_values(|f: FieldView| f.name),
            values == json_seq(row@).subrange(start + 1, start + 1 + c@.fields.len()),
            zipped == zip_fields(c@.fields, values),
            entries_view(entries@) == zipped.take(i as int),
        decreases names@.len() - i,
    {
        let ghost before = entries_view(entries@);
        entries.push((copy_chars(&names[i]), clone_json(&row[start + 1 + i])));
        proof {
            assert(names_view(names@)[i as int] == names@[i as int]@);
            assert(entries_view(entries@) =~= before.push(zipped[i as int]));
            assert(zipped.take(i + 1) =~= zipped.take(i as int).push(zipped[i as int]));
        }
        i = i + 1;
    }
    proof {
        assert(zipped.take(names@.len() as int) =~= zipped);
    }
    let sorted = sort_names(&names);
    proof {
        assert forall|k: int| 0 <= k < sorted@.len() implies lookup_key(
            entries_view(entries@),
            (#[trigger] sorted@[k])@,
        ) is Some by {
            let key = sorted@[k]@;
            assert(names_view(sorted@)[k] == key);
            assert(names_view(sorted@).to_multiset().contains(key));
            assert(names_view(names@).contains(key));
            let j = choose|j: int| 0 <= j < names_view(names@).len() && names_view(names@)[j] == key;
            assert(entries_view(entries@)[j].0 == key);
            lemma_lookup_some(entries_view(entries@), key, j);
        }
    }
    let attributes = serialize_dynamic_row(&entries, &sorted);
    let mut obj: Vec<(Vec<char>, JsonValue)> = Vec::new();
    obj.push((chars_of("id"), clone_json(&row[start])));
    obj.push((chars_of("attributes"), attributes));
    proof {
        lemma_object_view(obj);
        assert(entries_view(obj@) =~= seq![
            ("id"@, row@[start as int]@),
            ("attributes"@, attributes_json(c@.fields, values)),
        ]);
    }
    JsonValue::Object(obj)
}

} // verus!
