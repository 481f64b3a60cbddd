//! Collections declared at run time: their fields, the types those fields
//! take, and the table that holds them.
use vstd::prelude::*;
use crate::names::{CollectionName, FieldName, valid_collection_name, valid_field_name, pascal_case_of};
use crate::sql::{ColumnType, ScalarType, StatementBuilder, Statement, ColumnSpec, quoted};
use crate::text::{chars_of, copy_chars};
use crate::json::Json;
use crate::values::{scalar_fits, value_fits};

verus! {

/// The types a field can be declared with.
#[derive(Debug)]
pub enum SupportedType {
    String,
    Boolean,
    Int,
    Float64,
    Array(Box<SupportedType>),
}

/// A field as a request declares it.
pub struct DynamicFieldInput {
    pub name: String,
    pub type_info: SupportedType,
    pub is_optional: bool,
}

/// A collection as a request declares it.
pub struct AddCollectionInput {
    pub name: String,
    pub fields: Vec<DynamicFieldInput>,
}

/// The column type that a declared type is stored as; arrays of arrays
/// are not supported.
pub open spec fn spec_column_type(t: SupportedType) -> Option<ColumnType> {
    match t {
        SupportedType::String => Some(ColumnType::Text),
        SupportedType::Boolean => Some(ColumnType::Boolean),
        SupportedType::Int => Some(ColumnType::Int),
        SupportedType::Float64 => Some(ColumnType::Float),
        SupportedType::Array(of) => match *of {
            SupportedType::String => Some(ColumnType::Array(ScalarType::Text)),
            SupportedType::Boolean => Some(ColumnType::Array(ScalarType::Boolean)),
            SupportedType::Int => Some(ColumnType::Array(ScalarType::Int)),
            SupportedType::Float64 => Some(ColumnType::Array(ScalarType::Float)),
            SupportedType::Array(_) => None,
        },
    }
}

/// Whether a JSON value is a value of a declared type: a string for
/// `String`, a truth value for `Boolean`, an integer for `Int`, an integer
/// or other number for `Float64`, and for an array of a type, an array
/// whose every item is a value of that type.
pub open spec fn declared_holds(t: SupportedType, v: Json) -> bool
    decreases t,
{
    match t {
        SupportedType::String => v is Str,
        SupportedType::Boolean => v is Bool,
        SupportedType::Int => v is Int,
        SupportedType::Float64 => v is Int || v is Number,
        SupportedType::Array(of) => match v {
            Json::Array(xs) => forall|i: int| 0 <= i < xs.len() ==> declared_holds(*of, #[trigger] xs[i]),
            _ => false,
        },
    }
}

/// A field stores exactly the values of its declared type: where a type
/// can be stored, a value other than `null` fits the column it is stored
/// as if and only if it is a value of the declared type (so an array of
/// integers fits an `Array` of `Int` field and an array of strings does
/// not).
pub proof fn declared_types_accept_their_values(t: SupportedType, optional: bool, v: Json)
    requires
        spec_column_type(t) is Some,
        !(v is Null),
    ensures
        value_fits(spec_column_type(t).unwrap(), optional, v) == declared_holds(t, v),
{
    match t {
        SupportedType::Array(of) => {
            let s = spec_column_type(t).unwrap()->Array_0;
            match v {
                Json::Array(xs) => {
                    assert forall|i: int| 0 <= i < xs.len() implies scalar_fits(s, #[trigger] xs[i]) == declared_holds(
                        *of,
                        xs[i],
                    ) by {}
                    assert((forall|i: int| 0 <= i < xs.len() ==> scalar_fits(s, #[trigger] xs[i])) == (forall|i: int|
                        0 <= i < xs.len() ==> declared_holds(*of, #[trigger] xs[i])));
                },
                _ => {},
            }
        },
        _ => {},
    }
}

/// Maps a declared type to its column type.
pub fn column_type_of(t: &SupportedType) -> (r: Result<ColumnType, ()>)
    ensures
        match spec_column_type(*t) {
            Some(c) => r == Ok::<ColumnType, ()>(c),
            None => r is Err,
        },
{
    match t {
        SupportedType::String => Ok(ColumnType::Text),
        SupportedType::Boolean => Ok(ColumnType::Boolean),
        SupportedType::Int => Ok(ColumnType::Int),
        SupportedType::Float64 => Ok(ColumnType::Float),
        SupportedType::Array(of) => match &**of {
            SupportedType::String => Ok(ColumnType::Array(ScalarType::Text)),
            SupportedType::Boolean => Ok(ColumnType::Array(ScalarType::Boolean)),
            SupportedType::Int => Ok(ColumnType::Array(ScalarType::Int)),
            SupportedType::Float64 => Ok(ColumnType::Array(ScalarType::Float)),
            SupportedType::Array(_) => Err(()),
        },
    }
}

/// A field of a registered collection.
pub struct DynamicField {
    pub name: FieldName,
    pub type_info: ColumnType,
    pub is_optional: bool,
}

/// A field by its plain parts.
pub struct FieldView {
    pub name: Seq<char>,
    pub ty: ColumnType,
    pub optional: bool,
}

impl View for DynamicField {
    type V = FieldView;

    open spec fn view(&self) -> FieldView {
        FieldView { name: self.name.snake_case@, ty: self.type_info, optional: self.is_optional }
    }
}

/// A registered collection.
pub struct DynamicCollection {
    pub collection_name: CollectionName,
    pub fields: Vec<DynamicField>,
}

/// A collection by its plain parts.
pub struct CollectionView {
    pub name: Seq<char>,
    pub table: Seq<char>,
    pub fields: Seq<FieldView>,
}

impl View for DynamicCollection {
    type V = CollectionView;

    open spec fn view(&self) -> CollectionView {
        CollectionView {
            name: self.collection_name.snake_case@,
            table: self.collection_name.pascal_case@,
            fields: self.fields@.map_values(|f: DynamicField| f@),
        }
    }
}

/// The field that a declaration describes.
pub open spec fn field_from_input(f: DynamicFieldInput) -> FieldView {
    FieldView { name: f.name@, ty: spec_column_type(f.type_info).unwrap(), optional: f.is_optional }
}

/// Whether a declared field follows the rules: a valid name and a
/// supported type.
pub open spec fn valid_field_input(f: DynamicFieldInput) -> bool {
    valid_field_name(f.name@) && spec_column_type(f.type_info) is Some
}

/// Whether a declared collection can be registered: a valid name and
/// valid fields.
pub open spec fn valid_collection_input(input: AddCollectionInput) -> bool {
    &&& valid_collection_name(input.name@)
    &&& forall|i: int| 0 <= i < input.fields@.len() ==> valid_field_input(#[trigger] input.fields@[i])
}

/// The collection that a declaration describes.
pub open spec fn collection_from_input(input: AddCollectionInput) -> CollectionView {
    CollectionView {
        name: input.name@,
        table: pascal_case_of(input.name@),
        fields: input.fields@.map_values(|f: DynamicFieldInput| field_from_input(f)),
    }
}

impl DynamicCollection {
    /// The collection that a declaration describes, when it follows the rules.
    pub fn try_from(input: &AddCollectionInput) -> (r: Result<DynamicCollection, ()>)
        ensures
            r is Ok <==> valid_collection_input(*input),
            r matches Ok(c) ==> c@ == collection_from_input(*input),
    {
        let collection_name = match CollectionName::new(input.name.as_str()) {
            Ok(n) => n,
            Err(_) => return Err(()),
        };
        let mut fields: Vec<DynamicField> = Vec::new();
        let mut i: usize = 0;
        while i < input.fields.len()
            invariant
                i <= input.fields@.len(),
                fields@.len() == i,
                valid_collection_name(input.name@),
                forall|k: int| 0 <= k < i ==> valid_field_input(#[trigger] input.fields@[k]),
                forall|k: int| 0 <= k < i ==> (#[trigger] fields@[k])@ == field_from_input(input.fields@[k]),
            decreases input.fields@.len() - i,
        {
            let f = &input.fields[i];
            let name = match FieldName::new(f.name.as_str()) {
                Ok(n) => n,
                Err(_) => return Err(()),
            };
            let type_info = match column_type_of(&f.type_info) {
                Ok(t) => t,
                Err(_) => return Err(()),
            };
            fields.push(DynamicField { name, type_info, is_optional: f.is_optional });
            i = i + 1;
        }
        let c = DynamicCollection { collection_name, fields };
        proof {
            assert(c@.fields =~= collection_from_input(*input).fields) by {
                assert forall|q: int| 0 <= q < c@.fields.len() implies c@.fields[q] == collection_from_input(*input).fields[q] by {
                    assert(c.fields@[q]@ == field_from_input(input.fields@[q]));
                }
            }
        }
        Ok(c)
    }
}

/// The SQL type a column is declared with.
pub open spec fn type_sql(t: ColumnType) -> Seq<char> {
    match t {
        ColumnType::Text => "TEXT"@,
        ColumnType::Boolean => "BOOLEAN"@,
        ColumnType::Int => "INTEGER"@,
        ColumnType::Float => "REAL"@,
        ColumnType::Array(_) => "TEXT"@,
    }
}

/// The declaration of one column, with the separator before it.
pub open spec fn column_def_sql(f: FieldView) -> Seq<char> {
    ", "@ + quoted(f.name) + " "@ + type_sql(f.ty) + if f.optional {
        Seq::empty()
    } else {
        " NOT NULL"@
    }
}

/// The declarations of the columns, in field order.
pub open spec fn column_defs_sql(fields: Seq<FieldView>) -> Seq<char>
    decreases fields.len(),
{
    if fields.len() == 0 {
        Seq::empty()
    } else {
        column_defs_sql(fields.drop_last()) + column_def_sql(fields.last())
    }
}

/// The statement that creates a collection's table: an id column, then a
/// column per field.
pub open spec fn create_table_sql(c: CollectionView) -> Seq<char> {
    "CREATE TABLE "@ + quoted(c.table) + " ("@ + "\"id\" INTEGER PRIMARY KEY AUTOINCREMENT"@
        + column_defs_sql(c.fields) + ");"@
}

/// The SQL type of a column type, as text.
pub fn type_sql_str(t: &ColumnType) -> (r: &'static str)
    ensures
        r@ == type_sql(*t),
{
    match t {
        ColumnType::Text => "TEXT",
        ColumnType::Boolean => "BOOLEAN",
        ColumnType::Int => "INTEGER",
        ColumnType::Float => "REAL",
        ColumnType::Array(_) => "TEXT",
    }
}

impl DynamicCollection {
    /// The statement that creates this collection's table.
    pub fn create_table_statement(&self) -> (r: String)
        ensures
            r@ == create_table_sql(self@),
    {
        let mut b = StatementBuilder::new();
        b.syntax("CREATE TABLE ");
        b.sanitize_str(self.collection_name.pascal_case.as_str());
        b.syntax(" (");
        b.syntax("\"id\" INTEGER PRIMARY KEY AUTOINCREMENT");
        let ghost prefix = b.sql@;
        let mut i: usize = 0;
        while i < self.fields.len()
            invariant
                i <= self.fields@.len(),
                b.sql@ == prefix + column_defs_sql(self@.fields.take(i as int)),
            decreases self.fields@.len() - i,
        {
            let f = &self.fields[i];
            proof {
                assert(self@.fields.take(i + 1).drop_last() =~= self@.fields.take(i as int));
                assert(self@.fields.take(i + 1).last() == f@);
            }
            b.syntax(", ");
            b.sanitize_str(f.name.snake_case.as_str());
            b.syntax(" ");
            b.syntax(type_sql_str(&f.type_info));
            if !f.is_optional {
                b.syntax(" NOT NULL");
            }
            i = i + 1;
            proof {
                assert(b.sql@ =~= prefix + column_defs_sql(self@.fields.take(i as int)));
            }
        }
        b.syntax(");");
        proof {
            assert(self@.fields.take(self@.fields.len() as int) =~= self@.fields);
            assert(b.sql@ =~= create_table_sql(self@));
        }
        b.sql
    }
}

/// The first field named `name`, if any.
pub open spec fn find_field_spec(fields: Seq<FieldView>, name: Seq<char>) -> Option<FieldView>
    decreases fields.len(),
{
    if fields.len() == 0 {
        None
    } else if fields[0].name == name {
        Some(fields[0])
    } else {
        find_field_spec(fields.drop_first(), name)
    }
}

/// Looking a name up in a list whose first fields lack it is looking it up
/// in the rest.
proof fn lemma_find_field_skip(fields: Seq<FieldView>, name: Seq<char>, i: int)
    requires
        0 <= i <= fields.len(),
        forall|k: int| 0 <= k < i ==> (#[trigger] fields[k]).name != name,
    ensures
        find_field_spec(fields, name) == find_field_spec(fields.skip(i), name),
    decreases i,
{
    if i > 0 {
        lemma_find_field_skip(fields.drop_first(), name, i - 1);
        assert(fields.drop_first().skip(i - 1) =~= fields.skip(i));
    } else {
        assert(fields.skip(0) =~= fields);
    }
}

/// The fields of a collection by their plain parts.
pub open spec fn fields_view(fields: Seq<DynamicField>) -> Seq<FieldView> {
    fields.map_values(|f: DynamicField| f@)
}

/// The position of the first field named `name`, if any.
pub fn find_field(fields: &Vec<DynamicField>, name: &Vec<char>) -> (r: Option<usize>)
    ensures
        match r {
            Some(i) => i < fields@.len() && find_field_spec(fields_view(fields@), name@) == Some(
                fields@[i as int]@,
            ),
            None => find_field_spec(fields_view(fields@), name@) is None,
        },
{
    let ghost fv = fields_view(fields@);
    let mut i: usize = 0;
    while i < fields.len()
        invariant
            i <= fields@.len(),
            fv == fields_view(fields@),
            forall|k: int| 0 <= k < i ==> (#[trigger] fv[k]).name != name@,
        decreases fields@.len() - i,
    {
        let fname = chars_of(fields[i].name.snake_case.as_str());
        if crate::text::chars_eq(&fname, name) {
            proof {
                lemma_find_field_skip(fv, name@, i as int);
                assert(fv.skip(i as int)[0] == fv[i as int]);
            }
            return Some(i);
        }
        proof {
            assert(fv[i as int] == fields@[i as int]@);
        }
        i = i + 1;
    }
    proof {
        lemma_find_field_skip(fv, name@, i as int);
    }
    None
}

impl DynamicCollection {
    /// A copy of the collection.
    pub fn copy(&self) -> (r: DynamicCollection)
        ensures
            r@ == self@,
    {
        let mut fields: Vec<DynamicField> = Vec::new();
        let mut i: usize = 0;
        while i < self.fields.len()
            invariant
                i <= self.fields@.len(),
                fields_view(fields@) == fields_view(self.fields@).take(i as int),
            decreases self.fields@.len() - i,
        {
            let f = &self.fields[i];
            let ghost before = fields_view(fields@);
            fields.push(DynamicField { name: f.name.copy(), type_info: f.type_info, is_optional: f.is_optional });
            proof {
                assert(fields_view(fields@) =~= before.push(f@));
                assert(fields_view(self.fields@).take(i + 1) =~= fields_view(self.fields@).take(i as int).push(f@));
            }
            i = i + 1;
        }
        let r = DynamicCollection { collection_name: self.collection_name.copy(), fields };
        proof {
            assert(fields_view(self.fields@).take(self.fields@.len() as int) =~= fields_view(self.fields@));
            assert(r@.fields =~= self@.fields);
        }
        r
    }

    /// The names of the fields, in order.
    pub fn field_names(&self) -> (r: Vec<Vec<char>>)
        ensures
            crate::values::names_view(r@) == self@.fields.map_values(|f: FieldView| f.name),
    {
        let mut r: Vec<Vec<char>> = Vec::new();
        let mut i: usize = 0;
        while i < self.fields.len()
            invariant
                i <= self.fields@.len(),
                crate::values::names_view(r@) == self@.fields.take(i as int).map_values(|f: FieldView| f.name),
            decreases self.fields@.len() - i,
        {
            let ghost before = crate::values::names_view(r@);
            let n = chars_of(self.fields[i].name.snake_case.as_str());
            r.push(n);
            proof {
                assert(self@.fields[i as int] == self.fields@[i as int]@);
                assert(crate::values::names_view(r@) =~= before.push(self@.fields[i as int].name));
                assert(self@.fields.take(i + 1).map_values(|f: FieldView| f.name) =~= self@.fields.take(
                    i as int,
                ).map_values(|f: FieldView| f.name).push(self@.fields[i as int].name));
            }
            i = i + 1;
        }
        proof {
            assert(self@.fields.take(self@.fields.len() as int) =~= self@.fields);
        }
        r
    }
}

} // verus!
