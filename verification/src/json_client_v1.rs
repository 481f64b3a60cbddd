//! The rules of the first channel client: its settings, the collection
//! declarations it accepts, the filters and orderings of its page queries.
use vstd::prelude::*;
use crate::json::{Json, JsonValue};
use crate::names::{check_snake_case, is_snake_case};
use crate::schema::{DynamicCollection, FieldView, fields_view, find_field, find_field_spec};
use crate::sql::{BindValue, BindView, ColumnType, StatementBuilder, quoted};
use crate::text::{chars_of, copy_chars, has_prefix, starts_with};
use crate::values::{bind_for, to_bind, value_fits};

verus! {

/// How the client is set up.
pub struct JsonClientSetting {
    /// Whether updates check that their filters pick a single row.
    pub check_for_unique_filters_on_update: bool,
}

impl JsonClientSetting {
    /// The setting clients start with: updates check their filters.
    pub fn default_setting() -> (r: Self)
        ensures
            r.check_for_unique_filters_on_update,
    {
        Self { check_for_unique_filters_on_update: true }
    }
}

/// The field types this client declares.
#[derive(Debug, Clone, Copy, PartialEq, Eq, Structural)]
pub enum TypeSpec {
    String,
    Boolean,
}

impl TypeSpec {
    /// The column type a field of this type has.
    pub open spec fn spec_column_type(self) -> ColumnType {
        match self {
            TypeSpec::String => ColumnType::Text,
            TypeSpec::Boolean => ColumnType::Boolean,
        }
    }

    /// The column type a field of this type has.
    pub fn column_type(&self) -> (r: ColumnType)
        ensures
            r == self.spec_column_type(),
    {
        match self {
            TypeSpec::String => ColumnType::Text,
            TypeSpec::Boolean => ColumnType::Boolean,
        }
    }
}

/// A declared field.
pub struct TypedField {
    pub name: String,
    pub type_info: TypeSpec,
    pub is_optional: bool,
}

/// A collection declaration: its snake case name and its fields.
pub struct AddCollectionInput {
    pub name: String,
    pub fields: Vec<TypedField>,
}

/// Why a declaration is refused.
#[derive(Debug, PartialEq, Eq, Structural)]
pub enum DeclarationError {
    NameIsEmpty,
    NameNotSnakeCase,
    NameStartsWithCt,
    NameStartsWithMeta,
    FieldNameStartsWithId,
    FieldNameStartsWithFk,
    CollectionExists,
}

impl DeclarationError {
    /// The message the client answers with.
    pub open spec fn spec_message(&self) -> Seq<char> {
        match self {
            DeclarationError::NameIsEmpty => "Name is empty"@,
            DeclarationError::NameNotSnakeCase => "Name is not in snake case"@,
            DeclarationError::NameStartsWithCt => "Name starts with ct_"@,
            DeclarationError::NameStartsWithMeta => "Name starts with meta_"@,
            DeclarationError::FieldNameStartsWithId => "Field name starts with id"@,
            DeclarationError::FieldNameStartsWithFk => "Field name starts with fk_"@,
            DeclarationError::CollectionExists => "collection exist"@,
        }
    }

    /// The message the client answers with.
    pub fn message(&self) -> (r: &'static str)
        ensures
            r@ == self.spec_message(),
    {
        proof {
            reveal_strlit("Name is empty");
            reveal_strlit("Name is not in snake case");
            reveal_strlit("Name starts with ct_");
            reveal_strlit("Name starts with meta_");
            reveal_strlit("Field name starts with id");
            reveal_strlit("Field name starts with fk_");
            reveal_strlit("collection exist");
        }
        match self {
            DeclarationError::NameIsEmpty => "Name is empty",
            DeclarationError::NameNotSnakeCase => "Name is not in snake case",
            DeclarationError::NameStartsWithCt => "Name starts with ct_",
            DeclarationError::NameStartsWithMeta => "Name starts with meta_",
            DeclarationError::FieldNameStartsWithId => "Field name starts with id",
            DeclarationError::FieldNameStartsWithFk => "Field name starts with fk_",
            DeclarationError::CollectionExists => "collection exist",
        }
    }
}

/// Whether some name of the list starts with `p`.
pub open spec fn some_starts_with(names: Seq<Seq<char>>, p: Seq<char>) -> bool {
    exists|i: int| 0 <= i < names.len() && has_prefix(#[trigger] names[i], p)
}

/// The first rule a declaration breaks, checked in this order: the name is
/// not empty, is in snake case, starts neither with `ct_` nor with `meta_`;
/// no field name starts with `id`, none with `fk_`.
pub open spec fn declaration_error(name: Seq<char>, field_names: Seq<Seq<char>>) -> Option<DeclarationError> {
    if name.len() == 0 {
        Some(DeclarationError::NameIsEmpty)
    } else if !is_snake_case(name) {
        Some(DeclarationError::NameNotSnakeCase)
    } else if has_prefix(name, "ct_"@) {
        Some(DeclarationError::NameStartsWithCt)
    } else if has_prefix(name, "meta_"@) {
        Some(DeclarationError::NameStartsWithMeta)
    } else if some_starts_with(field_names, "id"@) {
        Some(DeclarationError::FieldNameStartsWithId)
    } else if some_starts_with(field_names, "fk_"@) {
        Some(DeclarationError::FieldNameStartsWithFk)
    } else {
        None
    }
}

/// Whether some name of the list starts with `p`.
fn any_starts_with(names: &Vec<Vec<char>>, p: &str) -> (r: bool)
    ensures
        r == some_starts_with(names@.map_values(|n: Vec<char>| n@), p@),
{
    let ghost nv = names@.map_values(|n: Vec<char>| n@);
    let pc = chars_of(p);
    let mut i: usize = 0;
    while i < names.len()
        invariant
            i <= names@.len(),
            nv == names@.map_values(|n: Vec<char>| n@),
            pc@ == p@,
            forall|k: int| 0 <= k < i ==> !has_prefix(#[trigger] nv[k], p@),
        decreases names@.len() - i,
    {
        if starts_with(&names[i], &pc) {
            proof {
                assert(nv[i as int] == names@[i as int]@);
            }
            return true;
        }
        i = i + 1;
    }
    false
}

impl AddCollectionInput {
    /// The names of the declared fields.
    pub open spec fn field_names(&self) -> Seq<Seq<char>> {
        self.fields@.map_values(|f: TypedField| f.name@)
    }

    /// Checks the declaration's names against the client's rules.
    pub fn check(&self) -> (r: Result<(), DeclarationError>)
        ensures
            match declaration_error(self.name@, self.field_names()) {
                Some(e) => r == Err::<(), DeclarationError>(e),
                None => r is Ok,
            },
    {
        let mut names: Vec<Vec<char>> = Vec::new();
        let mut i: usize = 0;
        while i < self.fields.len()
            invariant
                i <= self.fields@.len(),
                names@.len() == i,
                forall|k: int| 0 <= k < i ==> (#[trigger] names@[k])@ == self.fields@[k].name@,
            decreases self.fields@.len() - i,
        {
            names.push(chars_of(self.fields[i].name.as_str()));
            i = i + 1;
        }
        proof {
            assert(names@.map_values(|n: Vec<char>| n@) =~= self.field_names());
        }
        check_names(self.name.as_str(), &names)
    }
}

/// Checks a collection name and its field names against the client's
/// rules.
pub fn check_names(name: &str, field_names: &Vec<Vec<char>>) -> (r: Result<(), DeclarationError>)
    ensures
        match declaration_error(name@, field_names@.map_values(|n: Vec<char>| n@)) {
            Some(e) => r == Err::<(), DeclarationError>(e),
            None => r is Ok,
        },
{
    let n = chars_of(name);
    if n.len() == 0 {
        return Err(DeclarationError::NameIsEmpty);
    }
    if !check_snake_case(name) {
        return Err(DeclarationError::NameNotSnakeCase);
    }
    if starts_with(&n, &chars_of("ct_")) {
        return Err(DeclarationError::NameStartsWithCt);
    }
    if starts_with(&n, &chars_of("meta_")) {
        return Err(DeclarationError::NameStartsWithMeta);
    }
    if any_starts_with(field_names, "id") {
        return Err(DeclarationError::FieldNameStartsWithId);
    }
    if any_starts_with(field_names, "fk_") {
        return Err(DeclarationError::FieldNameStartsWithFk);
    }
    Ok(())
}

/// Checks a declaration against the client's rules and against the
/// collections already registered.
pub fn check_new_collection(reg: &crate::registry::Registry, input: &AddCollectionInput) -> (r: Result<(), DeclarationError>)
    requires
        reg.wf(),
    ensures
        match declaration_error(input.name@, input.field_names()) {
            Some(e) => r == Err::<(), DeclarationError>(e),
            None => if crate::registry::has_collection(reg@.collections, input.name@) {
                r == Err::<(), DeclarationError>(DeclarationError::CollectionExists)
            } else {
                r is Ok
            },
        },
{
    input.check()?;
    if reg.find_collection(input.name.as_str()).is_some() {
        return Err(DeclarationError::CollectionExists);
    }
    Ok(())
}

/// A filter of a page query: the column `col` equals `eq`.
pub struct ColumnEqual {
    pub col: String,
    pub eq: JsonValue,
}

/// The filters this client supports.
pub enum SupportedFilter {
    ColEq(ColumnEqual),
}

/// Why a filter was refused, with the column it names.
#[derive(Debug, PartialEq, Eq)]
pub enum InvalidFilter {
    FieldNotFound(String),
    TypeMismatch(String),
}

/// A filter by its plain parts: the column and the value.
pub open spec fn filter_view(f: SupportedFilter) -> (Seq<char>, Json) {
    match f {
        SupportedFilter::ColEq(c) => (c.col@, c.eq@),
    }
}

/// Whether a filter names a field of the collection and holds a value of
/// its type.
pub open spec fn filter_fits(fields: Seq<FieldView>, f: (Seq<char>, Json)) -> bool {
    match find_field_spec(fields, f.0) {
        Some(fd) => value_fits(fd.ty, false, f.1),
        None => false,
    }
}

/// A checked filter: the column equals the bound value.
pub struct BoundColumnEqual {
    pub col: Vec<char>,
    pub eq: BindValue,
}

/// Whether all the filters fit the fields.
pub open spec fn filters_fit(fields: Seq<FieldView>, fs: Seq<SupportedFilter>) -> bool {
    forall|i: int| 0 <= i < fs.len() ==> filter_fits(fields, #[trigger] filter_view(fs[i]))
}

/// Whether `v` binds the filters `fs` in order: each the column it names
/// and its value as its field's type binds it.
pub open spec fn bound_filters(fields: Seq<FieldView>, fs: Seq<SupportedFilter>, v: Seq<BoundColumnEqual>) -> bool {
    &&& v.len() == fs.len()
    &&& forall|i: int|
        0 <= i < v.len() ==> {
            let f = filter_view(fs[i]);
            &&& (#[trigger] v[i]).col@ == f.0
            &&& v[i].eq@ == bind_for(find_field_spec(fields, f.0).unwrap().ty, f.1)
        }
}

/// Whether `e` refuses the first filter of `fs` that does not fit:
/// `FieldNotFound` where it names no field, `TypeMismatch` otherwise.
pub open spec fn filter_refusal(fields: Seq<FieldView>, fs: Seq<SupportedFilter>, e: InvalidFilter) -> bool {
    exists|k: int|
        {
            &&& 0 <= k < fs.len()
            &&& forall|j: int| 0 <= j < k ==> filter_fits(fields, #[trigger] filter_view(fs[j]))
            &&& !filter_fits(fields, #[trigger] filter_view(fs[k]))
            &&& match find_field_spec(fields, filter_view(fs[k]).0) {
                None => e matches InvalidFilter::FieldNotFound(c) && c@ == filter_view(fs[k]).0,
                Some(_) => e matches InvalidFilter::TypeMismatch(c) && c@ == filter_view(fs[k]).0,
            }
        }
}

/// Checks the filters of a page query against the collection, in order:
/// the first that names no field is refused with `FieldNotFound`, the
/// first whose value does not fit its field with `TypeMismatch`. Each
/// accepted filter binds its value as its field's type binds it.
pub fn parse_supported_filter(input: Vec<SupportedFilter>, base: &DynamicCollection) -> (r: Result<
    Vec<BoundColumnEqual>,
    InvalidFilter,
>)
    ensures
        match r {
            Ok(v) => filters_fit(base@.fields, input@) && bound_filters(base@.fields, input@, v@),
            Err(e) => filter_refusal(base@.fields, input@, e),
        },
{
    let ghost iv = input@;
    let mut ret: Vec<BoundColumnEqual> = Vec::new();
    let mut i: usize = 0;
    proof {
        assert(base.fields@.map_values(|f: crate::schema::DynamicField| f@) =~= fields_view(base.fields@));
    }
    while i < input.len()
        invariant
            i <= input@.len(),
            iv == input@,
            base@.fields == fields_view(base.fields@),
            ret@.len() == i,
            forall|j: int| 0 <= j < i ==> filter_fits(base@.fields, #[trigger] filter_view(iv[j])),
            forall|j: int|
                0 <= j < i ==> {
                    let f = filter_view(iv[j]);
                    &&& (#[trigger] ret@[j]).col@ == f.0
                    &&& ret@[j].eq@ == bind_for(find_field_spec(base@.fields, f.0).unwrap().ty, f.1)
                },
        decreases input@.len() - i,
    {
        match &input[i] {
            SupportedFilter::ColEq(c) => {
                let col = chars_of(c.col.as_str());
                match find_field(&base.fields, &col) {
                    Some(k) => {
                        let fd = &base.fields[k];
                        match to_bind(&fd.type_info, false, &c.eq) {
                            Ok(b) => {
                                ret.push(BoundColumnEqual { col, eq: b });
                            },
                            Err(_) => {
                                let name = c.col.clone();
                                proof {
                                    assert(filter_view(iv[i as int]) == (c.col@, c.eq@));
                                    assert(base@.fields[k as int] == base.fields@[k as int]@);
                                    assert(!filter_fits(base@.fields, filter_view(iv[i as int])));
                                }
                                return Err(InvalidFilter::TypeMismatch(name));
                            },
                        }
                    },
                    None => {
                        let name = c.col.clone();
                        proof {
                            assert(filter_view(iv[i as int]) == (c.col@, c.eq@));
                            assert(!filter_fits(base@.fields, filter_view(iv[i as int])));
                        }
                        return Err(InvalidFilter::FieldNotFound(name));
                    },
                }
            },
        }
        i = i + 1;
    }
    Ok(ret)
}

/// The direction of an ordering.
#[derive(Debug, Clone, Copy, PartialEq, Eq, Structural)]
pub enum OrderDirection {
    Asc,
    Desc,
}

/// The SQL keyword of a direction.
pub open spec fn direction_sql(d: OrderDirection) -> Seq<char> {
    match d {
        OrderDirection::Asc => "ASC"@,
        OrderDirection::Desc => "DESC"@,
    }
}

/// Appends the SQL keyword of a direction.
fn write_direction(d: OrderDirection, ctx: &mut StatementBuilder)
    ensures
        final(ctx).sql@ == old(ctx).sql@ + direction_sql(d),
        final(ctx).binds@ == old(ctx).binds@,
{
    proof {
        reveal_strlit("ASC");
        reveal_strlit("DESC");
    }
    match d {
        OrderDirection::Asc => ctx.syntax("ASC"),
        OrderDirection::Desc => ctx.syntax("DESC"),
    }
}

/// An ordering of a page query as requested: a column and a direction.
pub struct PagniationOrderBy {
    pub col: String,
    pub direction: OrderDirection,
}

impl PagniationOrderBy {
    /// Appends the ordering: the quoted column, a space, the direction.
    pub fn expression(&self, ctx: &mut StatementBuilder)
        ensures
            final(ctx).sql@ == old(ctx).sql@ + quoted(self.col@) + seq![' '] + direction_sql(self.direction),
            final(ctx).binds@ == old(ctx).binds@,
    {
        ctx.sanitize_str(self.col.as_str());
        proof {
            reveal_strlit(" ");
        }
        ctx.syntax(" ");
        write_direction(self.direction, ctx);
    }
}

/// An ordering resolved against a collection: its table, the column, the
/// column's type and the direction.
pub struct DynamicOrderBy {
    pub table: String,
    pub col: String,
    pub column_type: ColumnType,
    pub direction: OrderDirection,
}

impl DynamicOrderBy {
    /// Appends the ordering: the quoted table, a dot, the quoted column, a
    /// space, the direction.
    pub fn expression(&self, ctx: &mut StatementBuilder)
        ensures
            final(ctx).sql@ == old(ctx).sql@ + quoted(self.table@) + seq!['.'] + quoted(self.col@) + seq![' ']
                + direction_sql(self.direction),
            final(ctx).binds@ == old(ctx).binds@,
    {
        ctx.sanitize_str(self.table.as_str());
        proof {
            reveal_strlit(".");
            reveal_strlit(" ");
        }
        ctx.syntax(".");
        ctx.sanitize_str(self.col.as_str());
        ctx.syntax(" ");
        write_direction(self.direction, ctx);
    }
}

/// Whether every ordering names a field of the collection.
pub open spec fn orders_found(base: crate::schema::CollectionView, ob: Seq<PagniationOrderBy>) -> bool {
    forall|i: int| 0 <= i < ob.len() ==> find_field_spec(base.fields, (#[trigger] ob[i]).col@) is Some
}

/// Whether `v` resolves the orderings `ob` in order: the collection's table,
/// the column, its field's type, the direction.
pub open spec fn resolved_orders(base: crate::schema::CollectionView, ob: Seq<PagniationOrderBy>, v: Seq<DynamicOrderBy>) -> bool {
    &&& v.len() == ob.len()
    &&& forall|i: int|
        0 <= i < v.len() ==> {
            &&& (#[trigger] v[i]).table@ == base.table
            &&& v[i].col@ == ob[i].col@
            &&& v[i].column_type == find_field_spec(base.fields, ob[i].col@).unwrap().ty
            &&& v[i].direction == ob[i].direction
        }
}

/// Resolves the orderings of a page query against the collection: `None`
/// where one names no field; otherwise each ordering with the collection's
/// table and its field's type.
pub fn resolve_order_by(base: &DynamicCollection, order_by: &Vec<PagniationOrderBy>) -> (r: Option<Vec<DynamicOrderBy>>)
    ensures
        r is Some <==> orders_found(base@, order_by@),
        r matches Some(v) ==> resolved_orders(base@, order_by@, v@),
{
    proof {
        assert(base.fields@.map_values(|f: crate::schema::DynamicField| f@) =~= fields_view(base.fields@));
    }
    let mut ret: Vec<DynamicOrderBy> = Vec::new();
    let mut i: usize = 0;
    while i < order_by.len()
        invariant
            i <= order_by@.len(),
            base@.fields == fields_view(base.fields@),
            ret@.len() == i,
            forall|j: int| 0 <= j < i ==> find_field_spec(base@.fields, (#[trigger] order_by@[j]).col@) is Some,
            forall|j: int|
                0 <= j < i ==> {
                    &&& (#[trigger] ret@[j]).table@ == base@.table
                    &&& ret@[j].col@ == order_by@[j].col@
                    &&& ret@[j].column_type == find_field_spec(base@.fields, order_by@[j].col@).unwrap().ty
                    &&& ret@[j].direction == order_by@[j].direction
                },
        decreases order_by@.len() - i,
    {
        let o = &order_by[i];
        let col = chars_of(o.col.as_str());
        match find_field(&base.fields, &col) {
            Some(k) => {
                let ty = base.fields[k].type_info;
                ret.push(
                    DynamicOrderBy {
                        table: base.collection_name.pascal_case.clone(),
                        col: o.col.clone(),
                        column_type: ty,
                        direction: o.direction,
                    },
                );
            },
            None => {
                return None;
            },
        }
        i = i + 1;
    }
    Some(ret)
}

/// A link a page query asks for.
pub enum SupportedLinkFetchMany {
    /// The row of `to` each row points to.
    OptionalToMany { to: String },
    /// The rows' creation and update times.
    Timestamp,
}

/// A link by its plain parts: the collection it reaches, or `None` for
/// timestamps.
pub open spec fn link_view(l: SupportedLinkFetchMany) -> Option<Seq<char>> {
    match l {
        SupportedLinkFetchMany::OptionalToMany { to } => Some(to@),
        SupportedLinkFetchMany::Timestamp => None,
    }
}

/// The cursor of a page: the id of its first row and that row's values of
/// the ordering columns, in the order given.
pub struct FirstItem {
    pub id: i64,
    pub attributes: Vec<(String, JsonValue)>,
}

/// How a page is cut.
pub struct Pagination {
    pub limit: i64,
    pub first_item: Option<FirstItem>,
    pub order_by: Vec<PagniationOrderBy>,
}

/// A page query.
pub struct FetchManyInput {
    pub base: String,
    pub filters: Vec<SupportedFilter>,
    pub links: Vec<SupportedLinkFetchMany>,
    pub pagination: Pagination,
}

/// Why a page query was refused.
#[derive(Debug, PartialEq, Eq)]
pub enum PageError {
    CollectionNotFound,
    Filter(InvalidFilter),
    RelatedCollectionNotFound,
    RelationNotFound,
    NotTimestamped,
    ColumnNotFound,
    FailedToParse,
}

impl PageError {
    /// The message the client answers with, for the errors it words itself.
    pub open spec fn spec_message(&self) -> Option<Seq<char>> {
        match self {
            PageError::CollectionNotFound => Some("collection doesn't exist"@),
            PageError::Filter(_) => None,
            PageError::RelatedCollectionNotFound => Some("related collection is not found"@),
            PageError::RelationNotFound => Some("relation doesn't exist between x, y"@),
            PageError::NotTimestamped => Some("collection is not timestamped"@),
            PageError::ColumnNotFound => Some("column doesn't exist"@),
            PageError::FailedToParse => Some("faile to parse"@),
        }
    }

    /// The message the client answers with, for the errors it words itself.
    pub fn message(&self) -> (r: Option<&'static str>)
        ensures
            match self.spec_message() {
                Some(m) => r matches Some(t) && t@ == m,
                None => r is None,
            },
    {
        proof {
            reveal_strlit("collection doesn't exist");
            reveal_strlit("related collection is not found");
            reveal_strlit("relation doesn't exist between x, y");
            reveal_strlit("collection is not timestamped");
            reveal_strlit("column doesn't exist");
            reveal_strlit("faile to parse");
        }
        match self {
            PageError::CollectionNotFound => Some("collection doesn't exist"),
            PageError::Filter(_) => None,
            PageError::RelatedCollectionNotFound => Some("related collection is not found"),
            PageError::RelationNotFound => Some("relation doesn't exist between x, y"),
            PageError::NotTimestamped => Some("collection is not timestamped"),
            PageError::ColumnNotFound => Some("column doesn't exist"),
            PageError::FailedToParse => Some("faile to parse"),
        }
    }
}

/// What becomes of a requested link.
pub enum LinkStatus {
    Fine,
    Refused(PageError),
    /// Only the link the other way round is declared, which this client
    /// does not follow.
    Reversed,
}

/// What becomes of a requested link of `base`: timestamps need `base` to
/// carry them; a link to `to` needs `to` registered and the link from
/// `base` to `to` declared.
pub open spec fn link_status(reg: crate::registry::RegistryView, base: Seq<char>, l: Option<Seq<char>>) -> LinkStatus {
    match l {
        None => if reg.timestamped.contains(base) {
            LinkStatus::Fine
        } else {
            LinkStatus::Refused(PageError::NotTimestamped)
        },
        Some(to) => if !crate::registry::has_collection(reg.collections, to) {
            LinkStatus::Refused(PageError::RelatedCollectionNotFound)
        } else if reg.optional_to_many.contains((base, to)) {
            LinkStatus::Fine
        } else if reg.optional_to_many.contains((to, base)) {
            LinkStatus::Reversed
        } else {
            LinkStatus::Refused(PageError::RelationNotFound)
        },
    }
}

/// Whether the first `k` links are all fine.
pub open spec fn links_fine_upto(reg: crate::registry::RegistryView, base: Seq<char>, ls: Seq<SupportedLinkFetchMany>, k: int) -> bool {
    forall|j: int| 0 <= j < k ==> link_status(reg, base, link_view(#[trigger] ls[j])) is Fine
}

/// Whether the query reaches a link that only the other way round is
/// declared: the collection exists, the filters fit, and the first link
/// that is not fine is such a link.
pub open spec fn reaches_reversed_link(reg: crate::registry::RegistryView, input: FetchManyInput) -> bool {
    &&& crate::registry::has_collection(reg.collections, input.base@)
    &&& filters_fit(crate::registry::collection_named(reg.collections, input.base@).fields, input.filters@)
    &&& exists|k: int|
        0 <= k < input.links@.len() && links_fine_upto(reg, input.base@, input.links@, k) && link_status(
            reg,
            input.base@,
            link_view(#[trigger] input.links@[k]),
        ) is Reversed
}

/// Whether an attribute of the cursor names a field and holds a value of
/// its type.
pub open spec fn attribute_fits(fields: Seq<FieldView>, a: (Seq<char>, Json)) -> bool {
    filter_fits(fields, a)
}

/// A value bound to a column of a table.
pub struct NamedBind {
    pub table: String,
    pub name: String,
    pub value: BindValue,
}

/// A resolved link of a page query.
pub enum PageLink {
    OptionalToMany(DynamicCollection),
    Timestamp,
}

/// A page query checked against the registry.
pub struct PagePlan {
    pub base: DynamicCollection,
    pub wheres: Vec<BoundColumnEqual>,
    pub links: Vec<PageLink>,
    pub order_by: Vec<DynamicOrderBy>,
    pub first_item: Option<(i64, Vec<NamedBind>)>,
    pub limit: i64,
}

/// An attribute of the cursor by its plain parts.
pub open spec fn attribute_view(a: (String, JsonValue)) -> (Seq<char>, Json) {
    (a.0@, a.1@)
}

/// Whether all the attributes fit the fields.
pub open spec fn attributes_fit(fields: Seq<FieldView>, attrs: Seq<(String, JsonValue)>) -> bool {
    forall|i: int| 0 <= i < attrs.len() ==> attribute_fits(fields, #[trigger] attribute_view(attrs[i]))
}

/// Whether `v` binds the attributes in order, each to its column of the
/// collection's table, as its field's type binds it.
pub open spec fn bound_attributes(base: crate::schema::CollectionView, attrs: Seq<(String, JsonValue)>, v: Seq<NamedBind>) -> bool {
    &&& v.len() == attrs.len()
    &&& forall|i: int|
        0 <= i < v.len() ==> {
            &&& (#[trigger] v[i]).table@ == base.table
            &&& v[i].name@ == attrs[i].0@
            &&& v[i].value@ == bind_for(find_field_spec(base.fields, attrs[i].0@).unwrap().ty, attrs[i].1@)
        }
}

/// Whether `e` refuses the first attribute that does not fit:
/// `ColumnNotFound` where it names no field, `FailedToParse` otherwise.
pub open spec fn attribute_refusal(fields: Seq<FieldView>, attrs: Seq<(String, JsonValue)>, e: PageError) -> bool {
    exists|k: int|
        {
            &&& 0 <= k < attrs.len()
            &&& forall|j: int| 0 <= j < k ==> attribute_fits(fields, #[trigger] attribute_view(attrs[j]))
            &&& !attribute_fits(fields, #[trigger] attribute_view(attrs[k]))
            &&& e == if find_field_spec(fields, attrs[k].0@) is None {
                PageError::ColumnNotFound
            } else {
                PageError::FailedToParse
            }
        }
}

/// Binds the cursor's attributes: `ColumnNotFound` at the first that names
/// no field, `FailedToParse` at the first whose value does not fit its
/// field; otherwise each attribute bound to its column of `base`'s table.
pub fn bind_first_item(base: &DynamicCollection, attributes: &Vec<(String, JsonValue)>) -> (r: Result<Vec<NamedBind>, PageError>)
    ensures
        match r {
            Ok(v) => attributes_fit(base@.fields, attributes@) && bound_attributes(base@, attributes@, v@),
            Err(e) => attribute_refusal(base@.fields, attributes@, e),
        },
{
    proof {
        assert(base.fields@.map_values(|f: crate::schema::DynamicField| f@) =~= fields_view(base.fields@));
    }
    let mut ret: Vec<NamedBind> = Vec::new();
    let mut i: usize = 0;
    while i < attributes.len()
        invariant
            i <= attributes@.len(),
            base@.fields == fields_view(base.fields@),
            ret@.len() == i,
            forall|j: int| 0 <= j < i ==> attribute_fits(base@.fields, #[trigger] attribute_view(attributes@[j])),
            forall|j: int|
                0 <= j < i ==> {
                    &&& (#[trigger] ret@[j]).table@ == base@.table
                    &&& ret@[j].name@ == attributes@[j].0@
                    &&& ret@[j].value@ == bind_for(find_field_spec(base@.fields, attributes@[j].0@).unwrap().ty, attributes@[j].1@)
                },
        decreases attributes@.len() - i,
    {
        let a = &attributes[i];
        let key = chars_of(a.0.as_str());
        match find_field(&base.fields, &key) {
            Some(k) => {
                proof {
                    assert(base@.fields[k as int] == base.fields@[k as int]@);
                }
                match to_bind(&base.fields[k].type_info, false, &a.1) {
                    Ok(b) => {
                        ret.push(NamedBind { table: base.collection_name.pascal_case.clone(), name: a.0.clone(), value: b });
                    },
                    Err(_) => {
                        proof {
                            assert(!attribute_fits(base@.fields, attribute_view(attributes@[i as int])));
                        }
                        return Err(PageError::FailedToParse);
                    },
                }
            },
            None => {
                proof {
                    assert(!attribute_fits(base@.fields, attribute_view(attributes@[i as int])));
                }
                return Err(PageError::ColumnNotFound);
            },
        }
        i = i + 1;
    }
    Ok(ret)
}

/// Whether `e` refuses the first link that is not fine, with that link's
/// error.
pub open spec fn link_refusal(reg: crate::registry::RegistryView, base: Seq<char>, ls: Seq<SupportedLinkFetchMany>, e: PageError) -> bool {
    exists|k: int|
        0 <= k < ls.len() && links_fine_upto(reg, base, ls, k) && link_status(reg, base, link_view(#[trigger] ls[k]))
            == LinkStatus::Refused(e)
}

/// Whether `v` resolves the links `ls` in order: timestamps as they are,
/// each other link to the registered collection it reaches.
pub open spec fn resolved_links(reg: crate::registry::RegistryView, ls: Seq<SupportedLinkFetchMany>, v: Seq<PageLink>) -> bool {
    &&& v.len() == ls.len()
    &&& forall|i: int|
        0 <= i < v.len() ==> match link_view(#[trigger] ls[i]) {
            None => v[i] is Timestamp,
            Some(to) => v[i] matches PageLink::OptionalToMany(c) && c@ == crate::registry::collection_named(
                reg.collections,
                to,
            ),
        }
}

/// Resolves the links of a page query of `base`, in order; the first that
/// is not fine is refused with its error.
pub fn resolve_links(reg: &crate::registry::Registry, base: &String, links: &Vec<SupportedLinkFetchMany>) -> (r: Result<Vec<PageLink>, PageError>)
    requires
        reg.wf(),
        forall|k: int|
            0 <= k < links@.len() && links_fine_upto(reg@, base@, links@, k) ==> !(link_status(
                reg@,
                base@,
                link_view(#[trigger] links@[k]),
            ) is Reversed),
    ensures
        match r {
            Ok(v) => links_fine_upto(reg@, base@, links@, links@.len() as int) && resolved_links(reg@, links@, v@),
            Err(e) => link_refusal(reg@, base@, links@, e),
        },
{
    let mut ret: Vec<PageLink> = Vec::new();
    let mut i: usize = 0;
    while i < links.len()
        invariant
            i <= links@.len(),
            reg.wf(),
            forall|k: int|
                0 <= k < links@.len() && links_fine_upto(reg@, base@, links@, k) ==> !(link_status(
                    reg@,
                    base@,
                    link_view(#[trigger] links@[k]),
                ) is Reversed),
            links_fine_upto(reg@, base@, links@, i as int),
            ret@.len() == i,
            forall|j: int|
                0 <= j < i ==> match link_view(#[trigger] links@[j]) {
                    None => ret@[j] is Timestamp,
                    Some(to) => ret@[j] matches PageLink::OptionalToMany(c) && c@
                        == crate::registry::collection_named(reg@.collections, to),
                },
        decreases links@.len() - i,
    {
        let ghost st = link_status(reg@, base@, link_view(links@[i as int]));
        match &links[i] {
            SupportedLinkFetchMany::OptionalToMany { to } => {
                match reg.find_collection(to.as_str()) {
                    Some(k) => {
                        if reg.has_optional_to_many(base, to) {
                            let c = reg.collection_at(k).copy();
                            ret.push(PageLink::OptionalToMany(c));
                        } else {
                            proof {
                                assert(!(st is Reversed));
                            }
                            return Err(PageError::RelationNotFound);
                        }
                    },
                    None => {
                        return Err(PageError::RelatedCollectionNotFound);
                    },
                }
            },
            SupportedLinkFetchMany::Timestamp => {
                if reg.is_timestamped(base) {
                    ret.push(PageLink::Timestamp);
                } else {
                    return Err(PageError::NotTimestamped);
                }
            },
        }
        proof {
            assert forall|j: int| 0 <= j < i + 1 implies link_status(reg@, base@, link_view(#[trigger] links@[j])) is Fine by {
                if j < i {
                    assert(links_fine_upto(reg@, base@, links@, i as int));
                }
            }
        }
        i = i + 1;
    }
    Ok(ret)
}

/// Checks a page query against the registry, in this order: the
/// collection, its filters, its links, its orderings, the cursor's
/// attributes; the first problem refuses it. A link of which only the
/// other direction is declared is left out by `requires`.
pub fn plan_fetch_many(reg: &crate::registry::Registry, input: FetchManyInput) -> (r: Result<PagePlan, PageError>)
    requires
        reg.wf(),
        !reaches_reversed_link(reg@, input),
    ensures
        ({
            let base = crate::registry::collection_named(reg@.collections, input.base@);
            let ls = input.links@;
            if !crate::registry::has_collection(reg@.collections, input.base@) {
                r == Err::<PagePlan, PageError>(PageError::CollectionNotFound)
            } else if !filters_fit(base.fields, input.filters@) {
                r matches Err(PageError::Filter(e)) && filter_refusal(base.fields, input.filters@, e)
            } else if !links_fine_upto(reg@, input.base@, ls, ls.len() as int) {
                r matches Err(e) && link_refusal(reg@, input.base@, ls, e)
            } else if !orders_found(base, input.pagination.order_by@) {
                r == Err::<PagePlan, PageError>(PageError::ColumnNotFound)
            } else if input.pagination.first_item matches Some(fi) && !attributes_fit(base.fields, fi.attributes@) {
                r matches Err(e) && attribute_refusal(base.fields, input.pagination.first_item.unwrap().attributes@, e)
            } else {
                r matches Ok(p) && {
                    &&& p.base@ == base
                    &&& bound_filters(base.fields, input.filters@, p.wheres@)
                    &&& resolved_links(reg@, ls, p.links@)
                    &&& resolved_orders(base, input.pagination.order_by@, p.order_by@)
                    &&& match input.pagination.first_item {
                        None => p.first_item is None,
                        Some(fi) => p.first_item matches Some(pf) && pf.0 == fi.id && bound_attributes(
                            base,
                            fi.attributes@,
                            pf.1@,
                        ),
                    }
                    &&& p.limit == input.pagination.limit
                }
            }
        }),
{
    let k = match reg.find_collection(input.base.as_str()) {
        Some(k) => k,
        None => return Err(PageError::CollectionNotFound),
    };
    let base = reg.collection_at(k).copy();
    let FetchManyInput { base: base_name, filters, links, pagination } = input;
    let wheres = match parse_supported_filter(filters, &base) {
        Ok(w) => w,
        Err(e) => return Err(PageError::Filter(e)),
    };
    let links = resolve_links(reg, &base_name, &links)?;
    let order_by = match resolve_order_by(&base, &pagination.order_by) {
        Some(o) => o,
        None => return Err(PageError::ColumnNotFound),
    };
    let first_item = match &pagination.first_item {
        Some(fi) => {
            let binds = bind_first_item(&base, &fi.attributes)?;
            Some((fi.id, binds))
        },
        None => None,
    };
    Ok(PagePlan { base, wheres, links, order_by, first_item, limit: pagination.limit })
}

} // verus!
