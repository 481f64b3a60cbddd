//! Names of collections and fields, and the rules they follow.
use vstd::prelude::*;
use convert_case::{Case, Casing};
use crate::text::{chars_of, starts_with, has_prefix};

verus! {

/// What `convert_case` makes of a text when asked for snake case
/// (`Casing::to_case` with `Case::Snake`).
pub uninterp spec fn snake_case_of(s: Seq<char>) -> Seq<char>;

/// What `convert_case` makes of a text when asked for Pascal case.
pub uninterp spec fn pascal_case_of(s: Seq<char>) -> Seq<char>;

/// `convert_case`'s `Casing::is_case` with `Case::Snake`. Its source
/// compares the text with `to_case(Case::Snake)` of it, so the result is
/// whether `snake_case_of` leaves the text as it is.
#[verifier::external_body]
fn is_case_snake(s: &str) -> (r: bool)
    ensures
        r == (snake_case_of(s@) == s@),
{
    s.is_case(Case::Snake)
}

/// `convert_case`'s `Casing::to_case` with `Case::Pascal`: the result is
/// named, `pascal_case_of` of the input.
#[verifier::external_body]
fn to_pascal_case(s: &str) -> (r: String)
    ensures
        r@ == pascal_case_of(s@),
{
    s.to_case(Case::Pascal)
}

/// Whether `s` is already in snake case: converting it changes nothing.
pub open spec fn is_snake_case(s: Seq<char>) -> bool {
    snake_case_of(s) == s
}

/// Tests `is_snake_case`.
pub fn check_snake_case(s: &str) -> (r: bool)
    ensures
        r == is_snake_case(s@),
{
    is_case_snake(s)
}

/// The rules a collection name follows: not empty, in snake case, and not
/// starting with the prefixes that the client keeps for itself.
pub open spec fn valid_collection_name(s: Seq<char>) -> bool {
    &&& s.len() > 0
    &&& is_snake_case(s)
    &&& !has_prefix(s, "ct_"@)
    &&& !has_prefix(s, "meta_"@)
}

/// The rules a field name follows: not empty, in snake case, and not
/// starting with `id` or `fk_`, which belong to the id and link columns.
pub open spec fn valid_field_name(s: Seq<char>) -> bool {
    &&& s.len() > 0
    &&& is_snake_case(s)
    &&& !has_prefix(s, "id"@)
    &&& !has_prefix(s, "fk_"@)
}

/// The name of a collection: the snake case name that requests use, and
/// the Pascal case name of its table.
pub struct CollectionName {
    pub pascal_case: String,
    pub snake_case: String,
}

impl CollectionName {
    /// Checks `value` against the collection name rules.
    pub fn new(value: &str) -> (r: Result<CollectionName, ()>)
        ensures
            r is Ok <==> valid_collection_name(value@),
            r matches Ok(n) ==> n.snake_case@ == value@ && n.pascal_case@ == pascal_case_of(
                value@,
            ),
    {
        let cs = chars_of(value);
        if cs.len() == 0 {
            return Err(());
        }
        if !check_snake_case(value) {
            return Err(());
        }
        if starts_with(&cs, &chars_of("ct_")) {
            return Err(());
        }
        if starts_with(&cs, &chars_of("meta_")) {
            return Err(());
        }
        Ok(CollectionName { pascal_case: to_pascal_case(value), snake_case: value.to_owned() })
    }

    /// The snake case name.
    pub fn as_str(&self) -> (r: &str)
        ensures
            r@ == self.snake_case@,
    {
        self.snake_case.as_str()
    }

    /// The table name.
    pub fn table(&self) -> (r: &str)
        ensures
            r@ == self.pascal_case@,
    {
        self.pascal_case.as_str()
    }

    /// A copy of the name.
    pub fn copy(&self) -> (r: CollectionName)
        ensures
            r.snake_case@ == self.snake_case@,
            r.pascal_case@ == self.pascal_case@,
    {
        CollectionName { pascal_case: self.pascal_case.clone(), snake_case: self.snake_case.clone() }
    }

    /// Two names are the same name when their snake case forms are equal.
    pub fn same_as(&self, other: &CollectionName) -> (r: bool)
        ensures
            r == (self.snake_case@ == other.snake_case@),
    {
        self.snake_case == other.snake_case
    }
}

/// The name of a field of a collection.
pub struct FieldName {
    pub snake_case: String,
}

impl FieldName {
    /// Checks `value` against the field name rules.
    pub fn new(value: &str) -> (r: Result<FieldName, ()>)
        ensures
            r is Ok <==> valid_field_name(value@),
            r matches Ok(n) ==> n.snake_case@ == value@,
    {
        let cs = chars_of(value);
        if cs.len() == 0 {
            return Err(());
        }
        if !check_snake_case(value) {
            return Err(());
        }
        if starts_with(&cs, &chars_of("id")) {
            return Err(());
        }
        if starts_with(&cs, &chars_of("fk_")) {
            return Err(());
        }
        Ok(FieldName { snake_case: value.to_owned() })
    }

    /// The name as text.
    pub fn as_str(&self) -> (r: &str)
        ensures
            r@ == self.snake_case@,
    {
        self.snake_case.as_str()
    }

    /// A copy of the name.
    pub fn copy(&self) -> (r: FieldName)
        ensures
            r.snake_case@ == self.snake_case@,
    {
        FieldName { snake_case: self.snake_case.clone() }
    }

    /// Two field names are the same when their texts are equal.
    pub fn same_as(&self, other: &FieldName) -> (r: bool)
        ensures
            r == (self.snake_case@ == other.snake_case@),
    {
        self.snake_case == other.snake_case
    }
}

} // verus!
