//! The channel client: its settings and the collection declarations it
//! accepts, under the same naming rules as the first channel client.
use vstd::prelude::*;
use crate::json_client_v1::{DeclarationError, check_names, declaration_error};
use crate::sql::ColumnType;
use crate::text::chars_of;

verus! {

/// How the client is set up.
pub struct JsonClientSetting {
    /// Whether updates check that their filters pick a single row.
    pub check_for_unique_filters_on_update: bool,
}

impl JsonClientSetting {
    /// The setting clients start with: updates check their filters.
    pub fn default_setting() -> (r: Self)
        ensures
            r.check_for_unique_filters_on_update,
    {
        Self { check_for_unique_filters_on_update: true }
    }
}

/// The field types this client declares.
#[derive(Debug, Clone, Copy, PartialEq, Eq, Structural)]
pub enum TypeSpec {
    String,
    Boolean,
}

impl TypeSpec {
    /// The column type a field of this type has.
    pub open spec fn spec_column_type(self) -> ColumnType {
        match self {
            TypeSpec::String => ColumnType::Text,
            TypeSpec::Boolean => ColumnType::Boolean,
        }
    }

    /// The column type a field of this type has.
    pub fn column_type(&self) -> (r: ColumnType)
        ensures
            r == self.spec_column_type(),
    {
        match self {
            TypeSpec::String => ColumnType::Text,
            TypeSpec::Boolean => ColumnType::Boolean,
        }
    }
}

/// A declared field.
pub struct TypedField {
    pub name: String,
    pub type_info: TypeSpec,
    pub is_optional: bool,
}

/// A collection declaration: its snake case name and its fields.
pub struct AddCollectionInput {
    pub name: String,
    pub fields: Vec<TypedField>,
}

impl AddCollectionInput {
    /// The names of the declared fields.
    pub open spec fn field_names(&self) -> Seq<Seq<char>> {
        self.fields@.map_values(|f: TypedField| f.name@)
    }

    /// Checks the declaration's names against the client's rules.
    pub fn check(&self) -> (r: Result<(), DeclarationError>)
        ensures
            match declaration_error(self.name@, self.field_names()) {
                Some(e) => r == Err::<(), DeclarationError>(e),
                None => r is Ok,
            },
    {
        let mut names: Vec<Vec<char>> = Vec::new();
        let mut i: usize = 0;
        while i < self.fields.len()
            invariant
                i <= self.fields@.len(),
                names@.len() == i,
                forall|k: int| 0 <= k < i ==> (#[trigger] names@[k])@ == self.fields@[k].name@,
            decreases self.fields@.len() - i,
        {
            names.push(chars_of(self.fields[i].name.as_str()));
            i = i + 1;
        }
        proof {
            assert(names@.map_values(|n: Vec<char>| n@) =~= self.field_names());
        }
        check_names(self.name.as_str(), &names)
    }
}

} // verus!
