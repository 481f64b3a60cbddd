//! Reading the inputs of the operations out of JSON values.
use vstd::prelude::*;
use crate::json::{Json, JsonValue, clone_json};
use crate::schema::{AddCollectionInput, DynamicFieldInput, SupportedType};
use crate::registry::AddLinkInput;
use crate::insert::{InsertLinkView, SupportedInsertLink, insert_links_view};
use crate::update::{SupportedUpdateLink, UpdateLinkView, update_links_view};
use crate::fetch::{FetchLinkInputView, SupportedLinkFetchOne, fetch_links_input_view};
use crate::delete::{DeleteLinkView, SupportedDeleteLink, delete_links_view};
use crate::filters::{CompareOp, FilterView, SupportedFilter, filters_view};
use crate::text::{chars_eq_str, copy_chars, push_char};
use crate::values::{entries_view, get_member, lookup_key, member};

verus! {

/// The text of member `key`, where it is a string.
pub open spec fn str_member(j: Json, key: Seq<char>) -> Option<Seq<char>> {
    match member(j, key) {
        Some(Json::Str(s)) => Some(s),
        _ => None,
    }
}

/// The integer of member `key`, where it is one.
pub open spec fn int_member(j: Json, key: Seq<char>) -> Option<int> {
    match member(j, key) {
        Some(Json::Int(i)) => Some(i),
        _ => None,
    }
}

/// The truth value of member `key`, where it is one.
pub open spec fn bool_member(j: Json, key: Seq<char>) -> Option<bool> {
    match member(j, key) {
        Some(Json::Bool(b)) => Some(b),
        _ => None,
    }
}

/// The elements of member `key`, where it is an array.
pub open spec fn array_member(j: Json, key: Seq<char>) -> Option<Seq<Json>> {
    match member(j, key) {
        Some(Json::Array(items)) => Some(items),
        _ => None,
    }
}

/// A `String` holding the characters.
pub fn string_of(v: &Vec<char>) -> (r: String)
    ensures
        r@ == v@,
{
    let mut s = String::new();
    let mut i: usize = 0;
    while i < v.len()
        invariant
            i <= v@.len(),
            s@ == v@.take(i as int),
        decreases v@.len() - i,
    {
        push_char(&mut s, v[i]);
        i = i + 1;
        proof {
            assert(s@ =~= v@.take(i as int));
        }
    }
    proof {
        assert(v@.take(v@.len() as int) =~= v@);
    }
    s
}

/// The members of an object value.
pub fn as_object(j: &JsonValue) -> (r: Option<&Vec<(Vec<char>, JsonValue)>>)
    ensures
        match r {
            Some(es) => j@ == Json::Object(entries_view(es@)),
            None => !(j@ is Object),
        },
{
    match j {
        JsonValue::Object(es) => {
            proof {
                crate::values::lemma_object_view(*es);
            }
            Some(es)
        },
        _ => None,
    }
}

/// Member `key` of a value.
pub fn member_of<'a>(j: &'a JsonValue, key: &str) -> (r: Option<&'a JsonValue>)
    ensures
        match r {
            Some(v) => member(j@, key@) == Some(v@),
            None => member(j@, key@) is None,
        },
{
    match as_object(j) {
        Some(es) => get_member(es, key),
        None => None,
    }
}

/// The text of member `key`, where it is a string.
pub fn get_str(j: &JsonValue, key: &str) -> (r: Option<String>)
    ensures
        match str_member(j@, key@) {
            Some(s) => r matches Some(v) && v@ == s,
            None => r is None,
        },
{
    match member_of(j, key) {
        Some(JsonValue::Str(s)) => Some(string_of(s)),
        _ => None,
    }
}

/// The integer of member `key`, where it is one.
pub fn get_int(j: &JsonValue, key: &str) -> (r: Option<i64>)
    ensures
        match int_member(j@, key@) {
            Some(i) => r == Some(i as i64) && i64::MIN <= i <= i64::MAX,
            None => r is None,
        },
{
    match member_of(j, key) {
        Some(JsonValue::Int(i)) => Some(*i),
        _ => None,
    }
}

/// The truth value of member `key`, where it is one.
pub fn get_bool(j: &JsonValue, key: &str) -> (r: Option<bool>)
    ensures
        r == bool_member(j@, key@),
{
    match member_of(j, key) {
        Some(JsonValue::Bool(b)) => Some(*b),
        _ => None,
    }
}

/// The elements of member `key`, where it is an array.
pub fn get_array<'a>(j: &'a JsonValue, key: &str) -> (r: Option<&'a Vec<JsonValue>>)
    ensures
        match array_member(j@, key@) {
            Some(items) => r matches Some(v) && crate::statements::json_seq(v@) == items,
            None => r is None,
        },
{
    match member_of(j, key) {
        Some(JsonValue::Array(items)) => {
            proof {
                crate::values::lemma_array_view(*items);
            }
            Some(items)
        },
        _ => None,
    }
}

/// Whether a value is the string `s`.
pub fn is_str(j: &JsonValue, s: &str) -> (r: bool)
    ensures
        r == (j@ == Json::Str(s@)),
{
    match j {
        JsonValue::Str(t) => chars_eq_str(t, s),
        _ => false,
    }
}

/// Whether `j` is an object whose members are named `keys`, in that order,
/// and has no other member: requests are read member by member, each by
/// the name expected at its place.
pub open spec fn has_keys(j: Json, keys: Seq<Seq<char>>) -> bool {
    match j {
        Json::Object(es) => es.len() == keys.len() && forall|i: int| 0 <= i < es.len() ==> #[trigger] es[i].0 == keys[i],
        _ => false,
    }
}

/// Whether `j` is an object with the one member `a`.
pub fn keys1(j: &JsonValue, a: &str) -> (r: bool)
    ensures
        r == has_keys(j@, seq![a@]),
{
    match as_object(j) {
        Some(es) => {
            let ghost ev = entries_view(es@);
            if es.len() != 1 {
                return false;
            }
            let r = chars_eq_str(&es[0].0, a);
            proof {
                assert(ev[0].0 == es@[0].0@);
            }
            r
        },
        None => false,
    }
}

/// Whether `j` is an object with the members `a`, `b`, in that order.
pub fn keys2(j: &JsonValue, a: &str, b: &str) -> (r: bool)
    ensures
        r == has_keys(j@, seq![a@, b@]),
{
    match as_object(j) {
        Some(es) => {
            let ghost ev = entries_view(es@);
            if es.len() != 2 {
                return false;
            }
            let r = chars_eq_str(&es[0].0, a) && chars_eq_str(&es[1].0, b);
            proof {
                assert(ev[0].0 == es@[0].0@);
                assert(ev[1].0 == es@[1].0@);
            }
            r
        },
        None => false,
    }
}

/// Whether `j` is an object with the members `a`, `b`, `c`, in that order.
pub fn keys3(j: &JsonValue, a: &str, b: &str, c: &str) -> (r: bool)
    ensures
        r == has_keys(j@, seq![a@, b@, c@]),
{
    match as_object(j) {
        Some(es) => {
            let ghost ev = entries_view(es@);
            if es.len() != 3 {
                return false;
            }
            let r = chars_eq_str(&es[0].0, a) && chars_eq_str(&es[1].0, b) && chars_eq_str(&es[2].0, c);
            proof {
                assert(ev[0].0 == es@[0].0@);
                assert(ev[1].0 == es@[1].0@);
                assert(ev[2].0 == es@[2].0@);
            }
            r
        },
        None => false,
    }
}

/// Whether `j` is an object with the members `a`, `b`, `c`, `d`, in that
/// order.
pub fn keys4(j: &JsonValue, a: &str, b: &str, c: &str, d: &str) -> (r: bool)
    ensures
        r == has_keys(j@, seq![a@, b@, c@, d@]),
{
    match as_object(j) {
        Some(es) => {
            let ghost ev = entries_view(es@);
            if es.len() != 4 {
                return false;
            }
            let r = chars_eq_str(&es[0].0, a) && chars_eq_str(&es[1].0, b) && chars_eq_str(&es[2].0, c)
                && chars_eq_str(&es[3].0, d);
            proof {
                assert(ev[0].0 == es@[0].0@);
                assert(ev[1].0 == es@[1].0@);
                assert(ev[2].0 == es@[2].0@);
                assert(ev[3].0 == es@[3].0@);
            }
            r
        },
        None => false,
    }
}

/// The type a field is declared with: the name of a scalar type, or an
/// object `{"ty": "Array", "of": ...}` with these two members in this
/// order.
pub open spec fn decode_type(j: Json) -> Option<SupportedType>
    decreases j,
{
    match j {
        Json::Str(s) => if s == "String"@ {
            Some(SupportedType::String)
        } else if s == "Boolean"@ {
            Some(SupportedType::Boolean)
        } else if s == "Int"@ {
            Some(SupportedType::Int)
        } else if s == "Float64"@ {
            Some(SupportedType::Float64)
        } else {
            None
        },
        Json::Object(es) => if has_keys(j, seq!["ty"@, "of"@]) && lookup_key(es, "ty"@) == Some(
            Json::Str("Array"@),
        ) {
            match lookup_key(es, "of"@) {
                Some(of) => {
                    proof {
                        crate::request::lemma_lookup_decreases(es, "of"@);
                    }
                    match decode_type(of) {
                        Some(t) => Some(SupportedType::Array(Box::new(t))),
                        None => None,
                    }
                },
                None => None,
            }
        } else {
            None
        },
        _ => None,
    }
}

/// A value found in an object's entries is smaller than the object.
pub proof fn lemma_lookup_decreases(es: Seq<(Seq<char>, Json)>, key: Seq<char>)
    requires
        lookup_key(es, key) is Some,
    ensures
        decreases_to!(Json::Object(es) => lookup_key(es, key).unwrap()),
{
    let k = lemma_lookup_position(es, key);
    let o = Json::Object(es);
    assert(decreases_to!(o => o->Object_0));
    assert(decreases_to!(o->Object_0 => o->Object_0[k]));
    assert(decreases_to!(o->Object_0[k] => o->Object_0[k].1));
}

/// A key found by lookup is held by some entry.
pub proof fn lemma_lookup_position(es: Seq<(Seq<char>, Json)>, key: Seq<char>) -> (k: int)
    requires
        lookup_key(es, key) is Some,
    ensures
        0 <= k < es.len(),
        es[k].0 == key,
        es[k].1 == lookup_key(es, key).unwrap(),
    decreases es.len(),
{
    if es[0].0 == key {
        0
    } else {
        let j = lemma_lookup_position(es.drop_first(), key);
        j + 1
    }
}

/// Reads the type a field is declared with.
pub fn deserialize_supported_type_partial(j: &JsonValue) -> (r: Option<SupportedType>)
    ensures
        r == decode_type(j@),
    decreases j,
{
    match j {
        JsonValue::Str(s) => {
            if chars_eq_str(s, "String") {
                Some(SupportedType::String)
            } else if chars_eq_str(s, "Boolean") {
                Some(SupportedType::Boolean)
            } else if chars_eq_str(s, "Int") {
                Some(SupportedType::Int)
            } else if chars_eq_str(s, "Float64") {
                Some(SupportedType::Float64)
            } else {
                None
            }
        },
        JsonValue::Object(es) => {
            proof {
                crate::values::lemma_object_view(*es);
            }
            if !keys2(j, "ty", "of") {
                return None;
            }
            let ty = match get_member(es, "ty") {
                Some(t) => t,
                None => return None,
            };
            if !is_str(ty, "Array") {
                return None;
            }
            let k = match member_index(es, "of") {
                Some(k) => k,
                None => return None,
            };
            proof {
                assert(decreases_to!(*j => (*j)->Object_0));
                assert(decreases_to!(*es => es@));
                assert(decreases_to!(es@ => es@[k as int]));
                assert(decreases_to!(es@[k as int] => es@[k as int].1));
            }
            match deserialize_supported_type_partial(&es[k].1) {
                Some(t) => Some(SupportedType::Array(Box::new(t))),
                None => None,
            }
        },
        _ => None,
    }
}

/// The position of the first member named `key`, if any.
pub fn member_index(es: &Vec<(Vec<char>, JsonValue)>, key: &str) -> (r: Option<usize>)
    ensures
        match r {
            Some(k) => k < es@.len() && lookup_key(entries_view(es@), key@) == Some(es@[k as int].1@),
            None => lookup_key(entries_view(es@), key@) is None,
        },
{
    let ghost ev = entries_view(es@);
    let kc = crate::text::chars_of(key);
    let mut i: usize = 0;
    while i < es.len()
        invariant
            i <= es@.len(),
            ev == entries_view(es@),
            kc@ == key@,
            forall|q: int| 0 <= q < i ==> (#[trigger] ev[q]).0 != key@,
        decreases es@.len() - i,
    {
        if crate::text::chars_eq(&es[i].0, &kc) {
            proof {
                crate::values::lemma_lookup_skip(ev, key@, i as int);
                assert(ev.skip(i as int)[0] == ev[i as int]);
            }
            return Some(i);
        }
        i = i + 1;
    }
    proof {
        crate::values::lemma_lookup_skip(ev, key@, i as int);
    }
    None
}

/// A declared field: the members `name`, `type_info` and `is_optional`,
/// in this order and no others.
pub open spec fn decode_field(j: Json) -> Option<(Seq<char>, SupportedType, bool)> {
    if !has_keys(j, seq!["name"@, "type_info"@, "is_optional"@]) {
        None
    } else {
        decode_field_members(j)
    }
}

/// A declared field, read from its members by name.
pub open spec fn decode_field_members(j: Json) -> Option<(Seq<char>, SupportedType, bool)> {
    match (str_member(j, "name"@), member(j, "type_info"@), bool_member(j, "is_optional"@)) {
        (Some(name), Some(t), Some(opt)) => match decode_type(t) {
            Some(ty) => Some((name, ty, opt)),
            None => None,
        },
        _ => None,
    }
}

/// Reads a declared field.
pub fn decode_field_input(j: &JsonValue) -> (r: Option<DynamicFieldInput>)
    ensures
        match decode_field(j@) {
            Some(f) => r matches Some(v) && (v.name@, v.type_info, v.is_optional) == f,
            None => r is None,
        },
{
    if !keys3(j, "name", "type_info", "is_optional") {
        return None;
    }
    let name = match get_str(j, "name") {
        Some(n) => n,
        None => return None,
    };
    let t = match member_of(j, "type_info") {
        Some(t) => t,
        None => return None,
    };
    let opt = match get_bool(j, "is_optional") {
        Some(b) => b,
        None => return None,
    };
    match deserialize_supported_type_partial(t) {
        Some(ty) => Some(DynamicFieldInput { name, type_info: ty, is_optional: opt }),
        None => None,
    }
}

/// Whether a value is a collection declaration: the members `name` and
/// `fields`, in this order and no others.
pub open spec fn add_collection_ok(j: Json) -> bool {
    &&& has_keys(j, seq!["name"@, "fields"@])
    &&& str_member(j, "name"@) is Some
    &&& array_member(j, "fields"@) matches Some(fs) && forall|i: int| 0 <= i < fs.len() ==> decode_field(#[trigger] fs[i]) is Some
}

/// Whether `v` is what the declaration `j` declares: its name, and each of
/// its fields in order.
pub open spec fn collection_input_of(j: Json, v: AddCollectionInput) -> bool {
    &&& Some(v.name@) == str_member(j, "name"@)
    &&& array_member(j, "fields"@) matches Some(fs) && v.fields@.len() == fs.len() && forall|i: int|
        0 <= i < fs.len() ==> decode_field(fs[i]) == Some(
            ((#[trigger] v.fields@[i]).name@, v.fields@[i].type_info, v.fields@[i].is_optional),
        )
}

/// Reads a collection declaration.
pub fn decode_add_collection(j: &JsonValue) -> (r: Option<AddCollectionInput>)
    ensures
        r is Some <==> add_collection_ok(j@),
        r matches Some(v) ==> collection_input_of(j@, v),
{
    if !keys2(j, "name", "fields") {
        return None;
    }
    let name = match get_str(j, "name") {
        Some(n) => n,
        None => return None,
    };
    let fs = match get_array(j, "fields") {
        Some(fs) => fs,
        None => return None,
    };
    let ghost fv = crate::statements::json_seq(fs@);
    let mut fields: Vec<DynamicFieldInput> = Vec::new();
    let mut i: usize = 0;
    while i < fs.len()
        invariant
            i <= fs@.len(),
            fv == crate::statements::json_seq(fs@),
            array_member(j@, "fields"@) == Some(fv),
            fields@.len() == i,
            forall|k: int| 0 <= k < i ==> decode_field(fv[k]) == Some(
                ((#[trigger] fields@[k]).name@, fields@[k].type_info, fields@[k].is_optional),
            ),
        decreases fs@.len() - i,
    {
        match decode_field_input(&fs[i]) {
            Some(f) => fields.push(f),
            None => {
                proof {
                    assert(decode_field(fv[i as int]) is None);
                }
                return None;
            },
        }
        i = i + 1;
    }
    proof {
        assert forall|k: int| 0 <= k < fv.len() implies decode_field(#[trigger] fv[k]) is Some by {
            assert(decode_field(fv[k]) == Some((fields@[k].name@, fields@[k].type_info, fields@[k].is_optional)));
        }
    }
    Some(AddCollectionInput { name, fields })
}

/// A link declaration by its plain parts.
pub enum AddLinkView {
    OptionalToMany(Seq<char>, Seq<char>),
    ManyToMany(Seq<char>, Seq<char>),
    Timestamp(Seq<char>),
}

/// A link declaration by its plain parts.
pub open spec fn add_link_view(l: AddLinkInput) -> AddLinkView {
    match l {
        AddLinkInput::OptionalToMany { from, to } => AddLinkView::OptionalToMany(from@, to@),
        AddLinkInput::ManyToMany { from, to } => AddLinkView::ManyToMany(from@, to@),
        AddLinkInput::Timestamp { collection } => AddLinkView::Timestamp(collection@),
    }
}

/// A link declaration: its kind under `ty`, then `from` and `to`, or the
/// timestamped `collection`.
/// The member `ty` comes first, then the members its kind has, in the
/// order written here, and no others.
pub open spec fn decode_add_link_spec(j: Json) -> Option<AddLinkView> {
    match str_member(j, "ty"@) {
        Some(ty) => if ty == "optional_to_many"@ || ty == "many_to_many"@ {
            match (str_member(j, "from"@), str_member(j, "to"@)) {
                _ if !has_keys(j, seq!["ty"@, "from"@, "to"@]) => None,
                (Some(from), Some(to)) => if ty == "optional_to_many"@ {
                    Some(AddLinkView::OptionalToMany(from, to))
                } else {
                    Some(AddLinkView::ManyToMany(from, to))
                },
                _ => None,
            }
        } else if ty == "timestamp"@ {
            match str_member(j, "collection"@) {
                _ if !has_keys(j, seq!["ty"@, "collection"@]) => None,
                Some(c) => Some(AddLinkView::Timestamp(c)),
                None => None,
            }
        } else {
            None
        },
        None => None,
    }
}

/// Whether member `key` is the string `s`.
pub fn member_is(j: &JsonValue, key: &str, s: &str) -> (r: bool)
    ensures
        r == (str_member(j@, key@) == Some(s@)),
{
    match member_of(j, key) {
        Some(v) => is_str(v, s),
        None => false,
    }
}

/// Reads a link declaration.
pub fn decode_add_link(j: &JsonValue) -> (r: Option<AddLinkInput>)
    ensures
        match decode_add_link_spec(j@) {
            Some(l) => r matches Some(v) && add_link_view(v) == l,
            None => r is None,
        },
{
    if member_is(j, "ty", "optional_to_many") || member_is(j, "ty", "many_to_many") {
        if !keys3(j, "ty", "from", "to") {
            return None;
        }
        let from = match get_str(j, "from") {
            Some(f) => f,
            None => return None,
        };
        let to = match get_str(j, "to") {
            Some(t) => t,
            None => return None,
        };
        if member_is(j, "ty", "optional_to_many") {
            Some(AddLinkInput::OptionalToMany { from, to })
        } else {
            Some(AddLinkInput::ManyToMany { from, to })
        }
    } else if member_is(j, "ty", "timestamp") {
        if !keys2(j, "ty", "collection") {
            return None;
        }
        match get_str(j, "collection") {
            Some(c) => Some(AddLinkInput::Timestamp { collection: c }),
            None => None,
        }
    } else {
        proof {
            if str_member(j@, "ty"@) is Some {
                let ty = str_member(j@, "ty"@)->Some_0;
                assert(ty != "optional_to_many"@ && ty != "many_to_many"@ && ty != "timestamp"@);
            }
        }
        None
    }
}

/// A link of an inserted row: `set_id` with `to` and `id`, or `set_new`
/// with `to` and `value`.
/// The member `ty` comes first, then the members its kind has, in the
/// order written here, and no others.
pub open spec fn decode_insert_link(j: Json) -> Option<InsertLinkView> {
    match str_member(j, "ty"@) {
        Some(ty) => if ty == "set_id"@ {
            match (str_member(j, "to"@), int_member(j, "id"@)) {
                _ if !has_keys(j, seq!["ty"@, "to"@, "id"@]) => None,
                (Some(to), Some(id)) => Some(InsertLinkView::SetId(to, id)),
                _ => None,
            }
        } else if ty == "set_new"@ {
            match (str_member(j, "to"@), member(j, "value"@)) {
                _ if !has_keys(j, seq!["ty"@, "to"@, "value"@]) => None,
                (Some(to), Some(v)) => Some(InsertLinkView::SetNew(to, v)),
                _ => None,
            }
        } else {
            None
        },
        None => None,
    }
}

/// Reads a link of an inserted row.
pub fn decode_insert_link_one(j: &JsonValue) -> (r: Option<SupportedInsertLink>)
    ensures
        match decode_insert_link(j@) {
            Some(l) => r matches Some(v) && v@ == l,
            None => r is None,
        },
{
    if member_is(j, "ty", "set_id") {
        if !keys3(j, "ty", "to", "id") {
            return None;
        }
        match (get_str(j, "to"), get_int(j, "id")) {
            (Some(to), Some(id)) => Some(SupportedInsertLink::SetId { to, id }),
            _ => None,
        }
    } else if member_is(j, "ty", "set_new") {
        if !keys3(j, "ty", "to", "value") {
            return None;
        }
        match (get_str(j, "to"), member_of(j, "value")) {
            (Some(to), Some(v)) => Some(SupportedInsertLink::SetNew { to, value: clone_json(v) }),
            _ => None,
        }
    } else {
        None
    }
}

/// A change to a link of an updated row: as for an insert, or `set_null`
/// with `to`, or `remove_id` with `to` and `id`.
/// The member `ty` comes first, then the members its kind has, in the
/// order written here, and no others.
pub open spec fn decode_update_link(j: Json) -> Option<UpdateLinkView> {
    match str_member(j, "ty"@) {
        Some(ty) => if ty == "set_id"@ {
            match (str_member(j, "to"@), int_member(j, "id"@)) {
                _ if !has_keys(j, seq!["ty"@, "to"@, "id"@]) => None,
                (Some(to), Some(id)) => Some(UpdateLinkView::SetId(to, id)),
                _ => None,
            }
        } else if ty == "set_new"@ {
            match (str_member(j, "to"@), member(j, "value"@)) {
                _ if !has_keys(j, seq!["ty"@, "to"@, "value"@]) => None,
                (Some(to), Some(v)) => Some(UpdateLinkView::SetNew(to, v)),
                _ => None,
            }
        } else if ty == "set_null"@ {
            match str_member(j, "to"@) {
                _ if !has_keys(j, seq!["ty"@, "to"@]) => None,
                Some(to) => Some(UpdateLinkView::SetNull(to)),
                None => None,
            }
        } else if ty == "remove_id"@ {
            match (str_member(j, "to"@), int_member(j, "id"@)) {
                _ if !has_keys(j, seq!["ty"@, "to"@, "id"@]) => None,
                (Some(to), Some(id)) => Some(UpdateLinkView::RemoveId(to, id)),
                _ => None,
            }
        } else {
            None
        },
        None => None,
    }
}

/// Reads a change to a link of an updated row.
pub fn decode_update_link_one(j: &JsonValue) -> (r: Option<SupportedUpdateLink>)
    ensures
        match decode_update_link(j@) {
            Some(l) => r matches Some(v) && v@ == l,
            None => r is None,
        },
{
    if member_is(j, "ty", "set_id") {
        if !keys3(j, "ty", "to", "id") {
            return None;
        }
        match (get_str(j, "to"), get_int(j, "id")) {
            (Some(to), Some(id)) => Some(SupportedUpdateLink::SetId { to, id }),
            _ => None,
        }
    } else if member_is(j, "ty", "set_new") {
        if !keys3(j, "ty", "to", "value") {
            return None;
        }
        match (get_str(j, "to"), member_of(j, "value")) {
            (Some(to), Some(v)) => Some(SupportedUpdateLink::SetNew { to, value: clone_json(v) }),
            _ => None,
        }
    } else if member_is(j, "ty", "set_null") {
        if !keys2(j, "ty", "to") {
            return None;
        }
        match get_str(j, "to") {
            Some(to) => Some(SupportedUpdateLink::SetNull { to }),
            None => None,
        }
    } else if member_is(j, "ty", "remove_id") {
        if !keys3(j, "ty", "to", "id") {
            return None;
        }
        match (get_str(j, "to"), get_int(j, "id")) {
            (Some(to), Some(id)) => Some(SupportedUpdateLink::RemoveId { to, id }),
            _ => None,
        }
    } else {
        None
    }
}

/// A link a read follows: `optional_to_many` or `many_to_many` with `to`,
/// or `timestamp`.
/// The member `ty` comes first, then the members its kind has, in the
/// order written here, and no others.
pub open spec fn decode_fetch_link(j: Json) -> Option<FetchLinkInputView> {
    match str_member(j, "ty"@) {
        Some(ty) => if ty == "optional_to_many"@ {
            match str_member(j, "to"@) {
                _ if !has_keys(j, seq!["ty"@, "to"@]) => None,
                Some(to) => Some(FetchLinkInputView::OptionalToMany(to)),
                None => None,
            }
        } else if ty == "many_to_many"@ {
            match str_member(j, "to"@) {
                _ if !has_keys(j, seq!["ty"@, "to"@]) => None,
                Some(to) => Some(FetchLinkInputView::ManyToMany(to)),
                None => None,
            }
        } else if ty == "timestamp"@ {
            if has_keys(j, seq!["ty"@]) {
                Some(FetchLinkInputView::Timestamp)
            } else {
                None
            }
        } else {
            None
        },
        None => None,
    }
}

/// Reads a link a read follows.
pub fn decode_fetch_link_one(j: &JsonValue) -> (r: Option<SupportedLinkFetchOne>)
    ensures
        match decode_fetch_link(j@) {
            Some(l) => r matches Some(v) && v@ == l,
            None => r is None,
        },
{
    if member_is(j, "ty", "optional_to_many") {
        if !keys2(j, "ty", "to") {
            return None;
        }
        match get_str(j, "to") {
            Some(to) => Some(SupportedLinkFetchOne::OptionalToMany { to }),
            None => None,
        }
    } else if member_is(j, "ty", "many_to_many") {
        if !keys2(j, "ty", "to") {
            return None;
        }
        match get_str(j, "to") {
            Some(to) => Some(SupportedLinkFetchOne::ManyToMany { to }),
            None => None,
        }
    } else if member_is(j, "ty", "timestamp") {
        if keys1(j, "ty") {
            Some(SupportedLinkFetchOne::Timestamp)
        } else {
            None
        }
    } else {
        None
    }
}

/// A link whose rows a delete reports: `optional_to_many` or
/// `many_to_many` with `to`.
/// The member `ty` comes first, then the members its kind has, in the
/// order written here, and no others.
pub open spec fn decode_delete_link(j: Json) -> Option<DeleteLinkView> {
    match str_member(j, "ty"@) {
        Some(ty) => if ty == "optional_to_many"@ {
            match str_member(j, "to"@) {
                _ if !has_keys(j, seq!["ty"@, "to"@]) => None,
                Some(to) => Some(DeleteLinkView::OptionalToMany(to)),
                None => None,
            }
        } else if ty == "many_to_many"@ {
            match str_member(j, "to"@) {
                _ if !has_keys(j, seq!["ty"@, "to"@]) => None,
                Some(to) => Some(DeleteLinkView::ManyToMany(to)),
                None => None,
            }
        } else {
            None
        },
        None => None,
    }
}

/// Reads a link whose rows a delete reports.
pub fn decode_delete_link_one(j: &JsonValue) -> (r: Option<SupportedDeleteLink>)
    ensures
        match decode_delete_link(j@) {
            Some(l) => r matches Some(v) && v@ == l,
            None => r is None,
        },
{
    if member_is(j, "ty", "optional_to_many") {
        if !keys2(j, "ty", "to") {
            return None;
        }
        match get_str(j, "to") {
            Some(to) => Some(SupportedDeleteLink::OptionalToMany { to }),
            None => None,
        }
    } else if member_is(j, "ty", "many_to_many") {
        if !keys2(j, "ty", "to") {
            return None;
        }
        match get_str(j, "to") {
            Some(to) => Some(SupportedDeleteLink::ManyToMany { to }),
            None => None,
        }
    } else {
        None
    }
}

/// Reads a list of links of an inserted row.
pub fn decode_insert_links(items: &Vec<JsonValue>) -> (r: Option<Vec<SupportedInsertLink>>)
    ensures
        r is Some <==> forall|i: int| 0 <= i < items@.len() ==> decode_insert_link(#[trigger] crate::statements::json_seq(items@)[i]) is Some,
        r matches Some(v) ==> insert_links_view(v@) == crate::statements::json_seq(items@).map_values(|j: Json| decode_insert_link(j).unwrap()),
{
    let ghost iv = crate::statements::json_seq(items@);
    let mut v: Vec<SupportedInsertLink> = Vec::new();
    let mut i: usize = 0;
    while i < items.len()
        invariant
            i <= items@.len(),
            iv == crate::statements::json_seq(items@),
            forall|k: int| 0 <= k < i ==> decode_insert_link(#[trigger] iv[k]) is Some,
            insert_links_view(v@) == iv.take(i as int).map_values(|j: Json| decode_insert_link(j).unwrap()),
        decreases items@.len() - i,
    {
        let ghost before = insert_links_view(v@);
        match decode_insert_link_one(&items[i]) {
            Some(x) => {
                v.push(x);
                proof {
                    assert(insert_links_view(v@) =~= before.push(decode_insert_link(items@[i as int]@).unwrap()));
                    assert(iv.take(i + 1).map_values(|j: Json| decode_insert_link(j).unwrap()) =~= iv.take(i as int).map_values(
                        |j: Json| decode_insert_link(j).unwrap(),
                    ).push(decode_insert_link(items@[i as int]@).unwrap()));
                }
            },
            None => {
                proof {
                    assert(iv[i as int] == items@[i as int]@);
                    assert(decode_insert_link(iv[i as int]) is None);
                }
                return None;
            },
        }
        i = i + 1;
    }
    proof {
        assert(iv.take(items@.len() as int) =~= iv);
    }
    Some(v)
}

/// Reads a list of changes to links of an updated row.
pub fn decode_update_links(items: &Vec<JsonValue>) -> (r: Option<Vec<SupportedUpdateLink>>)
    ensures
        r is Some <==> forall|i: int| 0 <= i < items@.len() ==> decode_update_link(#[trigger] crate::statements::json_seq(items@)[i]) is Some,
        r matches Some(v) ==> update_links_view(v@) == crate::statements::json_seq(items@).map_values(|j: Json| decode_update_link(j).unwrap()),
{
    let ghost iv = crate::statements::json_seq(items@);
    let mut v: Vec<SupportedUpdateLink> = Vec::new();
    let mut i: usize = 0;
    while i < items.len()
        invariant
            i <= items@.len(),
            iv == crate::statements::json_seq(items@),
            forall|k: int| 0 <= k < i ==> decode_update_link(#[trigger] iv[k]) is Some,
            update_links_view(v@) == iv.take(i as int).map_values(|j: Json| decode_update_link(j).unwrap()),
        decreases items@.len() - i,
    {
        let ghost before = update_links_view(v@);
        match decode_update_link_one(&items[i]) {
            Some(x) => {
                v.push(x);
                proof {
                    assert(update_links_view(v@) =~= before.push(decode_update_link(items@[i as int]@).unwrap()));
                    assert(iv.take(i + 1).map_values(|j: Json| decode_update_link(j).unwrap()) =~= iv.take(i as int).map_values(
                        |j: Json| decode_update_link(j).unwrap(),
                    ).push(decode_update_link(items@[i as int]@).unwrap()));
                }
            },
            None => {
                proof {
                    assert(iv[i as int] == items@[i as int]@);
                    assert(decode_update_link(iv[i as int]) is None);
                }
                return None;
            },
        }
        i = i + 1;
    }
    proof {
        assert(iv.take(items@.len() as int) =~= iv);
    }
    Some(v)
}

/// Reads a list of links a read follows.
pub fn decode_fetch_links(items: &Vec<JsonValue>) -> (r: Option<Vec<SupportedLinkFetchOne>>)
    ensures
        r is Some <==> forall|i: int| 0 <= i < items@.len() ==> decode_fetch_link(#[trigger] crate::statements::json_seq(items@)[i]) is Some,
        r matches Some(v) ==> fetch_links_input_view(v@) == crate::statements::json_seq(items@).map_values(|j: Json| decode_fetch_link(j).unwrap()),
{
    let ghost iv = crate::statements::json_seq(items@);
    let mut v: Vec<SupportedLinkFetchOne> = Vec::new();
    let mut i: usize = 0;
    while i < items.len()
        invariant
            i <= items@.len(),
            iv == crate::statements::json_seq(items@),
            forall|k: int| 0 <= k < i ==> decode_fetch_link(#[trigger] iv[k]) is Some,
            fetch_links_input_view(v@) == iv.take(i as int).map_values(|j: Json| decode_fetch_link(j).unwrap()),
        decreases items@.len() - i,
    {
        let ghost before = fetch_links_input_view(v@);
        match decode_fetch_link_one(&items[i]) {
            Some(x) => {
                v.push(x);
                proof {
                    assert(fetch_links_input_view(v@) =~= before.push(decode_fetch_link(items@[i as int]@).unwrap()));
                    assert(iv.take(i + 1).map_values(|j: Json| decode_fetch_link(j).unwrap()) =~= iv.take(i as int).map_values(
                        |j: Json| decode_fetch_link(j).unwrap(),
                    ).push(decode_fetch_link(items@[i as int]@).unwrap()));
                }
            },
            None => {
                proof {
                    assert(iv[i as int] == items@[i as int]@);
                    assert(decode_fetch_link(iv[i as int]) is None);
                }
                return None;
            },
        }
        i = i + 1;
    }
    proof {
        assert(iv.take(items@.len() as int) =~= iv);
    }
    Some(v)
}

/// Reads a list of links whose rows a delete reports.
pub fn decode_delete_links(items: &Vec<JsonValue>) -> (r: Option<Vec<SupportedDeleteLink>>)
    ensures
        r is Some <==> forall|i: int| 0 <= i < items@.len() ==> decode_delete_link(#[trigger] crate::statements::json_seq(items@)[i]) is Some,
        r matches Some(v) ==> delete_links_view(v@) == crate::statements::json_seq(items@).map_values(|j: Json| decode_delete_link(j).unwrap()),
{
    let ghost iv = crate::statements::json_seq(items@);
    let mut v: Vec<SupportedDeleteLink> = Vec::new();
    let mut i: usize = 0;
    while i < items.len()
        invariant
            i <= items@.len(),
            iv == crate::statements::json_seq(items@),
            forall|k: int| 0 <= k < i ==> decode_delete_link(#[trigger] iv[k]) is Some,
            delete_links_view(v@) == iv.take(i as int).map_values(|j: Json| decode_delete_link(j).unwrap()),
        decreases items@.len() - i,
    {
        let ghost before = delete_links_view(v@);
        match decode_delete_link_one(&items[i]) {
            Some(x) => {
                v.push(x);
                proof {
                    assert(delete_links_view(v@) =~= before.push(decode_delete_link(items@[i as int]@).unwrap()));
                    assert(iv.take(i + 1).map_values(|j: Json| decode_delete_link(j).unwrap()) =~= iv.take(i as int).map_values(
                        |j: Json| decode_delete_link(j).unwrap(),
                    ).push(decode_delete_link(items@[i as int]@).unwrap()));
                }
            },
            None => {
                proof {
                    assert(iv[i as int] == items@[i as int]@);
                    assert(decode_delete_link(iv[i as int]) is None);
                }
                return None;
            },
        }
        i = i + 1;
    }
    proof {
        assert(iv.take(items@.len() as int) =~= iv);
    }
    Some(v)
}

/// The comparison a filter's `ty` names, with the member holding its value.
pub open spec fn compare_kind(ty: Seq<char>) -> Option<(CompareOp, Seq<char>)> {
    if ty == "col_eq"@ {
        Some((CompareOp::Eq, "eq"@))
    } else if ty == "col_ne"@ {
        Some((CompareOp::Ne, "ne"@))
    } else if ty == "col_gt"@ {
        Some((CompareOp::Gt, "gt"@))
    } else if ty == "col_gte"@ {
        Some((CompareOp::Gte, "gte"@))
    } else if ty == "col_lt"@ {
        Some((CompareOp::Lt, "lt"@))
    } else if ty == "col_lte"@ {
        Some((CompareOp::Lte, "lte"@))
    } else {
        None
    }
}

/// A filter: a comparison of `col` with a value, `col_contains` with
/// `value`, a null test of `col`, or `and` / `or` of inner `filters`; a
/// `group` of inner filters holds where all of them hold, as `and`.
/// The member `ty` comes first, then the members its kind has, in the
/// order written here, and no others.
pub open spec fn decode_filter(j: Json) -> Option<FilterView>
    decreases j, 1nat,
{
    match str_member(j, "ty"@) {
        Some(ty) => match compare_kind(ty) {
            Some((op, key)) => match (str_member(j, "col"@), member(j, key)) {
                _ if !has_keys(j, seq!["ty"@, "col"@, key]) => None,
                (Some(col), Some(v)) => Some(FilterView::Compare(op, col, v)),
                _ => None,
            },
            None => if ty == "col_contains"@ {
                match (str_member(j, "col"@), member(j, "value"@)) {
                    _ if !has_keys(j, seq!["ty"@, "col"@, "value"@]) => None,
                    (Some(col), Some(v)) => Some(FilterView::Contains(col, v)),
                    _ => None,
                }
            } else if ty == "col_is_null"@ {
                match str_member(j, "col"@) {
                    _ if !has_keys(j, seq!["ty"@, "col"@]) => None,
                    Some(col) => Some(FilterView::IsNull(col)),
                    None => None,
                }
            } else if ty == "col_is_not_null"@ {
                match str_member(j, "col"@) {
                    _ if !has_keys(j, seq!["ty"@, "col"@]) => None,
                    Some(col) => Some(FilterView::IsNotNull(col)),
                    None => None,
                }
            } else if ty == "and"@ || ty == "group"@ || ty == "or"@ {
                match j {
                    _ if !has_keys(j, seq!["ty"@, "filters"@]) => None,
                    Json::Object(es) => match lookup_key(es, "filters"@) {
                        Some(Json::Array(items)) => {
                            proof {
                                lemma_lookup_decreases(es, "filters"@);
                                let a = lookup_key(es, "filters"@).unwrap();
                                assert(decreases_to!(a => a->Array_0));
                            }
                            match decode_filters(items) {
                                Some(fs) => if ty == "or"@ {
                                    Some(FilterView::Or(fs))
                                } else {
                                    Some(FilterView::And(fs))
                                },
                                None => None,
                            }
                        },
                        _ => None,
                    },
                    _ => None,
                }
            } else {
                None
            },
        },
        None => None,
    }
}

/// Every filter of a list decoded, or nothing.
pub open spec fn decode_filters(items: Seq<Json>) -> Option<Seq<FilterView>>
    decreases items, 0nat,
{
    if items.len() == 0 {
        Some(Seq::empty())
    } else {
        match (decode_filters(items.subrange(0, items.len() - 1)), decode_filter(items[items.len() - 1])) {
            (Some(fs), Some(f)) => Some(fs.push(f)),
            _ => None,
        }
    }
}

/// Once some filter of a list does not decode, the list does not.
proof fn lemma_decode_filters_prefix(items: Seq<Json>, i: int)
    requires
        0 <= i <= items.len(),
        decode_filters(items.subrange(0, i)) is None,
    ensures
        decode_filters(items) is None,
    decreases items.len() - i,
{
    if i < items.len() {
        assert(items.subrange(0, i + 1).subrange(0, i) =~= items.subrange(0, i));
        lemma_decode_filters_prefix(items, i + 1);
    } else {
        assert(items.subrange(0, i) =~= items);
    }
}

/// The comparison a filter's `ty` names.
fn compare_kind_of(j: &JsonValue) -> (r: Option<(CompareOp, &'static str)>)
    ensures
        match str_member(j@, "ty"@) {
            Some(ty) => match compare_kind(ty) {
                Some(k) => r matches Some(v) && v.0 == k.0 && v.1@ == k.1,
                None => r is None,
            },
            None => r is None,
        },
{
    if member_is(j, "ty", "col_eq") {
        Some((CompareOp::Eq, "eq"))
    } else if member_is(j, "ty", "col_ne") {
        Some((CompareOp::Ne, "ne"))
    } else if member_is(j, "ty", "col_gt") {
        Some((CompareOp::Gt, "gt"))
    } else if member_is(j, "ty", "col_gte") {
        Some((CompareOp::Gte, "gte"))
    } else if member_is(j, "ty", "col_lt") {
        Some((CompareOp::Lt, "lt"))
    } else if member_is(j, "ty", "col_lte") {
        Some((CompareOp::Lte, "lte"))
    } else {
        None
    }
}

/// The filter comparing `col` with `v` by `op`.
fn compare_filter(op: CompareOp, col: Vec<char>, v: JsonValue) -> (r: SupportedFilter)
    ensures
        r@ == FilterView::Compare(op, col@, v@),
{
    match op {
        CompareOp::Eq => SupportedFilter::ColEq { col, eq: v },
        CompareOp::Ne => SupportedFilter::ColNe { col, ne: v },
        CompareOp::Gt => SupportedFilter::ColGt { col, gt: v },
        CompareOp::Gte => SupportedFilter::ColGte { col, gte: v },
        CompareOp::Lt => SupportedFilter::ColLt { col, lt: v },
        CompareOp::Lte => SupportedFilter::ColLte { col, lte: v },
    }
}

/// The characters of member `key`, where it is a string.
fn get_chars(j: &JsonValue, key: &str) -> (r: Option<Vec<char>>)
    ensures
        match str_member(j@, key@) {
            Some(s) => r matches Some(v) && v@ == s,
            None => r is None,
        },
{
    match member_of(j, key) {
        Some(JsonValue::Str(s)) => Some(copy_chars(s)),
        _ => None,
    }
}

/// Reads a filter.
pub fn decode_filter_one(j: &JsonValue) -> (r: Option<SupportedFilter>)
    ensures
        match decode_filter(j@) {
            Some(f) => r matches Some(v) && v@ == f,
            None => r is None,
        },
    decreases j,
{
    match compare_kind_of(j) {
        Some((op, key)) => {
            if !keys3(j, "ty", "col", key) {
                return None;
            }
            return match (get_chars(j, "col"), member_of(j, key)) {
                (Some(col), Some(v)) => Some(compare_filter(op, col, clone_json(v))),
                _ => None,
            };
        },
        None => {},
    }
    if member_is(j, "ty", "col_contains") {
        if !keys3(j, "ty", "col", "value") {
            return None;
        }
        match (get_chars(j, "col"), member_of(j, "value")) {
            (Some(col), Some(v)) => Some(SupportedFilter::ColContains { col, value: clone_json(v) }),
            _ => None,
        }
    } else if member_is(j, "ty", "col_is_null") {
        if !keys2(j, "ty", "col") {
            return None;
        }
        match get_chars(j, "col") {
            Some(col) => Some(SupportedFilter::ColIsNull { col }),
            None => None,
        }
    } else if member_is(j, "ty", "col_is_not_null") {
        if !keys2(j, "ty", "col") {
            return None;
        }
        match get_chars(j, "col") {
            Some(col) => Some(SupportedFilter::ColIsNotNull { col }),
            None => None,
        }
    } else if member_is(j, "ty", "and") || member_is(j, "ty", "group") || member_is(j, "ty", "or") {
        if !keys2(j, "ty", "filters") {
            return None;
        }
        let is_and = !member_is(j, "ty", "or");
        let es = match j {
            JsonValue::Object(es) => es,
            _ => return None,
        };
        proof {
            crate::values::lemma_object_view(*es);
        }
        let k = match member_index(es, "filters") {
            Some(k) => k,
            None => return None,
        };
        let items = match &es[k].1 {
            JsonValue::Array(items) => items,
            _ => return None,
        };
        proof {
            crate::values::lemma_array_view(*items);
        }
        let ghost iv = crate::statements::json_seq(items@);
        let mut fs: Vec<SupportedFilter> = Vec::new();
        let mut i: usize = 0;
        proof {
            assert(iv.subrange(0, 0) =~= Seq::<Json>::empty());
            assert(filters_view(fs@) =~= Seq::<FilterView>::empty());
            assert(lookup_key(entries_view(es@), "filters"@) == Some(Json::Array(iv)));
            let ty = str_member(j@, "ty"@)->Some_0;
            assert(compare_kind(ty) is None);
            assert(ty != "col_contains"@ && ty != "col_is_null"@ && ty != "col_is_not_null"@);
            assert(is_and == (ty != "or"@));
            assert(decode_filter(j@) == match decode_filters(iv) {
                Some(x) => Some(if is_and { FilterView::And(x) } else { FilterView::Or(x) }),
                None => None,
            });
        }
        while i < items.len()
            invariant
                i <= items@.len(),
                iv == crate::statements::json_seq(items@),
                *j == JsonValue::Object(*es),
                k < es@.len(),
                es@[k as int].1 == JsonValue::Array(*items),
                decode_filters(iv.subrange(0, i as int)) == Some(filters_view(fs@)),
                decode_filter(j@) == match decode_filters(iv) {
                    Some(x) => Some(if is_and { FilterView::And(x) } else { FilterView::Or(x) }),
                    None => None,
                },
            decreases items@.len() - i,
        {
            proof {
                assert(decreases_to!(*j => (*j)->Object_0));
                assert(decreases_to!(*es => es@));
                assert(decreases_to!(es@ => es@[k as int]));
                assert(decreases_to!(es@[k as int] => es@[k as int].1));
                assert(decreases_to!(es@[k as int].1 => (es@[k as int].1)->Array_0));
                assert(decreases_to!(*items => items@));
                assert(decreases_to!(items@ => items@[i as int]));
                assert(iv.subrange(0, i + 1).subrange(0, i as int) =~= iv.subrange(0, i as int));
                assert(iv.subrange(0, i + 1)[i as int] == items@[i as int]@);
            }
            let ghost before = filters_view(fs@);
            match decode_filter_one(&items[i]) {
                Some(f) => {
                    fs.push(f);
                    proof {
                        assert(filters_view(fs@) =~= before.push(fs@.last()@));
                    }
                },
                None => {
                    proof {
                        lemma_decode_filters_prefix(iv, i + 1);
                    }
                    return None;
                },
            }
            i = i + 1;
        }
        proof {
            assert(iv.subrange(0, items@.len() as int) =~= iv);
            assert(SupportedFilter::And { filters: fs }@ == FilterView::And(filters_view(fs@))) by {
                assert(SupportedFilter::And { filters: fs }@->And_0 =~= filters_view(fs@));
            }
            assert(SupportedFilter::Or { filters: fs }@ == FilterView::Or(filters_view(fs@))) by {
                assert(SupportedFilter::Or { filters: fs }@->Or_0 =~= filters_view(fs@));
            }
        }
        if is_and {
            Some(SupportedFilter::And { filters: fs })
        } else {
            Some(SupportedFilter::Or { filters: fs })
        }
    } else {
        None
    }
}

/// Reads a list of filters.
pub fn decode_filter_list(items: &Vec<JsonValue>) -> (r: Option<Vec<SupportedFilter>>)
    ensures
        match decode_filters(crate::statements::json_seq(items@)) {
            Some(fs) => r matches Some(v) && filters_view(v@) == fs,
            None => r is None,
        },
{
    let ghost iv = crate::statements::json_seq(items@);
    let mut fs: Vec<SupportedFilter> = Vec::new();
    let mut i: usize = 0;
    proof {
        assert(iv.subrange(0, 0) =~= Seq::<Json>::empty());
        assert(filters_view(fs@) =~= Seq::<FilterView>::empty());
    }
    while i < items.len()
        invariant
            i <= items@.len(),
            iv == crate::statements::json_seq(items@),
            decode_filters(iv.subrange(0, i as int)) == Some(filters_view(fs@)),
        decreases items@.len() - i,
    {
        proof {
            assert(iv.subrange(0, i + 1).subrange(0, i as int) =~= iv.subrange(0, i as int));
            assert(iv.subrange(0, i + 1)[i as int] == items@[i as int]@);
        }
        let ghost before = filters_view(fs@);
        match decode_filter_one(&items[i]) {
            Some(f) => {
                fs.push(f);
                proof {
                    assert(filters_view(fs@) =~= before.push(fs@.last()@));
                }
            },
            None => {
                proof {
                    lemma_decode_filters_prefix(iv, i + 1);
                }
                return None;
            },
        }
        i = i + 1;
    }
    proof {
        assert(iv.subrange(0, items@.len() as int) =~= iv);
    }
    Some(fs)
}

/// The links of a list, each decoded by `f`, or nothing where one does not
/// decode.
pub open spec fn all_insert_links(items: Seq<Json>) -> Option<Seq<InsertLinkView>> {
    if forall|i: int| 0 <= i < items.len() ==> decode_insert_link(#[trigger] items[i]) is Some {
        Some(items.map_values(|j: Json| decode_insert_link(j).unwrap()))
    } else {
        None
    }
}

/// An insert request: the members `base`, `data` and `links`, in this
/// order and no others.
pub open spec fn decode_insert_one(j: Json) -> Option<(Seq<char>, Json, Seq<InsertLinkView>)> {
    match (str_member(j, "base"@), member(j, "data"@), array_member(j, "links"@)) {
        _ if !has_keys(j, seq!["base"@, "data"@, "links"@]) => None,
        (Some(base), Some(data), Some(ls)) => match all_insert_links(ls) {
            Some(links) => Some((base, data, links)),
            None => None,
        },
        _ => None,
    }
}

/// Reads an insert request.
pub fn decode_insert_one_input(j: &JsonValue) -> (r: Option<crate::insert::InsertOneInput>)
    ensures
        match decode_insert_one(j@) {
            Some(x) => r matches Some(v) && (v.base@, v.data@, insert_links_view(v.links@)) == x,
            None => r is None,
        },
{
    if !keys3(j, "base", "data", "links") {
        return None;
    }
    let base = match get_str(j, "base") {
        Some(b) => b,
        None => return None,
    };
    let data = match member_of(j, "data") {
        Some(d) => clone_json(d),
        None => return None,
    };
    let ls = match get_array(j, "links") {
        Some(ls) => ls,
        None => return None,
    };
    match decode_insert_links(ls) {
        Some(links) => Some(crate::insert::InsertOneInput { base, data, links }),
        None => None,
    }
}

/// An item of a request to insert several rows: the members `data` and
/// `links`, in this order and no others.
pub open spec fn decode_insert_item(j: Json) -> Option<(Json, Seq<InsertLinkView>)> {
    match (member(j, "data"@), array_member(j, "links"@)) {
        _ if !has_keys(j, seq!["data"@, "links"@]) => None,
        (Some(data), Some(ls)) => match all_insert_links(ls) {
            Some(links) => Some((data, links)),
            None => None,
        },
        _ => None,
    }
}

/// A request to insert several rows: the members `base` and `items`, in
/// this order and no others.
pub open spec fn decode_insert_many(j: Json) -> Option<(Seq<char>, Seq<(Json, Seq<InsertLinkView>)>)> {
    match (str_member(j, "base"@), array_member(j, "items"@)) {
        _ if !has_keys(j, seq!["base"@, "items"@]) => None,
        (Some(base), Some(items)) => if forall|i: int| 0 <= i < items.len() ==> decode_insert_item(#[trigger] items[i]) is Some {
            Some((base, items.map_values(|x: Json| decode_insert_item(x).unwrap())))
        } else {
            None
        },
        _ => None,
    }
}

/// Reads a request to insert several rows.
pub fn decode_insert_many_input(j: &JsonValue) -> (r: Option<crate::insert::InsertManyInput>)
    ensures
        match decode_insert_many(j@) {
            Some(x) => r matches Some(v) && (v.base@, crate::insert::items_view(v.items@)) == x,
            None => r is None,
        },
{
    if !keys2(j, "base", "items") {
        return None;
    }
    let base = match get_str(j, "base") {
        Some(b) => b,
        None => return None,
    };
    let items = match get_array(j, "items") {
        Some(items) => items,
        None => return None,
    };
    let ghost iv = crate::statements::json_seq(items@);
    let mut out: Vec<crate::insert::InsertManyItem> = Vec::new();
    let mut i: usize = 0;
    while i < items.len()
        invariant
            i <= items@.len(),
            iv == crate::statements::json_seq(items@),
            array_member(j@, "items"@) == Some(iv),
            forall|k: int| 0 <= k < i ==> decode_insert_item(#[trigger] iv[k]) is Some,
            crate::insert::items_view(out@) == iv.take(i as int).map_values(|x: Json| decode_insert_item(x).unwrap()),
        decreases items@.len() - i,
    {
        let it = &items[i];
        if !keys2(it, "data", "links") {
            return None;
        }
        let data = match member_of(it, "data") {
            Some(d) => clone_json(d),
            None => return None,
        };
        let ls = match get_array(it, "links") {
            Some(ls) => ls,
            None => return None,
        };
        let links = match decode_insert_links(ls) {
            Some(l) => l,
            None => return None,
        };
        let ghost before = crate::insert::items_view(out@);
        out.push(crate::insert::InsertManyItem { data, links });
        proof {
            assert(crate::insert::items_view(out@) =~= before.push(decode_insert_item(iv[i as int]).unwrap()));
            assert(iv.take(i + 1).map_values(|x: Json| decode_insert_item(x).unwrap()) =~= iv.take(i as int).map_values(
                |x: Json| decode_insert_item(x).unwrap(),
            ).push(decode_insert_item(iv[i as int]).unwrap()));
        }
        i = i + 1;
    }
    proof {
        assert(iv.take(items@.len() as int) =~= iv);
    }
    Some(crate::insert::InsertManyInput { base, items: out })
}

/// The changes of a list, or nothing where one does not decode.
pub open spec fn all_update_links(items: Seq<Json>) -> Option<Seq<UpdateLinkView>> {
    if forall|i: int| 0 <= i < items.len() ==> decode_update_link(#[trigger] items[i]) is Some {
        Some(items.map_values(|j: Json| decode_update_link(j).unwrap()))
    } else {
        None
    }
}

/// An update request: the members `base`, `id`, `data` and `links`, in
/// this order and no others.
pub open spec fn decode_update_one(j: Json) -> Option<(Seq<char>, int, Json, Seq<UpdateLinkView>)> {
    match (str_member(j, "base"@), int_member(j, "id"@), member(j, "data"@), array_member(j, "links"@)) {
        _ if !has_keys(j, seq!["base"@, "id"@, "data"@, "links"@]) => None,
        (Some(base), Some(id), Some(data), Some(ls)) => match all_update_links(ls) {
            Some(links) => Some((base, id, data, links)),
            None => None,
        },
        _ => None,
    }
}

/// Reads an update request.
pub fn decode_update_one_input(j: &JsonValue) -> (r: Option<crate::update::UpdateOneInput>)
    ensures
        match decode_update_one(j@) {
            Some(x) => r matches Some(v) && (v.base@, v.id as int, v.data@, update_links_view(v.links@)) == x,
            None => r is None,
        },
{
    let base = match get_str(j, "base") {
        Some(b) => b,
        None => return None,
    };
    let id = match get_int(j, "id") {
        Some(i) => i,
        None => return None,
    };
    if !keys4(j, "base", "id", "data", "links") {
        return None;
    }
    let data = match member_of(j, "data") {
        Some(d) => clone_json(d),
        None => return None,
    };
    let ls = match get_array(j, "links") {
        Some(ls) => ls,
        None => return None,
    };
    match decode_update_links(ls) {
        Some(links) => Some(crate::update::UpdateOneInput { base, id, data, links }),
        None => None,
    }
}

/// The delete links of a list, or nothing where one does not decode.
pub open spec fn all_delete_links(items: Seq<Json>) -> Option<Seq<DeleteLinkView>> {
    if forall|i: int| 0 <= i < items.len() ==> decode_delete_link(#[trigger] items[i]) is Some {
        Some(items.map_values(|j: Json| decode_delete_link(j).unwrap()))
    } else {
        None
    }
}

/// A delete request: the members `base`, `id` and `links`, in this order
/// and no others.
pub open spec fn decode_delete_one(j: Json) -> Option<(Seq<char>, int, Seq<DeleteLinkView>)> {
    match (str_member(j, "base"@), int_member(j, "id"@), array_member(j, "links"@)) {
        _ if !has_keys(j, seq!["base"@, "id"@, "links"@]) => None,
        (Some(base), Some(id), Some(ls)) => match all_delete_links(ls) {
            Some(links) => Some((base, id, links)),
            None => None,
        },
        _ => None,
    }
}

/// Reads a delete request.
pub fn decode_delete_one_input(j: &JsonValue) -> (r: Option<crate::delete::DeleteOneInput>)
    ensures
        match decode_delete_one(j@) {
            Some(x) => r matches Some(v) && (v.base@, v.id as int, delete_links_view(v.links@)) == x,
            None => r is None,
        },
{
    let base = match get_str(j, "base") {
        Some(b) => b,
        None => return None,
    };
    let id = match get_int(j, "id") {
        Some(i) => i,
        None => return None,
    };
    let ls = match get_array(j, "links") {
        Some(ls) => ls,
        None => return None,
    };
    if !keys3(j, "base", "id", "links") {
        return None;
    }
    match decode_delete_links(ls) {
        Some(links) => Some(crate::delete::DeleteOneInput { base, id, links }),
        None => None,
    }
}

/// The fetch links of a list, or nothing where one does not decode.
pub open spec fn all_fetch_links(items: Seq<Json>) -> Option<Seq<FetchLinkInputView>> {
    if forall|i: int| 0 <= i < items.len() ==> decode_fetch_link(#[trigger] items[i]) is Some {
        Some(items.map_values(|j: Json| decode_fetch_link(j).unwrap()))
    } else {
        None
    }
}

/// A request to read one row: the members `base`, `id`, `filters` and
/// `links`, in this order and no others.
pub open spec fn decode_fetch_one(j: Json) -> Option<(Seq<char>, int, Seq<FilterView>, Seq<FetchLinkInputView>)> {
    match (str_member(j, "base"@), int_member(j, "id"@), array_member(j, "filters"@), array_member(j, "links"@)) {
        _ if !has_keys(j, seq!["base"@, "id"@, "filters"@, "links"@]) => None,
        (Some(base), Some(id), Some(fs), Some(ls)) => match (decode_filters(fs), all_fetch_links(ls)) {
            (Some(filters), Some(links)) => Some((base, id, filters, links)),
            _ => None,
        },
        _ => None,
    }
}

/// Reads a request to read one row.
pub fn decode_fetch_one_input(j: &JsonValue) -> (r: Option<crate::fetch::FetchOneInput>)
    ensures
        match decode_fetch_one(j@) {
            Some(x) => r matches Some(v) && (v.base@, v.id as int, filters_view(v.filters@), fetch_links_input_view(v.links@)) == x,
            None => r is None,
        },
{
    let base = match get_str(j, "base") {
        Some(b) => b,
        None => return None,
    };
    let id = match get_int(j, "id") {
        Some(i) => i,
        None => return None,
    };
    let fs = match get_array(j, "filters") {
        Some(fs) => fs,
        None => return None,
    };
    let ls = match get_array(j, "links") {
        Some(ls) => ls,
        None => return None,
    };
    if !keys4(j, "base", "id", "filters", "links") {
        return None;
    }
    let filters = match decode_filter_list(fs) {
        Some(f) => f,
        None => return None,
    };
    match decode_fetch_links(ls) {
        Some(links) => Some(crate::fetch::FetchOneInput { base, id, filters, links }),
        None => None,
    }
}

/// A column to order by: the members `col` and `direction` (`asc` or
/// `desc`), in this order and no others.
pub open spec fn decode_order(j: Json) -> Option<(Seq<char>, crate::fetch_many::Direction)> {
    match (str_member(j, "col"@), str_member(j, "direction"@)) {
        _ if !has_keys(j, seq!["col"@, "direction"@]) => None,
        (Some(col), Some(d)) => if d == "asc"@ {
            Some((col, crate::fetch_many::Direction::Asc))
        } else if d == "desc"@ {
            Some((col, crate::fetch_many::Direction::Desc))
        } else {
            None
        },
        _ => None,
    }
}

/// The first item of a page: `null`, or the members `id` and `data` (an
/// object), in this order and no others.
pub open spec fn decode_first_item(j: Json) -> Option<Option<(int, Seq<(Seq<char>, Json)>)>> {
    match j {
        Json::Null => Some(None),
        _ => match (int_member(j, "id"@), member(j, "data"@)) {
            _ if !has_keys(j, seq!["id"@, "data"@]) => None,
            (Some(id), Some(Json::Object(es))) => Some(Some((id, es))),
            _ => None,
        },
    }
}

/// Pagination: the members `limit`, `first_item` and `order_by`, in this
/// order and no others.
pub open spec fn decode_pagination(j: Json) -> Option<(int, Option<(int, Seq<(Seq<char>, Json)>)>, Seq<(Seq<char>, crate::fetch_many::Direction)>)> {
    match (int_member(j, "limit"@), member(j, "first_item"@), array_member(j, "order_by"@)) {
        _ if !has_keys(j, seq!["limit"@, "first_item"@, "order_by"@]) => None,
        (Some(limit), Some(fi), Some(os)) => match decode_first_item(fi) {
            Some(first) => if forall|i: int| 0 <= i < os.len() ==> decode_order(#[trigger] os[i]) is Some {
                Some((limit, first, os.map_values(|o: Json| decode_order(o).unwrap())))
            } else {
                None
            },
            None => None,
        },
        _ => None,
    }
}

/// A pagination by its plain parts.
pub open spec fn pagination_view(p: crate::fetch_many::Pagination) -> (int, Option<(int, Seq<(Seq<char>, Json)>)>, Seq<(Seq<char>, crate::fetch_many::Direction)>) {
    (
        p.limit as int,
        match p.first_item {
            Some(fi) => Some((fi.id as int, entries_view(fi.data@))),
            None => None,
        },
        p.order_by@.map_values(|o: crate::fetch_many::OrderBy| (o.col@, o.direction)),
    )
}

/// Reads a pagination.
pub fn decode_pagination_input(j: &JsonValue) -> (r: Option<crate::fetch_many::Pagination>)
    ensures
        match decode_pagination(j@) {
            Some(x) => r matches Some(v) && pagination_view(v) == x,
            None => r is None,
        },
{
    if !keys3(j, "limit", "first_item", "order_by") {
        return None;
    }
    let limit = match get_int(j, "limit") {
        Some(l) => l,
        None => return None,
    };
    let fi = match member_of(j, "first_item") {
        Some(fi) => fi,
        None => return None,
    };
    let first_item = match fi {
        JsonValue::Null => None,
        _ => {
            if !keys2(fi, "id", "data") {
                return None;
            }
            let id = match get_int(fi, "id") {
                Some(id) => id,
                None => return None,
            };
            match member_of(fi, "data") {
                Some(JsonValue::Object(es)) => {
                    let data = crate::values::copy_entries(es);
                    proof {
                        crate::values::lemma_object_view(*es);
                    }
                    Some(crate::fetch_many::FirstItem { id, data })
                },
                _ => return None,
            }
        },
    };
    let os = match get_array(j, "order_by") {
        Some(os) => os,
        None => return None,
    };
    let ghost ov = crate::statements::json_seq(os@);
    let mut order_by: Vec<crate::fetch_many::OrderBy> = Vec::new();
    let mut i: usize = 0;
    while i < os.len()
        invariant
            i <= os@.len(),
            ov == crate::statements::json_seq(os@),
            array_member(j@, "order_by"@) == Some(ov),
            forall|k: int| 0 <= k < i ==> decode_order(#[trigger] ov[k]) is Some,
            order_by@.map_values(|o: crate::fetch_many::OrderBy| (o.col@, o.direction)) == ov.take(i as int).map_values(
                |o: Json| decode_order(o).unwrap(),
            ),
        decreases os@.len() - i,
    {
        let o = &os[i];
        proof {
            assert(ov[i as int] == o@);
        }
        if !keys2(o, "col", "direction") {
            return None;
        }
        let col = match get_str(o, "col") {
            Some(c) => c,
            None => return None,
        };
        let direction = if member_is(o, "direction", "asc") {
            crate::fetch_many::Direction::Asc
        } else if member_is(o, "direction", "desc") {
            crate::fetch_many::Direction::Desc
        } else {
            return None;
        };
        let ghost before = order_by@.map_values(|o: crate::fetch_many::OrderBy| (o.col@, o.direction));
        order_by.push(crate::fetch_many::OrderBy { col, direction });
        proof {
            assert(order_by@.map_values(|o: crate::fetch_many::OrderBy| (o.col@, o.direction)) =~= before.push(
                decode_order(ov[i as int]).unwrap(),
            ));
            assert(ov.take(i + 1).map_values(|o: Json| decode_order(o).unwrap()) =~= ov.take(i as int).map_values(
                |o: Json| decode_order(o).unwrap(),
            ).push(decode_order(ov[i as int]).unwrap()));
        }
        i = i + 1;
    }
    proof {
        assert(ov.take(os@.len() as int) =~= ov);
    }
    Some(crate::fetch_many::Pagination { limit, first_item, order_by })
}

/// A request to read a page: the members `base`, `filters`, `links` and
/// `pagination`, in this order and no others.
pub open spec fn decode_fetch_many(j: Json) -> Option<(Seq<char>, Seq<FilterView>, Seq<FetchLinkInputView>, (int, Option<(int, Seq<(Seq<char>, Json)>)>, Seq<(Seq<char>, crate::fetch_many::Direction)>))> {
    match (str_member(j, "base"@), array_member(j, "filters"@), array_member(j, "links"@), member(j, "pagination"@)) {
        _ if !has_keys(j, seq!["base"@, "filters"@, "links"@, "pagination"@]) => None,
        (Some(base), Some(fs), Some(ls), Some(pg)) => match (decode_filters(fs), all_fetch_links(ls), decode_pagination(pg)) {
            (Some(filters), Some(links), Some(pagination)) => Some((base, filters, links, pagination)),
            _ => None,
        },
        _ => None,
    }
}

/// Reads a request to read a page.
pub fn decode_fetch_many_input(j: &JsonValue) -> (r: Option<crate::fetch_many::FetchManyInput>)
    ensures
        match decode_fetch_many(j@) {
            Some(x) => r matches Some(v) && (v.base@, filters_view(v.filters@), fetch_links_input_view(v.links@), pagination_view(v.pagination)) == x,
            None => r is None,
        },
{
    let base = match get_str(j, "base") {
        Some(b) => b,
        None => return None,
    };
    let fs = match get_array(j, "filters") {
        Some(fs) => fs,
        None => return None,
    };
    let ls = match get_array(j, "links") {
        Some(ls) => ls,
        None => return None,
    };
    let pg = match member_of(j, "pagination") {
        Some(pg) => pg,
        None => return None,
    };
    if !keys4(j, "base", "filters", "links", "pagination") {
        return None;
    }
    let filters = match decode_filter_list(fs) {
        Some(f) => f,
        None => return None,
    };
    let links = match decode_fetch_links(ls) {
        Some(l) => l,
        None => return None,
    };
    match decode_pagination_input(pg) {
        Some(pagination) => Some(crate::fetch_many::FetchManyInput { base, filters, links, pagination }),
        None => None,
    }
}

} // verus!
