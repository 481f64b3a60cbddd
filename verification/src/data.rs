//! The data of an insert or an update: a JSON object whose members are
//! fields of the collection, checked and turned into bound values.
use vstd::prelude::*;
use crate::json::{Json, JsonValue};
use crate::schema::{DynamicCollection, DynamicField, FieldView, fields_view, find_field, find_field_spec};
use crate::sql::{BindValue, BindView};
use crate::filters::binds_view;
use crate::text::{chars_eq, copy_chars};
use crate::values::{
    bind_for, entries_view, get_member_chars, lookup_key, member, names_view, to_bind, value_fits,
};

verus! {

/// Whether every member names a field and holds a value that fits it, and
/// no member is named twice.
pub open spec fn members_ok(fields: Seq<FieldView>, es: Seq<(Seq<char>, Json)>) -> bool {
    &&& forall|k: int|
        0 <= k < es.len() ==> match find_field_spec(fields, (#[trigger] es[k]).0) {
            Some(f) => value_fits(f.ty, f.optional, es[k].1),
            None => false,
        }
    &&& forall|a: int, b: int| 0 <= a < b < es.len() ==> (#[trigger] es[a]).0 != (#[trigger] es[b]).0
}

/// Whether an update's data is acceptable: an object whose members are
/// fields with fitting values, each named once.
pub open spec fn update_data_ok(fields: Seq<FieldView>, data: Json) -> bool {
    match data {
        Json::Object(es) => members_ok(fields, es),
        _ => false,
    }
}

/// Whether an insert's data is acceptable: as for an update, every field
/// that is not optional is given, and the value given for a field fits it.
pub open spec fn insert_data_ok(fields: Seq<FieldView>, data: Json) -> bool {
    &&& update_data_ok(fields, data)
    &&& forall|i: int|
        0 <= i < fields.len() ==> match member(data, (#[trigger] fields[i]).name) {
            Some(v) => value_fits(fields[i].ty, fields[i].optional, v),
            None => fields[i].optional,
        }
}

/// The values an insert binds: one per field, in field order, `NULL` for a
/// field not given.
pub open spec fn insert_binds(fields: Seq<FieldView>, data: Json) -> Seq<BindView> {
    Seq::new(
        fields.len(),
        |i: int|
            match member(data, fields[i].name) {
                Some(v) => bind_for(fields[i].ty, v),
                None => BindView::Null,
            },
    )
}

/// The assignments an update makes: one per member, in the object's order,
/// each field with the value bound for it.
pub open spec fn update_sets(fields: Seq<FieldView>, data: Json) -> Seq<(Seq<char>, BindView)> {
    match data {
        Json::Object(es) => es.map_values(
            |e: (Seq<char>, Json)| (e.0, bind_for(find_field_spec(fields, e.0).unwrap().ty, e.1)),
        ),
        _ => Seq::empty(),
    }
}

/// In members named once each, each member is what its name finds.
proof fn lemma_member_found(es: Seq<(Seq<char>, Json)>, k: int)
    requires
        0 <= k < es.len(),
        forall|a: int, b: int| 0 <= a < b < es.len() ==> (#[trigger] es[a]).0 != (#[trigger] es[b]).0,
    ensures
        lookup_key(es, es[k].0) == Some(es[k].1),
{
    assert forall|m: int| 0 <= m < k implies (#[trigger] es[m]).0 != es[k].0 by {
        assert(es[m].0 != es[k].0);
    }
    crate::values::lemma_lookup_skip(es, es[k].0, k);
    assert(es.skip(k)[0] == es[k]);
}

/// An update assigns every field its data gives, and nothing else: for
/// acceptable data, there is one assignment per member of the data object;
/// a field is assigned if and only if the data has a member of its name,
/// and then it is assigned the value bound for that member's value.
pub proof fn updates_assign_each_given_field(fields: Seq<FieldView>, data: Json)
    requires
        update_data_ok(fields, data),
    ensures
        update_sets(fields, data).len() == data->Object_0.len(),
        forall|name: Seq<char>|
            (exists|j: int| 0 <= j < update_sets(fields, data).len() && #[trigger] update_sets(fields, data)[j].0 == name)
                <==> member(data, name) is Some,
        forall|j: int|
            0 <= j < update_sets(fields, data).len() ==> (member(data, (#[trigger] update_sets(fields, data)[j]).0)
                matches Some(v) && update_sets(fields, data)[j].1 == bind_for(
                find_field_spec(fields, update_sets(fields, data)[j].0).unwrap().ty,
                v,
            )),
{
    let es = data->Object_0;
    let sets = update_sets(fields, data);
    assert forall|j: int| 0 <= j < sets.len() implies (member(data, (#[trigger] sets[j]).0) matches Some(v)
        && sets[j].1 == bind_for(find_field_spec(fields, sets[j].0).unwrap().ty, v)) by {
        lemma_member_found(es, j);
    }
    assert forall|name: Seq<char>|
        (exists|j: int| 0 <= j < sets.len() && #[trigger] sets[j].0 == name) <==> member(data, name) is Some by {
        if exists|j: int| 0 <= j < sets.len() && #[trigger] sets[j].0 == name {
            let j = choose|j: int| 0 <= j < sets.len() && #[trigger] sets[j].0 == name;
            lemma_member_found(es, j);
        }
        if member(data, name) is Some {
            let k = crate::request::lemma_lookup_position(es, name);
            assert(sets[k].0 == name);
        }
    }
}

/// Checks the members of an object against the fields.
fn check_members(fields: &Vec<DynamicField>, entries: &Vec<(Vec<char>, JsonValue)>) -> (r: bool)
    ensures
        r == members_ok(fields_view(fields@), entries_view(entries@)),
{
    let ghost fv = fields_view(fields@);
    let ghost es = entries_view(entries@);
    let mut i: usize = 0;
    while i < entries.len()
        invariant
            i <= entries@.len(),
            fv == fields_view(fields@),
            es == entries_view(entries@),
            forall|k: int|
                0 <= k < i ==> match find_field_spec(fv, (#[trigger] es[k]).0) {
                    Some(f) => value_fits(f.ty, f.optional, es[k].1),
                    None => false,
                },
            forall|a: int, b: int| 0 <= a < b < i ==> (#[trigger] es[a]).0 != (#[trigger] es[b]).0,
        decreases entries@.len() - i,
    {
        let key = &entries[i].0;
        let fi = match find_field(fields, key) {
            Some(fi) => fi,
            None => {
                assert(find_field_spec(fv, es[i as int].0) is None);
                return false;
            },
        };
        let fd = &fields[fi];
        if to_bind(&fd.type_info, fd.is_optional, &entries[i].1).is_err() {
            assert(!value_fits(fd@.ty, fd@.optional, es[i as int].1));
            return false;
        }
        let mut j: usize = 0;
        while j < i
            invariant
                j <= i,
                i < entries@.len(),
                es == entries_view(entries@),
                key@ == es[i as int].0,
                forall|a: int| 0 <= a < j ==> (#[trigger] es[a]).0 != es[i as int].0,
            decreases i - j,
        {
            if chars_eq(&entries[j].0, key) {
                assert(es[j as int].0 == es[i as int].0);
                return false;
            }
            j = j + 1;
        }
        i = i + 1;
    }
    true
}

/// Checks an update's data and returns the assignments it makes.
pub fn update_values(c: &DynamicCollection, data: &JsonValue) -> (r: Result<Vec<(Vec<char>, BindValue)>, ()>)
    ensures
        r is Ok <==> update_data_ok(c@.fields, data@),
        r matches Ok(sets) ==> sets@.map_values(|s: (Vec<char>, BindValue)| (s.0@, s.1@)) == update_sets(
            c@.fields,
            data@,
        ),
{
    let entries = match data {
        JsonValue::Object(entries) => entries,
        _ => return Err(()),
    };
    proof {
        crate::values::lemma_object_view(*entries);
        assert(fields_view(c.fields@) == c@.fields);
    }
    if !check_members(&c.fields, entries) {
        return Err(());
    }
    let ghost es = entries_view(entries@);
    let ghost want = update_sets(c@.fields, data@);
    let mut sets: Vec<(Vec<char>, BindValue)> = Vec::new();
    let mut i: usize = 0;
    while i < entries.len()
        invariant
            i <= entries@.len(),
            es == entries_view(entries@),
            data@ == Json::Object(es),
            fields_view(c.fields@) == c@.fields,
            members_ok(c@.fields, es),
            want == update_sets(c@.fields, data@),
            want.len() == es.len(),
            sets@.map_values(|s: (Vec<char>, BindValue)| (s.0@, s.1@)) == want.take(i as int),
        decreases entries@.len() - i,
    {
        let fi = match find_field(&c.fields, &entries[i].0) {
            Some(fi) => fi,
            None => {
                assert(find_field_spec(c@.fields, es[i as int].0) is Some);
                return Err(());
            },
        };
        let fd = &c.fields[fi];
        let bind = match to_bind(&fd.type_info, fd.is_optional, &entries[i].1) {
            Ok(b) => b,
            Err(_) => {
                assert(value_fits(fd@.ty, fd@.optional, es[i as int].1));
                return Err(());
            },
        };
        let ghost before = sets@.map_values(|s: (Vec<char>, BindValue)| (s.0@, s.1@));
        sets.push((copy_chars(&entries[i].0), bind));
        proof {
            assert(want[i as int] == (es[i as int].0, bind_for(fd@.ty, es[i as int].1)));
            assert(sets@.map_values(|s: (Vec<char>, BindValue)| (s.0@, s.1@)) =~= before.push(want[i as int]));
            assert(want.take(i + 1) =~= want.take(i as int).push(want[i as int]));
        }
        i = i + 1;
    }
    proof {
        assert(want.take(entries@.len() as int) =~= want);
    }
    Ok(sets)
}

/// Checks an insert's data and returns the value bound for each field.
pub fn insert_values(c: &DynamicCollection, data: &JsonValue) -> (r: Result<Vec<BindValue>, ()>)
    ensures
        r is Ok <==> insert_data_ok(c@.fields, data@),
        r matches Ok(binds) ==> binds_view(binds@) == insert_binds(c@.fields, data@),
{
    let entries = match data {
        JsonValue::Object(entries) => entries,
        _ => return Err(()),
    };
    proof {
        crate::values::lemma_object_view(*entries);
        assert(fields_view(c.fields@) == c@.fields);
    }
    if !check_members(&c.fields, entries) {
        return Err(());
    }
    let ghost want = insert_binds(c@.fields, data@);
    let mut binds: Vec<BindValue> = Vec::new();
    let mut i: usize = 0;
    while i < c.fields.len()
        invariant
            i <= c.fields@.len(),
            data@ == Json::Object(entries_view(entries@)),
            fields_view(c.fields@) == c@.fields,
            update_data_ok(c@.fields, data@),
            forall|k: int|
                0 <= k < i ==> match member(data@, (#[trigger] c@.fields[k]).name) {
                    Some(v) => value_fits(c@.fields[k].ty, c@.fields[k].optional, v),
                    None => c@.fields[k].optional,
                },
            want == insert_binds(c@.fields, data@),
            binds_view(binds@) == want.take(i as int),
        decreases c.fields@.len() - i,
    {
        let fd = &c.fields[i];
        let name = crate::text::chars_of(fd.name.snake_case.as_str());
        proof {
            assert(c@.fields[i as int] == fd@);
        }
        let ghost before = binds_view(binds@);
        match get_member_chars(entries, &name) {
            Some(v) => {
                let ghost es = entries_view(entries@);
                let bind = match to_bind(&fd.type_info, fd.is_optional, v) {
                    Ok(b) => b,
                    Err(_) => {
                        proof {
                            assert(name@ == c@.fields[i as int].name);
                            assert(!insert_data_ok(c@.fields, data@));
                        }
                        return Err(());
                    },
                };
                binds.push(bind);
            },
            None => {
                if !fd.is_optional {
                    proof {
                        assert(name@ == c@.fields[i as int].name);
                        assert(member(data@, c@.fields[i as int].name) is None);
                        assert(!insert_data_ok(c@.fields, data@));
                    }
                    return Err(());
                }
                binds.push(BindValue::Null);
            },
        }
        proof {
            assert(binds_view(binds@) =~= before.push(want[i as int]));
            assert(want.take(i + 1) =~= want.take(i as int).push(want[i as int]));
        }
        i = i + 1;
    }
    proof {
        assert(want.take(c.fields@.len() as int) =~= want);
    }
    Ok(binds)
}

} // verus!
