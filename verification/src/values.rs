//! Field values: how a JSON value is checked against a field's type and
//! bound to a statement, how objects are read, and how rows become objects.
use vstd::prelude::*;
use crate::json::{Json, JsonValue, int_text, json_text, to_json_string, clone_json};
use crate::sql::{BindValue, BindView, ColumnType, ScalarType};
use crate::text::{chars_eq_str, copy_chars, chars_eq};

verus! {

/// Whether a JSON value is an element of an array of the given type.
pub open spec fn scalar_fits(s: ScalarType, v: Json) -> bool {
    match s {
        ScalarType::Text => v is Str,
        ScalarType::Boolean => v is Bool,
        ScalarType::Int => v is Int,
        ScalarType::Float => v is Int || v is Number,
    }
}

/// Whether a JSON value can be stored in a field of that type: `null` only
/// where the field is optional, otherwise a value of the field's type.
pub open spec fn value_fits(ty: ColumnType, optional: bool, v: Json) -> bool {
    match v {
        Json::Null => optional,
        _ => match ty {
            ColumnType::Text => v is Str,
            ColumnType::Boolean => v is Bool,
            ColumnType::Int => v is Int,
            ColumnType::Float => v is Int || v is Number,
            ColumnType::Array(s) => match v {
                Json::Array(items) => forall|i: int|
                    0 <= i < items.len() ==> scalar_fits(s, #[trigger] items[i]),
                _ => false,
            },
        },
    }
}

/// The value bound for a JSON value that fits a field of that type: arrays
/// are stored as their JSON text, numbers of a float field as their text.
pub open spec fn bind_for(ty: ColumnType, v: Json) -> BindView {
    match v {
        Json::Null => BindView::Null,
        Json::Bool(b) => BindView::Bool(b),
        Json::Int(i) => if ty is Float {
            BindView::Real(int_text(i))
        } else {
            BindView::Int(i)
        },
        Json::Number(t) => BindView::Real(t),
        Json::Str(t) => BindView::Text(t),
        Json::Array(_) => BindView::Text(json_text(v)),
        Json::Object(_) => BindView::Null,
    }
}

/// The number text of an `i64`.
fn int_chars(i: i64) -> (r: Vec<char>)
    ensures
        r@ == int_text(i as int),
{
    let mut s = String::new();
    crate::json::write_int(i, &mut s);
    crate::text::chars_of(s.as_str())
}

/// Whether every element of `items` fits an array of type `s`.
fn items_fit(s: ScalarType, items: &Vec<JsonValue>) -> (r: bool)
    ensures
        r == forall|i: int| 0 <= i < items@.len() ==> scalar_fits(s, #[trigger] items@[i]@),
{
    let mut i: usize = 0;
    while i < items.len()
        invariant
            i <= items@.len(),
            forall|k: int| 0 <= k < i ==> scalar_fits(s, #[trigger] items@[k]@),
        decreases items@.len() - i,
    {
        let ok = match (s, &items[i]) {
            (ScalarType::Text, JsonValue::Str(_)) => true,
            (ScalarType::Boolean, JsonValue::Bool(_)) => true,
            (ScalarType::Int, JsonValue::Int(_)) => true,
            (ScalarType::Float, JsonValue::Int(_)) => true,
            (ScalarType::Float, JsonValue::Number(_)) => true,
            _ => false,
        };
        if !ok {
            assert(!scalar_fits(s, items@[i as int]@));
            return false;
        }
        i = i + 1;
    }
    true
}

/// Checks a JSON value against a field's type and turns it into the value
/// to bind.
pub fn to_bind(ty: &ColumnType, optional: bool, v: &JsonValue) -> (r:
    Result<BindValue, ()>)
    ensures
        r is Ok <==> value_fits(*ty, optional, v@),
        r matches Ok(b) ==> b@ == bind_for(*ty, v@),
{
    match v {
        JsonValue::Null => if optional {
            Ok(BindValue::Null)
        } else {
            Err(())
        },
        JsonValue::Bool(b) => if *ty == ColumnType::Boolean {
            Ok(BindValue::Bool(*b))
        } else {
            Err(())
        },
        JsonValue::Int(i) => if *ty == ColumnType::Int {
            Ok(BindValue::Int(*i))
        } else if *ty == ColumnType::Float {
            Ok(BindValue::Real(int_chars(*i)))
        } else {
            Err(())
        },
        JsonValue::Number(t) => if *ty == ColumnType::Float {
            Ok(BindValue::Real(copy_chars(t)))
        } else {
            Err(())
        },
        JsonValue::Str(t) => if *ty == ColumnType::Text {
            Ok(BindValue::Text(copy_chars(t)))
        } else {
            Err(())
        },
        JsonValue::Array(items) => match ty {
            ColumnType::Array(s) => {
                if items_fit(*s, items) {
                    proof {
                        assert forall|i: int| 0 <= i < v@->Array_0.len() implies scalar_fits(
                            *s,
                            #[trigger] v@->Array_0[i],
                        ) by {
                            assert(v@->Array_0[i] == items@[i]@);
                        }
                    }
                    let text = to_json_string(v);
                    Ok(BindValue::Text(crate::text::chars_of(text.as_str())))
                } else {
                    proof {
                        let k = choose|k: int| 0 <= k < items@.len() && !scalar_fits(*s, #[trigger] items@[k]@);
                        assert(v@->Array_0[k] == items@[k]@);
                    }
                    Err(())
                }
            },
            _ => Err(()),
        },
        JsonValue::Object(_) => Err(()),
    }
}

/// A scalar type whose values are stored as JSON and read back: integers,
/// truth values and strings.
pub trait JsonScalar: Sized {
    /// The JSON value that holds `self`.
    spec fn json_of(&self) -> Json;

    /// Whether a JSON value holds a value of this type.
    spec fn holds(j: Json) -> bool;

    /// The value as JSON.
    fn to_json(&self) -> (r: JsonValue)
        ensures
            r@ == self.json_of(),
            Self::holds(r@),
    ;

    /// The value a JSON value holds, or an error where it holds none of
    /// this type.
    fn from_json(v: &JsonValue) -> (r: Result<Self, ()>)
        ensures
            r is Ok <==> Self::holds(v@),
            r matches Ok(x) ==> x.json_of() == v@,
    ;
}

impl JsonScalar for i64 {
    open spec fn json_of(&self) -> Json {
        Json::Int(*self as int)
    }

    open spec fn holds(j: Json) -> bool {
        j matches Json::Int(i) && i64::MIN <= i <= i64::MAX
    }

    fn to_json(&self) -> (r: JsonValue) {
        JsonValue::Int(*self)
    }

    fn from_json(v: &JsonValue) -> (r: Result<i64, ()>) {
        match v {
            JsonValue::Int(i) => Ok(*i),
            _ => Err(()),
        }
    }
}

impl JsonScalar for bool {
    open spec fn json_of(&self) -> Json {
        Json::Bool(*self)
    }

    open spec fn holds(j: Json) -> bool {
        j is Bool
    }

    fn to_json(&self) -> (r: JsonValue) {
        JsonValue::Bool(*self)
    }

    fn from_json(v: &JsonValue) -> (r: Result<bool, ()>) {
        match v {
            JsonValue::Bool(b) => Ok(*b),
            _ => Err(()),
        }
    }
}

impl JsonScalar for String {
    open spec fn json_of(&self) -> Json {
        Json::Str(self@)
    }

    open spec fn holds(j: Json) -> bool {
        j is Str
    }

    fn to_json(&self) -> (r: JsonValue) {
        JsonValue::Str(crate::text::chars_of(self.as_str()))
    }

    fn from_json(v: &JsonValue) -> (r: Result<String, ()>) {
        match v {
            JsonValue::Str(t) => Ok(crate::request::string_of(t)),
            _ => Err(()),
        }
    }
}

/// The value of type `T` a stored JSON value holds, or an error where it
/// holds none of that type. A value written by `to_json` reads back as
/// itself: its JSON is the JSON read.
pub fn decode_json_scalar<T: JsonScalar>(v: &JsonValue) -> (r: Result<T, ()>)
    ensures
        r is Ok <==> T::holds(v@),
        r matches Ok(x) ==> x.json_of() == v@,
{
    T::from_json(v)
}

/// The value of the first member named `key`, if any.
pub open spec fn lookup_key(entries: Seq<(Seq<char>, Json)>, key: Seq<char>) -> Option<Json>
    decreases entries.len(),
{
    if entries.len() == 0 {
        None
    } else if entries[0].0 == key {
        Some(entries[0].1)
    } else {
        lookup_key(entries.drop_first(), key)
    }
}

/// The value of member `key` of a JSON value: none where the value is not
/// an object or has no such member.
pub open spec fn member(v: Json, key: Seq<char>) -> Option<Json> {
    match v {
        Json::Object(entries) => lookup_key(entries, key),
        _ => None,
    }
}

/// Looking a key up in a list whose first entries lack it is looking it
/// up in the rest.
pub proof fn lemma_lookup_skip(entries: Seq<(Seq<char>, Json)>, key: Seq<char>, i: int)
    requires
        0 <= i <= entries.len(),
        forall|k: int| 0 <= k < i ==> (#[trigger] entries[k]).0 != key,
    ensures
        lookup_key(entries, key) == lookup_key(entries.skip(i), key),
    decreases i,
{
    if i > 0 {
        assert(entries.skip(1) =~= entries.drop_first());
        lemma_lookup_skip(entries.drop_first(), key, i - 1);
        assert(entries.drop_first().skip(i - 1) =~= entries.skip(i));
    } else {
        assert(entries.skip(0) =~= entries);
    }
}

/// The member `key` of an object's entries, if present.
pub fn get_member<'a>(entries: &'a Vec<(Vec<char>, JsonValue)>, key: &str) -> (r: Option<&'a JsonValue>)
    ensures
        match r {
            Some(v) => lookup_key(entries_view(entries@), key@) == Some(v@),
            None => lookup_key(entries_view(entries@), key@) is None,
        },
{
    let k = crate::text::chars_of(key);
    get_member_chars(entries, &k)
}

/// The member `key` of an object's entries, if present, the key given as
/// characters.
pub fn get_member_chars<'a>(entries: &'a Vec<(Vec<char>, JsonValue)>, key: &Vec<char>) -> (r: Option<&'a JsonValue>)
    ensures
        match r {
            Some(v) => lookup_key(entries_view(entries@), key@) == Some(v@),
            None => lookup_key(entries_view(entries@), key@) is None,
        },
{
    let ghost es = entries_view(entries@);
    let mut i: usize = 0;
    while i < entries.len()
        invariant
            i <= entries@.len(),
            es == entries_view(entries@),
            forall|k: int| 0 <= k < i ==> (#[trigger] es[k]).0 != key@,
        decreases entries@.len() - i,
    {
        if chars_eq(&entries[i].0, key) {
            proof {
                lemma_lookup_skip(es, key@, i as int);
                assert(es.skip(i as int)[0] == es[i as int]);
            }
            return Some(&entries[i].1);
        }
        i = i + 1;
    }
    proof {
        lemma_lookup_skip(es, key@, i as int);
    }
    None
}

/// An object's entries by their plain parts.
pub open spec fn entries_view(entries: Seq<(Vec<char>, JsonValue)>) -> Seq<(Seq<char>, Json)> {
    entries.map_values(|e: (Vec<char>, JsonValue)| (e.0@, e.1@))
}

/// A copy of an object's entries.
pub fn copy_entries(es: &Vec<(Vec<char>, JsonValue)>) -> (r: Vec<(Vec<char>, JsonValue)>)
    ensures
        entries_view(r@) == entries_view(es@),
{
    let mut r: Vec<(Vec<char>, JsonValue)> = Vec::new();
    let mut i: usize = 0;
    while i < es.len()
        invariant
            i <= es@.len(),
            entries_view(r@) == entries_view(es@).take(i as int),
        decreases es@.len() - i,
    {
        let ghost before = entries_view(r@);
        r.push((copy_chars(&es[i].0), clone_json(&es[i].1)));
        proof {
            assert(entries_view(r@) =~= before.push(entries_view(es@)[i as int]));
            assert(entries_view(es@).take(i + 1) =~= entries_view(es@).take(i as int).push(entries_view(es@)[i as int]));
        }
        i = i + 1;
    }
    proof {
        assert(entries_view(es@).take(es@.len() as int) =~= entries_view(es@));
    }
    r
}

/// The entries of an object value, and those of a value built from entries.
pub proof fn lemma_object_view(entries: Vec<(Vec<char>, JsonValue)>)
    ensures
        JsonValue::Object(entries)@ == Json::Object(entries_view(entries@)),
{
    assert(JsonValue::Object(entries)@->Object_0 =~= entries_view(entries@));
}

/// The elements of an array value.
pub proof fn lemma_array_view(items: Vec<JsonValue>)
    ensures
        JsonValue::Array(items)@ == Json::Array(items@.map_values(|v: JsonValue| v@)),
{
    assert(JsonValue::Array(items)@->Array_0 =~= items@.map_values(|v: JsonValue| v@));
}

/// Whether `a` comes before `b` or equals it, comparing characters by
/// their code points: the order of Rust's `str`.
pub open spec fn lex_le(a: Seq<char>, b: Seq<char>) -> bool
    decreases a.len(),
{
    if a.len() == 0 {
        true
    } else if b.len() == 0 {
        false
    } else if a[0] != b[0] {
        a[0] < b[0]
    } else {
        lex_le(a.drop_first(), b.drop_first())
    }
}

/// Of two texts, one comes before the other.
pub proof fn lemma_lex_total(a: Seq<char>, b: Seq<char>)
    ensures
        lex_le(a, b) || lex_le(b, a),
    decreases a.len(),
{
    if a.len() > 0 && b.len() > 0 {
        if a[0] == b[0] {
            lemma_lex_total(a.drop_first(), b.drop_first());
        }
    }
}

/// The order is transitive.
pub proof fn lemma_lex_trans(a: Seq<char>, b: Seq<char>, c: Seq<char>)
    requires
        lex_le(a, b),
        lex_le(b, c),
    ensures
        lex_le(a, c),
    decreases a.len(),
{
    if a.len() > 0 && b.len() > 0 && c.len() > 0 && a[0] == b[0] && b[0] == c[0] {
        lemma_lex_trans(a.drop_first(), b.drop_first(), c.drop_first());
    }
}

/// The order admits no ties between distinct texts.
pub proof fn lemma_lex_antisymmetric(a: Seq<char>, b: Seq<char>)
    requires
        lex_le(a, b),
        lex_le(b, a),
    ensures
        a == b,
    decreases a.len(),
{
    if a.len() > 0 && b.len() > 0 && a[0] == b[0] {
        lemma_lex_antisymmetric(a.drop_first(), b.drop_first());
        assert(a =~= seq![a[0]] + a.drop_first());
        assert(b =~= seq![b[0]] + b.drop_first());
    } else if a.len() == 0 && b.len() == 0 {
        assert(a =~= b);
    }
}

/// Every text comes before or equals itself.
pub proof fn lemma_lex_reflexive(a: Seq<char>)
    ensures
        lex_le(a, a),
    decreases a.len(),
{
    if a.len() > 0 {
        lemma_lex_reflexive(a.drop_first());
    }
}

/// The order on texts is a total order.
pub proof fn lemma_lex_total_ordering()
    ensures
        vstd::relations::total_ordering(|a: Seq<char>, b: Seq<char>| lex_le(a, b)),
{
    let leq = |a: Seq<char>, b: Seq<char>| lex_le(a, b);
    assert forall|x: Seq<char>| #[trigger] leq(x, x) by {
        lemma_lex_reflexive(x);
    }
    assert forall|x: Seq<char>, y: Seq<char>| #[trigger] leq(x, y) && #[trigger] leq(y, x) implies x == y by {
        lemma_lex_antisymmetric(x, y);
    }
    assert forall|x: Seq<char>, y: Seq<char>, z: Seq<char>| #[trigger] leq(x, y) && #[trigger] leq(y, z) implies leq(x, z) by {
        lemma_lex_trans(x, y, z);
    }
    assert forall|x: Seq<char>, y: Seq<char>| #[trigger] leq(x, y) || #[trigger] leq(y, x) by {
        lemma_lex_total(x, y);
    }
}

/// The names in order: the one ordered arrangement of them.
pub open spec fn sorted_keys(names: Seq<Seq<char>>) -> Seq<Seq<char>> {
    choose|s: Seq<Seq<char>>| names_sorted(s) && s.to_multiset() == names.to_multiset()
}

/// An ordered arrangement of the names is `sorted_keys` of them.
pub proof fn lemma_sorted_keys(s: Seq<Seq<char>>, names: Seq<Seq<char>>)
    requires
        names_sorted(s),
        s.to_multiset() == names.to_multiset(),
    ensures
        sorted_keys(names) == s,
{
    let t = sorted_keys(names);
    assert(names_sorted(t) && t.to_multiset() == names.to_multiset());
    lemma_lex_total_ordering();
    let leq = |a: Seq<char>, b: Seq<char>| lex_le(a, b);
    assert(vstd::relations::sorted_by(s, leq));
    assert(vstd::relations::sorted_by(t, leq));
    vstd::seq_lib::lemma_sorted_unique(s, t, leq);
}

/// Compares two texts in that order.
pub fn chars_le(a: &Vec<char>, b: &Vec<char>) -> (r: bool)
    ensures
        r == lex_le(a@, b@),
{
    let mut i: usize = 0;
    proof {
        assert(a@.skip(0) =~= a@);
        assert(b@.skip(0) =~= b@);
    }
    while i < a.len() && i < b.len()
        invariant
            i <= a@.len(),
            i <= b@.len(),
            lex_le(a@, b@) == lex_le(a@.skip(i as int), b@.skip(i as int)),
        decreases a@.len() - i,
    {
        if a[i] != b[i] {
            return a[i] < b[i];
        }
        proof {
            assert(a@.skip(i as int).drop_first() =~= a@.skip(i + 1));
            assert(b@.skip(i as int).drop_first() =~= b@.skip(i + 1));
        }
        i = i + 1;
    }
    i == a.len()
}

/// Texts by their characters.
pub open spec fn names_view(v: Seq<Vec<char>>) -> Seq<Seq<char>> {
    v.map_values(|x: Vec<char>| x@)
}

/// Whether the texts are in order.
pub open spec fn names_sorted(s: Seq<Seq<char>>) -> bool {
    forall|i: int, j: int| 0 <= i < j < s.len() ==> lex_le(#[trigger] s[i], #[trigger] s[j])
}

/// The names in order, each as often as it occurs.
pub fn sort_names(names: &Vec<Vec<char>>) -> (r: Vec<Vec<char>>)
    ensures
        names_sorted(names_view(r@)),
        names_view(r@).to_multiset() == names_view(names@).to_multiset(),
        names_view(r@) == sorted_keys(names_view(names@)),
{
    broadcast use vstd::seq_lib::to_multiset_build, vstd::seq_lib::to_multiset_insert;
    let mut out: Vec<Vec<char>> = Vec::new();
    let mut i: usize = 0;
    proof {
        assert(names_view(out@) =~= names_view(names@.take(0)));
    }
    while i < names.len()
        invariant
            i <= names@.len(),
            names_sorted(names_view(out@)),
            names_view(out@).to_multiset() == names_view(names@.take(i as int)).to_multiset(),
        decreases names@.len() - i,
    {
        let x = copy_chars(&names[i]);
        let mut p: usize = 0;
        while p < out.len() && chars_le(&out[p], &x)
            invariant
                p <= out@.len(),
                forall|k: int| 0 <= k < p ==> lex_le(#[trigger] names_view(out@)[k], x@),
            decreases out@.len() - p,
        {
            p = p + 1;
        }
        let ghost before = names_view(out@);
        proof {
            if p < out@.len() {
                assert(!lex_le(before[p as int], x@));
                lemma_lex_total(before[p as int], x@);
                assert forall|q: int| p <= q < before.len() implies lex_le(x@, #[trigger] before[q]) by {
                    if q > p {
                        lemma_lex_trans(x@, before[p as int], before[q]);
                    }
                }
            }
        }
        out.insert(p, x);
        proof {
            let after = names_view(out@);
            assert(after =~= before.insert(p as int, names@[i as int]@));
            assert forall|a: int, b: int| 0 <= a < b < after.len() implies lex_le(
                #[trigger] after[a],
                #[trigger] after[b],
            ) by {
                if b < p {
                } else if a < p && b == p {
                } else if a < p {
                    assert(after[b] == before[b - 1]);
                    if p < before.len() {
                        lemma_lex_trans(after[a], after[p as int], after[b]);
                    }
                } else if a == p {
                    assert(after[b] == before[b - 1]);
                } else {
                    assert(after[a] == before[a - 1]);
                    assert(after[b] == before[b - 1]);
                }
            }
            assert(names_view(names@.take(i + 1)) =~= names_view(names@.take(i as int)).push(
                names@[i as int]@,
            ));
            vstd::seq_lib::to_multiset_insert(before, p as int, names@[i as int]@);
            vstd::seq_lib::to_multiset_build(names_view(names@.take(i as int)), names@[i as int]@);
        }
        i = i + 1;
    }
    proof {
        assert(names@.take(names@.len() as int) =~= names@);
        lemma_sorted_keys(names_view(out@), names_view(names@));
    }
    out
}

/// An object holding, for each key in order, the value the row holds for
/// it.
pub open spec fn row_object(row: Seq<(Seq<char>, Json)>, keys: Seq<Seq<char>>) -> Json {
    Json::Object(
        Seq::new(keys.len(), |i: int| (keys[i], lookup_key(row, keys[i]).unwrap())),
    )
}

/// Writes the members of a row named by `keys`, in that order, as an
/// object. Every key must name a member of the row.
pub fn serialize_dynamic_row(row: &Vec<(Vec<char>, JsonValue)>, keys: &Vec<Vec<char>>) -> (r: JsonValue)
    requires
        forall|i: int| 0 <= i < keys@.len() ==> lookup_key(entries_view(row@), (#[trigger] keys@[i])@) is Some,
    ensures
        r@ == row_object(entries_view(row@), names_view(keys@)),
{
    let mut out: Vec<(Vec<char>, JsonValue)> = Vec::new();
    let mut i: usize = 0;
    while i < keys.len()
        invariant
            i <= keys@.len(),
            out@.len() == i,
            forall|k: int| 0 <= k < keys@.len() ==> lookup_key(entries_view(row@), (#[trigger] keys@[k])@) is Some,
            forall|k: int| 0 <= k < i ==> (#[trigger] entries_view(out@)[k]) == (keys@[k]@, lookup_key(entries_view(row@), keys@[k]@).unwrap()),
        decreases keys@.len() - i,
    {
        let v = match get_member_chars(row, &keys[i]) {
            Some(v) => clone_json(v),
            None => {
                proof {
                    assert(lookup_key(entries_view(row@), keys@[i as int]@) is Some);
                }
                return JsonValue::Null;
            },
        };
        let ghost before = entries_view(out@);
        out.push((copy_chars(&keys[i]), v));
        proof {
            assert(entries_view(out@) =~= before.push(
                (keys@[i as int]@, lookup_key(entries_view(row@), keys@[i as int]@).unwrap()),
            ));
        }
        i = i + 1;
    }
    proof {
        lemma_object_view(out);
        assert(entries_view(out@) =~= row_object(entries_view(row@), names_view(keys@))->Object_0);
    }
    JsonValue::Object(out)
}

/// The names of a row's members, in order.
pub open spec fn entry_names(row: Seq<(Seq<char>, Json)>) -> Seq<Seq<char>> {
    row.map_values(|e: (Seq<char>, Json)| e.0)
}

/// The attributes of a row: each member's name with its value, no name
/// twice.
pub struct CollectionToSerialize(Vec<(Vec<char>, JsonValue)>);

/// Whether no two members have one name.
pub open spec fn distinct_names(es: Seq<(Seq<char>, Json)>) -> bool {
    forall|i: int, j: int| 0 <= i < j < es.len() ==> (#[trigger] es[i]).0 != (#[trigger] es[j]).0
}

impl CollectionToSerialize {
    /// The members, in the order they were first inserted.
    pub closed spec fn entries(&self) -> Seq<(Seq<char>, Json)> {
        entries_view(self.0@)
    }

    #[verifier::type_invariant]
    closed spec fn inv(&self) -> bool {
        distinct_names(entries_view(self.0@))
    }

    /// No member.
    pub fn new() -> (r: Self)
        ensures
            r.entries().len() == 0,
    {
        let r = CollectionToSerialize(Vec::new());
        proof {
            assert(entries_view(r.0@).len() == 0);
        }
        r
    }

    /// Sets member `name` to `value`: where the name is held, its value is
    /// replaced in place and the old value handed back; otherwise the member
    /// is added last.
    pub fn insert(&mut self, name: Vec<char>, value: JsonValue) -> (r: Option<JsonValue>)
        ensures
            match r {
                Some(old_value) => exists|k: int|
                    0 <= k < old(self).entries().len() && #[trigger] old(self).entries()[k].0 == name@
                        && old_value@ == old(self).entries()[k].1 && final(self).entries() == old(
                        self,
                    ).entries().update(k, (name@, value@)),
                None => (forall|k: int| 0 <= k < old(self).entries().len() ==> #[trigger] old(self).entries()[k].0 != name@)
                    && final(self).entries() == old(self).entries().push((name@, value@)),
            },
    {
        proof {
            use_type_invariant(&*self);
        }
        let ghost ev = entries_view(self.0@);
        let mut es: Vec<(Vec<char>, JsonValue)> = Vec::new();
        std::mem::swap(&mut es, &mut self.0);
        let mut i: usize = 0;
        while i < es.len()
            invariant
                i <= es@.len(),
                ev == entries_view(es@),
                ev == old(self).entries(),
                distinct_names(ev),
                forall|k: int| 0 <= k < i ==> (#[trigger] ev[k]).0 != name@,
            decreases es@.len() - i,
        {
            if chars_eq(&es[i].0, &name) {
                let ghost nv = value@;
                let ghost nm = name@;
                let ghost ov = es@[i as int].1@;
                let (_, old_value) = es.remove(i);
                es.insert(i, (name, value));
                proof {
                    assert(entries_view(es@) =~= ev.update(i as int, (ev[i as int].0, nv)));
                    assert forall|p: int, q: int| 0 <= p < q < entries_view(es@).len() implies
                        (#[trigger] entries_view(es@)[p]).0 != (#[trigger] entries_view(es@)[q]).0 by {
                        assert(ev[p].0 != ev[q].0);
                    }
                }
                self.0 = es;
                proof {
                    assert(old_value@ == ov);
                    assert(ev == old(self).entries());
                    assert(old(self).entries()[i as int].0 == nm);
                    assert(self.entries() == old(self).entries().update(i as int, (nm, nv)));
                }
                return Some(old_value);
            }
            i = i + 1;
        }
        let ghost nv = (name@, value@);
        es.push((name, value));
        proof {
            assert(entries_view(es@) =~= ev.push(nv));
            assert forall|p: int, q: int| 0 <= p < q < entries_view(es@).len() implies
                (#[trigger] entries_view(es@)[p]).0 != (#[trigger] entries_view(es@)[q]).0 by {
                if q < ev.len() {
                    assert(ev[p].0 != ev[q].0);
                } else {
                    assert(ev[p].0 != name@);
                }
            }
        }
        self.0 = es;
        None
    }

    /// The value of member `name`, if it is held.
    pub fn get(&self, name: &Vec<char>) -> (r: Option<&JsonValue>)
        ensures
            match r {
                Some(v) => lookup_key(self.entries(), name@) == Some(v@),
                None => lookup_key(self.entries(), name@) is None,
            },
    {
        get_member_chars(&self.0, name)
    }

    /// The attributes as an object whose members are ordered by name.
    pub fn serialize(&self) -> (r: JsonValue)
        ensures
            r@ == row_object(self.entries(), sorted_keys(entry_names(self.entries()))),
    {
        let ghost ev = entries_view(self.0@);
        let mut keys: Vec<Vec<char>> = Vec::new();
        let mut i: usize = 0;
        while i < self.0.len()
            invariant
                i <= self.0@.len(),
                ev == entries_view(self.0@),
                keys@.len() == i,
                forall|k: int| 0 <= k < i ==> (#[trigger] keys@[k])@ == ev[k].0,
            decreases self.0@.len() - i,
        {
            keys.push(copy_chars(&self.0[i].0));
            i = i + 1;
        }
        proof {
            assert(names_view(keys@) =~= entry_names(ev));
        }
        let sorted = sort_names(&keys);
        proof {
            broadcast use vstd::seq_lib::to_multiset_contains;
            assert forall|k: int| 0 <= k < sorted@.len() implies lookup_key(ev, (#[trigger] sorted@[k])@) is Some by {
                let x = sorted@[k]@;
                assert(names_view(sorted@)[k] == x);
                assert(names_view(sorted@).contains(x));
                assert(names_view(sorted@).to_multiset().count(x) > 0);
                assert(entry_names(ev).contains(x));
                let j = choose|j: int| 0 <= j < entry_names(ev).len() && entry_names(ev)[j] == x;
                crate::statements::lemma_lookup_some(ev, x, j);
            }
        }
        serialize_dynamic_row(&self.0, &sorted)
    }
}

} // verus!
