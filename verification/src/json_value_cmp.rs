//! JSON patterns: values that may leave parts out of the comparison, for
//! checking a JSON value against what is expected of it.
use vstd::prelude::*;
use crate::json::{Json, JsonValue};
use crate::values::{entries_view, get_member_chars, lemma_array_view, lemma_lookup_skip, lemma_object_view, lookup_key};
use crate::text::copy_chars;

verus! {

/// A JSON value to compare others with; `NoComp` matches anything.
pub enum Value {
    NoComp,
    Null,
    Bool(bool),
    Int(i64),
    /// A number that is not a whole `i64`, by its text.
    Number(Vec<char>),
    String(Vec<char>),
    Array(Vec<Value>),
    /// Members by name; a pattern names each member once.
    Object(Vec<(Vec<char>, Value)>),
}

/// Whether `v` matches the pattern `p`: `NoComp` matches anything, a
/// scalar matches the same scalar, an array matches an array of the same
/// length whose items match in order, an object matches an object with as
/// many members in which each member of the pattern is found and matches.
pub open spec fn pattern_matches(p: Value, v: Json) -> bool
    decreases p, 1nat,
{
    match p {
        Value::NoComp => true,
        Value::Null => v is Null,
        Value::Bool(b) => v == Json::Bool(b),
        Value::Int(i) => v == Json::Int(i as int),
        Value::Number(t) => v == Json::Number(t@),
        Value::String(s) => v == Json::Str(s@),
        Value::Array(ps) => match v {
            Json::Array(vs) => ps@.len() == vs.len() && {
                proof {
                    assert(decreases_to!(ps => ps@));
                }
                items_match(ps@, vs)
            },
            _ => false,
        },
        Value::Object(es) => match v {
            Json::Object(os) => es@.len() == os.len() && {
                proof {
                    assert(decreases_to!(es => es@));
                }
                members_match(es@, os)
            },
            _ => false,
        },
    }
}

/// Whether the values match the patterns, item by item (the two lists
/// being of the same length).
pub open spec fn items_match(ps: Seq<Value>, vs: Seq<Json>) -> bool
    decreases ps, 0nat,
{
    if ps.len() == 0 || vs.len() != ps.len() {
        ps.len() == vs.len()
    } else {
        let k = ps.len() - 1;
        proof {
            assert(decreases_to!(ps => ps[k]));
        }
        items_match(ps.subrange(0, k), vs.subrange(0, k)) && pattern_matches(ps[k], vs[k])
    }
}

/// Whether each member of the pattern is found among the members and
/// matches the first member of that name.
pub open spec fn members_match(es: Seq<(Vec<char>, Value)>, os: Seq<(Seq<char>, Json)>) -> bool
    decreases es, 0nat,
{
    if es.len() == 0 {
        true
    } else {
        let k = es.len() - 1;
        proof {
            assert(decreases_to!(es => es[k]));
            assert(decreases_to!(es[k] => es[k].1));
        }
        members_match(es.subrange(0, k), os) && match lookup_key(os, es[k].0@) {
            Some(x) => pattern_matches(es[k].1, x),
            None => false,
        }
    }
}

/// Items match where each prefix matches and the next item does.
proof fn lemma_items_match_step(ps: Seq<Value>, vs: Seq<Json>, i: int)
    requires
        0 <= i < ps.len(),
        ps.len() == vs.len(),
    ensures
        items_match(ps.take(i + 1), vs.take(i + 1)) == (items_match(ps.take(i), vs.take(i))
            && pattern_matches(ps[i], vs[i])),
{
    assert(ps.take(i + 1).subrange(0, i) =~= ps.take(i));
    assert(vs.take(i + 1).subrange(0, i) =~= vs.take(i));
}

/// A list of items that matches has every prefix matching.
proof fn lemma_items_match_prefix(ps: Seq<Value>, vs: Seq<Json>, i: int)
    requires
        0 <= i <= ps.len(),
        ps.len() == vs.len(),
        items_match(ps, vs),
    ensures
        items_match(ps.take(i), vs.take(i)),
    decreases ps.len() - i,
{
    if i < ps.len() {
        lemma_items_match_prefix(ps, vs, i + 1);
        lemma_items_match_step(ps, vs, i);
    } else {
        assert(ps.take(i) =~= ps);
        assert(vs.take(i) =~= vs);
    }
}

/// Members match where each prefix matches and the next member does.
proof fn lemma_members_match_step(es: Seq<(Vec<char>, Value)>, os: Seq<(Seq<char>, Json)>, i: int)
    requires
        0 <= i < es.len(),
    ensures
        members_match(es.take(i + 1), os) == (members_match(es.take(i), os) && match lookup_key(
            os,
            es[i].0@,
        ) {
            Some(x) => pattern_matches(es[i].1, x),
            None => false,
        }),
{
    assert(es.take(i + 1).subrange(0, i) =~= es.take(i));
}

/// Members that match have every prefix matching.
proof fn lemma_members_match_prefix(es: Seq<(Vec<char>, Value)>, os: Seq<(Seq<char>, Json)>, i: int)
    requires
        0 <= i <= es.len(),
        members_match(es, os),
    ensures
        members_match(es.take(i), os),
    decreases es.len() - i,
{
    if i < es.len() {
        lemma_members_match_prefix(es, os, i + 1);
        lemma_members_match_step(es, os, i);
    } else {
        assert(es.take(i) =~= es);
    }
}

impl Value {
    /// Whether `other` matches this pattern.
    pub fn eq(&self, other: &JsonValue) -> (r: bool)
        ensures
            r == pattern_matches(*self, other@),
        decreases self,
    {
        match self {
            Value::NoComp => true,
            Value::Null => match other {
                JsonValue::Null => true,
                _ => false,
            },
            Value::Bool(b) => match other {
                JsonValue::Bool(c) => *b == *c,
                _ => false,
            },
            Value::Int(i) => match other {
                JsonValue::Int(j) => *i == *j,
                _ => false,
            },
            Value::Number(t) => match other {
                JsonValue::Number(u) => crate::text::chars_eq(t, u),
                _ => false,
            },
            Value::String(t) => match other {
                JsonValue::Str(u) => crate::text::chars_eq(t, u),
                _ => false,
            },
            Value::Array(ps) => {
                let vs = match other {
                    JsonValue::Array(vs) => vs,
                    _ => return false,
                };
                proof {
                    lemma_array_view(*vs);
                }
                let ghost vv = vs@.map_values(|v: JsonValue| v@);
                if ps.len() != vs.len() {
                    return false;
                }
                let mut i: usize = 0;
                proof {
                    assert(ps@.take(0) =~= Seq::<Value>::empty());
                    assert(vv.take(0) =~= Seq::<Json>::empty());
                }
                while i < ps.len()
                    invariant
                        i <= ps@.len(),
                        ps@.len() == vs@.len(),
                        vv == vs@.map_values(|v: JsonValue| v@),
                        *other == JsonValue::Array(*vs),
                        *self == Value::Array(*ps),
                        other@ == Json::Array(vv),
                        items_match(ps@.take(i as int), vv.take(i as int)),
                    decreases ps@.len() - i,
                {
                    proof {
                        assert(decreases_to!(*self => (*self)->Array_0));
                        assert(decreases_to!(*ps => ps@));
                        assert(decreases_to!(ps@ => ps@[i as int]));
                        lemma_items_match_step(ps@, vv, i as int);
                    }
                    if !ps[i].eq(&vs[i]) {
                        proof {
                            if items_match(ps@, vv) {
                                lemma_items_match_prefix(ps@, vv, i + 1);
                            }
                        }
                        return false;
                    }
                    i = i + 1;
                }
                proof {
                    assert(ps@.take(ps@.len() as int) =~= ps@);
                    assert(vv.take(ps@.len() as int) =~= vv);
                }
                true
            },
            Value::Object(es) => {
                let os = match other {
                    JsonValue::Object(os) => os,
                    _ => return false,
                };
                proof {
                    lemma_object_view(*os);
                }
                let ghost ov = entries_view(os@);
                if es.len() != os.len() {
                    return false;
                }
                let mut i: usize = 0;
                proof {
                    assert(es@.take(0) =~= Seq::<(Vec<char>, Value)>::empty());
                }
                while i < es.len()
                    invariant
                        i <= es@.len(),
                        es@.len() == ov.len(),
                        ov == entries_view(os@),
                        *other == JsonValue::Object(*os),
                        *self == Value::Object(*es),
                        other@ == Json::Object(ov),
                        members_match(es@.take(i as int), ov),
                    decreases es@.len() - i,
                {
                    proof {
                        assert(decreases_to!(*self => (*self)->Object_0));
                        assert(decreases_to!(*es => es@));
                        assert(decreases_to!(es@ => es@[i as int]));
                        assert(decreases_to!(es@[i as int] => es@[i as int].1));
                        lemma_members_match_step(es@, ov, i as int);
                    }
                    let ok = match get_member_chars(os, &es[i].0) {
                        Some(x) => es[i].1.eq(x),
                        None => false,
                    };
                    if !ok {
                        proof {
                            if members_match(es@, ov) {
                                lemma_members_match_prefix(es@, ov, i + 1);
                            }
                        }
                        return false;
                    }
                    i = i + 1;
                }
                proof {
                    assert(es@.take(es@.len() as int) =~= es@);
                }
                true
            },
        }
    }
}


/// Whether `p` is the value `v` itself, written as a pattern: no part left
/// out, arrays item by item, objects member by member in order.
pub open spec fn is_pattern_of(p: Value, v: Json) -> bool
    decreases p, 1nat,
{
    match p {
        Value::NoComp => false,
        Value::Null => v is Null,
        Value::Bool(b) => v == Json::Bool(b),
        Value::Int(i) => v == Json::Int(i as int),
        Value::Number(t) => v == Json::Number(t@),
        Value::String(s) => v == Json::Str(s@),
        Value::Array(ps) => match v {
            Json::Array(vs) => {
                proof {
                    assert(decreases_to!(ps => ps@));
                }
                patterns_of_items(ps@, vs)
            },
            _ => false,
        },
        Value::Object(es) => match v {
            Json::Object(os) => {
                proof {
                    assert(decreases_to!(es => es@));
                }
                patterns_of_members(es@, os)
            },
            _ => false,
        },
    }
}

/// Whether the patterns are the items, one for one.
pub open spec fn patterns_of_items(ps: Seq<Value>, vs: Seq<Json>) -> bool
    decreases ps, 0nat,
{
    ps.len() == vs.len() && forall|k: int| 0 <= k < ps.len() ==> is_pattern_of(#[trigger] ps[k], vs[k])
}

/// Whether the pattern members are the members, one for one and in order.
pub open spec fn patterns_of_members(es: Seq<(Vec<char>, Value)>, os: Seq<(Seq<char>, Json)>) -> bool
    decreases es, 0nat,
{
    es.len() == os.len() && forall|k: int|
        0 <= k < es.len() ==> (#[trigger] es[k]).0@ == os[k].0 && is_pattern_of(es[k].1, os[k].1)
}

/// Whether no object inside `v`, `v` included, has two members of one name.
pub open spec fn distinct_keys(v: Json) -> bool
    decreases v,
{
    match v {
        Json::Array(items) => forall|k: int| 0 <= k < items.len() ==> distinct_keys(#[trigger] items[k]),
        Json::Object(os) => {
            &&& forall|a: int, b: int| 0 <= a < b < os.len() ==> (#[trigger] os[a]).0 != (#[trigger] os[b]).0
            &&& forall|k: int| 0 <= k < os.len() ==> distinct_keys(#[trigger] os[k].1)
        },
        _ => true,
    }
}

/// A value matches the pattern written from it, where none of its objects
/// names a member twice.
pub proof fn value_matches_its_own_pattern(p: Value, v: Json)
    requires
        is_pattern_of(p, v),
        distinct_keys(v),
    ensures
        pattern_matches(p, v),
    decreases p, 1nat, 0int,
{
    match p {
        Value::Array(ps) => {
            assert(decreases_to!(ps => ps@));
            let vs = v->Array_0;
            lemma_items_match_patterns(ps@, vs, ps@.len() as int);
            assert(ps@.subrange(0, ps@.len() as int) =~= ps@);
            assert(vs.subrange(0, vs.len() as int) =~= vs);
        },
        Value::Object(es) => {
            assert(decreases_to!(es => es@));
            let os = v->Object_0;
            lemma_members_match_patterns(es@, os, es@.len() as int);
            assert(es@.subrange(0, es@.len() as int) =~= es@);
        },
        _ => {},
    }
}

/// The first `n` items match the patterns written from them.
proof fn lemma_items_match_patterns(ps: Seq<Value>, vs: Seq<Json>, n: int)
    requires
        0 <= n <= ps.len(),
        patterns_of_items(ps, vs),
        forall|k: int| 0 <= k < vs.len() ==> distinct_keys(#[trigger] vs[k]),
    ensures
        items_match(ps.subrange(0, n), vs.subrange(0, n)),
    decreases ps, 0nat, n,
{
    if n > 0 {
        lemma_items_match_patterns(ps, vs, n - 1);
        let k = n - 1;
        assert(ps.subrange(0, n).subrange(0, k) =~= ps.subrange(0, k));
        assert(vs.subrange(0, n).subrange(0, k) =~= vs.subrange(0, k));
        assert(is_pattern_of(ps[k], vs[k]));
        assert(distinct_keys(vs[k]));
        value_matches_its_own_pattern(ps[k], vs[k]);
        assert(ps.subrange(0, n)[k] == ps[k]);
        assert(vs.subrange(0, n)[k] == vs[k]);
    }
}

/// In an object whose names are distinct, each member is the one found
/// under its name.
proof fn lemma_lookup_distinct(os: Seq<(Seq<char>, Json)>, k: int)
    requires
        0 <= k < os.len(),
        forall|a: int, b: int| 0 <= a < b < os.len() ==> (#[trigger] os[a]).0 != (#[trigger] os[b]).0,
    ensures
        lookup_key(os, os[k].0) == Some(os[k].1),
{
    assert forall|m: int| 0 <= m < k implies (#[trigger] os[m]).0 != os[k].0 by {
        assert(os[m].0 != os[k].0);
    }
    lemma_lookup_skip(os, os[k].0, k);
    assert(os.skip(k)[0] == os[k]);
}

/// The first `n` pattern members find and match the members written from.
proof fn lemma_members_match_patterns(es: Seq<(Vec<char>, Value)>, os: Seq<(Seq<char>, Json)>, n: int)
    requires
        0 <= n <= es.len(),
        patterns_of_members(es, os),
        forall|a: int, b: int| 0 <= a < b < os.len() ==> (#[trigger] os[a]).0 != (#[trigger] os[b]).0,
        forall|k: int| 0 <= k < os.len() ==> distinct_keys(#[trigger] os[k].1),
    ensures
        members_match(es.subrange(0, n), os),
    decreases es, 0nat, n,
{
    if n > 0 {
        lemma_members_match_patterns(es, os, n - 1);
        let k = n - 1;
        assert(es.subrange(0, n).subrange(0, k) =~= es.subrange(0, k));
        assert(es[k].0@ == os[k].0 && is_pattern_of(es[k].1, os[k].1));
        assert(distinct_keys(os[k].1));
        lemma_lookup_distinct(os, k);
        assert(decreases_to!(es => es[k]));
        assert(decreases_to!(es[k] => es[k].1));
        value_matches_its_own_pattern(es[k].1, os[k].1);
        assert(es.subrange(0, n)[k] == es[k]);
    }
}

impl Value {
    /// The value itself as a pattern.
    pub fn from(value: JsonValue) -> (r: Value)
        ensures
            is_pattern_of(r, value@),
    {
        Value::from_ref(&value)
    }

    /// The value itself as a pattern, leaving the value in place.
    pub fn from_ref(value: &JsonValue) -> (r: Value)
        ensures
            is_pattern_of(r, value@),
        decreases value,
    {
        match value {
            JsonValue::Null => Value::Null,
            JsonValue::Bool(b) => Value::Bool(*b),
            JsonValue::Int(i) => Value::Int(*i),
            JsonValue::Number(t) => Value::Number(copy_chars(t)),
            JsonValue::Str(t) => Value::String(copy_chars(t)),
            JsonValue::Array(vs) => {
                proof {
                    lemma_array_view(*vs);
                }
                let ghost vv = vs@.map_values(|v: JsonValue| v@);
                let mut ps: Vec<Value> = Vec::new();
                let mut i: usize = 0;
                while i < vs.len()
                    invariant
                        i <= vs@.len(),
                        ps@.len() == i,
                        vv == vs@.map_values(|v: JsonValue| v@),
                        *value == JsonValue::Array(*vs),
                        value@ == Json::Array(vv),
                        forall|k: int| 0 <= k < i ==> is_pattern_of(#[trigger] ps@[k], vv[k]),
                    decreases vs@.len() - i,
                {
                    proof {
                        assert(decreases_to!(*value => (*value)->Array_0));
                        assert(decreases_to!(*vs => vs@));
                        assert(decreases_to!(vs@ => vs@[i as int]));
                    }
                    let p = Value::from_ref(&vs[i]);
                    ps.push(p);
                    i = i + 1;
                }
                let r = Value::Array(ps);
                proof {
                    assert(patterns_of_items(ps@, vv));
                }
                r
            },
            JsonValue::Object(os) => {
                proof {
                    lemma_object_view(*os);
                }
                let ghost ov = entries_view(os@);
                let mut es: Vec<(Vec<char>, Value)> = Vec::new();
                let mut i: usize = 0;
                while i < os.len()
                    invariant
                        i <= os@.len(),
                        es@.len() == i,
                        ov == entries_view(os@),
                        *value == JsonValue::Object(*os),
                        value@ == Json::Object(ov),
                        forall|k: int|
                            0 <= k < i ==> (#[trigger] es@[k]).0@ == ov[k].0 && is_pattern_of(es@[k].1, ov[k].1),
                    decreases os@.len() - i,
                {
                    proof {
                        assert(decreases_to!(*value => (*value)->Object_0));
                        assert(decreases_to!(*os => os@));
                        assert(decreases_to!(os@ => os@[i as int]));
                        assert(decreases_to!(os@[i as int] => os@[i as int].1));
                    }
                    let name = copy_chars(&os[i].0);
                    let p = Value::from_ref(&os[i].1);
                    es.push((name, p));
                    i = i + 1;
                }
                let r = Value::Object(es);
                proof {
                    assert(patterns_of_members(es@, ov));
                }
                r
            },
        }
    }
}

/// A scalar pattern matches one value only, the same scalar: `null` the
/// null value, a truth value, integer, number or string that same value
/// (a number by its text), so no two different values match one scalar
/// pattern.
pub proof fn scalar_patterns_match_one_value(p: Value, v: Json, w: Json)
    requires
        !(p is NoComp),
        !(p is Array),
        !(p is Object),
    ensures
        pattern_matches(p, v) && pattern_matches(p, w) ==> v == w,
        match p {
            Value::Null => pattern_matches(p, Json::Null),
            Value::Bool(b) => pattern_matches(p, Json::Bool(b)),
            Value::Int(i) => pattern_matches(p, Json::Int(i as int)),
            Value::Number(t) => pattern_matches(p, Json::Number(t@)),
            Value::String(t) => pattern_matches(p, Json::Str(t@)),
            _ => true,
        },
{
}

} // verus!
