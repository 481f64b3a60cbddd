//! The JSON value model that requests and responses are made of, and its
//! compact text form.
use vstd::prelude::*;
use crate::text::push_char;

verus! {

/// The mathematical form of a JSON value: what a `JsonValue` holds.
pub enum Json {
    Null,
    Bool(bool),
    Int(int),
    Number(Seq<char>),
    Str(Seq<char>),
    Array(Seq<Json>),
    Object(Seq<(Seq<char>, Json)>),
}

/// A JSON value. Numbers that are whole and fit in an `i64` are `Int`;
/// every other number keeps the text it was written with.
#[derive(Debug, PartialEq)]
pub enum JsonValue {
    Null,
    Bool(bool),
    Int(i64),
    Number(Vec<char>),
    Str(Vec<char>),
    Array(Vec<JsonValue>),
    Object(Vec<(Vec<char>, JsonValue)>),
}

impl JsonValue {
    /// The value as a `Json`.
    pub open spec fn json(&self) -> Json
        decreases self,
    {
        match self {
            JsonValue::Null => Json::Null,
            JsonValue::Bool(b) => Json::Bool(*b),
            JsonValue::Int(i) => Json::Int(*i as int),
            JsonValue::Number(t) => Json::Number(t@),
            JsonValue::Str(t) => Json::Str(t@),
            JsonValue::Array(items) => Json::Array(
                Seq::new(
                    items@.len(),
                    |i: int|
                        if 0 <= i < items@.len() {
                            items@[i].json()
                        } else {
                            Json::Null
                        },
                ),
            ),
            JsonValue::Object(entries) => Json::Object(
                Seq::new(
                    entries@.len(),
                    |i: int|
                        if 0 <= i < entries@.len() {
                            (entries@[i].0@, entries@[i].1.json())
                        } else {
                            (Seq::empty(), Json::Null)
                        },
                ),
            ),
        }
    }
}

impl View for JsonValue {
    type V = Json;

    open spec fn view(&self) -> Json {
        self.json()
    }
}

/// The decimal digit for `d` (which must be below ten).
pub open spec fn digit_char(d: nat) -> char {
    if d == 0 { '0' } else if d == 1 { '1' } else if d == 2 { '2' } else if d == 3 { '3' }
    else if d == 4 { '4' } else if d == 5 { '5' } else if d == 6 { '6' } else if d == 7 { '7' }
    else if d == 8 { '8' } else { '9' }
}

/// Decimal text of a natural number, without leading zeros.
pub open spec fn nat_text(n: nat) -> Seq<char>
    decreases n,
{
    if n < 10 {
        seq![digit_char(n)]
    } else {
        nat_text(n / 10).push(digit_char(n % 10))
    }
}

/// Decimal text of an integer, with a leading `-` when negative.
pub open spec fn int_text(i: int) -> Seq<char> {
    if i < 0 {
        seq!['-'] + nat_text((-i) as nat)
    } else {
        nat_text(i as nat)
    }
}

/// The hexadecimal digit for `d` (below sixteen), in lower case.
pub open spec fn hex_char(d: nat) -> char {
    if d < 10 { digit_char(d) } else if d == 10 { 'a' } else if d == 11 { 'b' } else if d == 12 { 'c' }
    else if d == 13 { 'd' } else if d == 14 { 'e' } else { 'f' }
}

/// How one character of a string is written inside JSON quotes.
pub open spec fn escaped_char(c: char) -> Seq<char> {
    if c == '"' {
        seq!['\\', '"']
    } else if c == '\\' {
        seq!['\\', '\\']
    } else if c == '\n' {
        seq!['\\', 'n']
    } else if c == '\r' {
        seq!['\\', 'r']
    } else if c == '\t' {
        seq!['\\', 't']
    } else if (c as u32) < 0x20 {
        seq!['\\', 'u', '0', '0', hex_char(((c as u32) / 16) as nat), hex_char(((c as u32) % 16) as nat)]
    } else {
        seq![c]
    }
}

/// All characters of `s`, escaped.
pub open spec fn escaped(s: Seq<char>) -> Seq<char>
    decreases s.len(),
{
    if s.len() == 0 {
        Seq::empty()
    } else {
        escaped(s.drop_last()) + escaped_char(s.last())
    }
}

/// A JSON string literal holding `s`.
pub open spec fn string_text(s: Seq<char>) -> Seq<char> {
    seq!['"'] + escaped(s) + seq!['"']
}

/// The compact text of a JSON value: no whitespace, members in the order held.
pub open spec fn json_text(v: Json) -> Seq<char>
    decreases v, 0nat,
{
    match v {
        Json::Null => seq!['n', 'u', 'l', 'l'],
        Json::Bool(b) => if b { seq!['t', 'r', 'u', 'e'] } else { seq!['f', 'a', 'l', 's', 'e'] },
        Json::Int(i) => int_text(i),
        Json::Number(t) => t,
        Json::Str(s) => string_text(s),
        Json::Array(items) => seq!['['] + items_text(items) + seq![']'],
        Json::Object(entries) => seq!['{'] + entries_text(entries) + seq!['}'],
    }
}

/// The elements of an array, separated by commas.
pub open spec fn items_text(items: Seq<Json>) -> Seq<char>
    decreases items, 1nat,
{
    if items.len() == 0 {
        Seq::empty()
    } else if items.len() == 1 {
        json_text(items[0])
    } else {
        items_text(items.subrange(0, items.len() - 1)) + seq![','] + json_text(items[items.len() - 1])
    }
}

/// One member of an object: the key as a string literal, a colon, the value.
pub open spec fn entry_text(e: (Seq<char>, Json)) -> Seq<char>
    decreases e, 0nat,
{
    string_text(e.0) + seq![':'] + json_text(e.1)
}

/// The members of an object, separated by commas.
pub open spec fn entries_text(entries: Seq<(Seq<char>, Json)>) -> Seq<char>
    decreases entries, 1nat,
{
    if entries.len() == 0 {
        Seq::empty()
    } else if entries.len() == 1 {
        entry_text(entries[0])
    } else {
        entries_text(entries.subrange(0, entries.len() - 1)) + seq![','] + entry_text(
            entries[entries.len() - 1],
        )
    }
}


/// Appends the decimal text of `n`.
pub fn write_nat(n: u128, out: &mut String)
    ensures
        final(out)@ == old(out)@ + nat_text(n as nat),
    decreases n,
{
    if n < 10 {
        push_char(out, digit_of(n as u64));
    } else {
        write_nat(n / 10, out);
        push_char(out, digit_of((n % 10) as u64));
    }
}

/// The decimal digit character for `d`.
pub fn digit_of(d: u64) -> (c: char)
    requires
        d < 10,
    ensures
        c == digit_char(d as nat),
{
    if d == 0 { '0' } else if d == 1 { '1' } else if d == 2 { '2' } else if d == 3 { '3' }
    else if d == 4 { '4' } else if d == 5 { '5' } else if d == 6 { '6' } else if d == 7 { '7' }
    else if d == 8 { '8' } else { '9' }
}

/// The hexadecimal digit character for `d`.
pub fn hex_of(d: u32) -> (c: char)
    requires
        d < 16,
    ensures
        c == hex_char(d as nat),
{
    if d < 10 { digit_of(d as u64) } else if d == 10 { 'a' } else if d == 11 { 'b' }
    else if d == 12 { 'c' } else if d == 13 { 'd' } else if d == 14 { 'e' } else { 'f' }
}

/// Appends the decimal text of `i`.
pub fn write_int(i: i64, out: &mut String)
    ensures
        final(out)@ == old(out)@ + int_text(i as int),
{
    if i < 0 {
        push_char(out, '-');
        let m: u64 = if i == i64::MIN { 9223372036854775808u64 } else { (-i) as u64 };
        let ghost mid = out@;
        write_nat(m as u128, out);
        proof {
            assert(out@ == old(out)@ + (seq!['-'] + nat_text((-(i as int)) as nat)));
        }
    } else {
        write_nat(i as u128, out);
    }
}

/// Appends one character as it is written inside a JSON string.
pub fn write_escaped_char(c: char, out: &mut String)
    ensures
        final(out)@ == old(out)@ + escaped_char(c),
{
    if c == '"' {
        push_char(out, '\\');
        push_char(out, '"');
    } else if c == '\\' {
        push_char(out, '\\');
        push_char(out, '\\');
    } else if c == '\n' {
        push_char(out, '\\');
        push_char(out, 'n');
    } else if c == '\r' {
        push_char(out, '\\');
        push_char(out, 'r');
    } else if c == '\t' {
        push_char(out, '\\');
        push_char(out, 't');
    } else if (c as u32) < 0x20 {
        push_char(out, '\\');
        push_char(out, 'u');
        push_char(out, '0');
        push_char(out, '0');
        push_char(out, hex_of((c as u32) / 16));
        push_char(out, hex_of((c as u32) % 16));
    } else {
        push_char(out, c);
    }
    proof {
        assert(out@ =~= old(out)@ + escaped_char(c));
    }
}

/// Appends `s` as a JSON string literal.
pub fn write_string(s: &Vec<char>, out: &mut String)
    ensures
        final(out)@ == old(out)@ + string_text(s@),
{
    push_char(out, '"');
    let ghost start = out@;
    let mut i: usize = 0;
    while i < s.len()
        invariant
            i <= s.len(),
            out@ == start + escaped(s@.take(i as int)),
        decreases s.len() - i,
    {
        proof {
            assert(s@.take(i + 1).drop_last() =~= s@.take(i as int));
        }
        write_escaped_char(s[i], out);
        proof {
            assert(out@ =~= start + escaped(s@.take(i + 1)));
        }
        i = i + 1;
    }
    push_char(out, '"');
    proof {
        assert(s@.take(s@.len() as int) =~= s@);
        assert(out@ =~= old(out)@ + string_text(s@));
    }
}


/// Appends the compact text of `v`.
pub fn write_json(v: &JsonValue, out: &mut String)
    ensures
        final(out)@ == old(out)@ + json_text(v@),
    decreases v,
{
    match v {
        JsonValue::Null => {
            push_char(out, 'n');
            push_char(out, 'u');
            push_char(out, 'l');
            push_char(out, 'l');
            proof {
                assert(out@ =~= old(out)@ + json_text(v@));
            }
        },
        JsonValue::Bool(b) => {
            if *b {
                push_char(out, 't');
                push_char(out, 'r');
                push_char(out, 'u');
                push_char(out, 'e');
            } else {
                push_char(out, 'f');
                push_char(out, 'a');
                push_char(out, 'l');
                push_char(out, 's');
                push_char(out, 'e');
            }
            proof {
                assert(out@ =~= old(out)@ + json_text(v@));
            }
        },
        JsonValue::Int(i) => {
            write_int(*i, out);
        },
        JsonValue::Number(t) => {
            let ghost start = out@;
            let mut i: usize = 0;
            while i < t.len()
                invariant
                    i <= t.len(),
                    out@ == start + t@.take(i as int),
                decreases t.len() - i,
            {
                push_char(out, t[i]);
                i = i + 1;
                proof {
                    assert(out@ =~= start + t@.take(i as int));
                }
            }
            proof {
                assert(t@.take(t@.len() as int) =~= t@);
            }
        },
        JsonValue::Str(t) => {
            write_string(t, out);
        },
        JsonValue::Array(items) => {
            push_char(out, '[');
            let ghost start = out@;
            let mut i: usize = 0;
            while i < items.len()
                invariant
                    i <= items.len(),
                    out@ == start + items_text(v@->Array_0.take(i as int)),
                    *v == JsonValue::Array(*items),
                    v@->Array_0.len() == items@.len(),
                    forall|k: int| 0 <= k < items@.len() ==> v@->Array_0[k] == #[trigger] items@[k]@,
                decreases items.len() - i,
            {
                let ghost before = out@;
                if i > 0 {
                    push_char(out, ',');
                }
                proof {
                    assert(decreases_to!(*v => (*v)->Array_0));
                    assert(decreases_to!(*items => items@));
                    assert(decreases_to!(items@ => items@[i as int]));
                }
                write_json(&items[i], out);
                proof {
                    let t = v@->Array_0.take(i + 1);
                    assert(t.subrange(0, t.len() - 1) =~= v@->Array_0.take(i as int));
                    assert(t[t.len() - 1] == items@[i as int]@);
                    assert(out@ =~= start + items_text(t));
                }
                i = i + 1;
            }
            push_char(out, ']');
            proof {
                assert(v@->Array_0.take(items@.len() as int) =~= v@->Array_0);
                assert(out@ =~= old(out)@ + json_text(v@));
            }
        },
        JsonValue::Object(entries) => {
            push_char(out, '{');
            let ghost start = out@;
            let mut i: usize = 0;
            while i < entries.len()
                invariant
                    i <= entries.len(),
                    out@ == start + entries_text(v@->Object_0.take(i as int)),
                    *v == JsonValue::Object(*entries),
                    v@->Object_0.len() == entries@.len(),
                    forall|k: int|
                        0 <= k < entries@.len() ==> v@->Object_0[k] == (
                        #[trigger] entries@[k].0@,
                        entries@[k].1@,
                    ),
                decreases entries.len() - i,
            {
                if i > 0 {
                    push_char(out, ',');
                }
                let ghost mid = out@;
                write_string(&entries[i].0, out);
                push_char(out, ':');
                proof {
                    assert(decreases_to!(*v => (*v)->Object_0));
                    assert(decreases_to!(*entries => entries@));
                    assert(decreases_to!(entries@ => entries@[i as int]));
                    assert(decreases_to!(entries@[i as int] => entries@[i as int].1));
                }
                write_json(&entries[i].1, out);
                proof {
                    let t = v@->Object_0.take(i + 1);
                    assert(t.subrange(0, t.len() - 1) =~= v@->Object_0.take(i as int));
                    assert(t[t.len() - 1] == (entries@[i as int].0@, entries@[i as int].1@));
                    assert(out@ =~= mid + entry_text(t[t.len() - 1]));
                    assert(out@ =~= start + entries_text(t));
                }
                i = i + 1;
            }
            push_char(out, '}');
            proof {
                assert(v@->Object_0.take(entries@.len() as int) =~= v@->Object_0);
                assert(out@ =~= old(out)@ + json_text(v@));
            }
        },
    }
}

/// The compact text of `v` as a new `String`.
pub fn to_json_string(v: &JsonValue) -> (s: String)
    ensures
        s@ == json_text(v@),
{
    let mut s = String::new();
    write_json(v, &mut s);
    proof {
        assert(s@ =~= json_text(v@));
    }
    s
}


/// A copy of `v`.
pub fn clone_json(v: &JsonValue) -> (r: JsonValue)
    ensures
        r@ == v@,
    decreases v,
{
    match v {
        JsonValue::Null => JsonValue::Null,
        JsonValue::Bool(b) => JsonValue::Bool(*b),
        JsonValue::Int(i) => JsonValue::Int(*i),
        JsonValue::Number(t) => JsonValue::Number(crate::text::copy_chars(t)),
        JsonValue::Str(t) => JsonValue::Str(crate::text::copy_chars(t)),
        JsonValue::Array(items) => {
            let mut r: Vec<JsonValue> = Vec::new();
            let mut i: usize = 0;
            while i < items.len()
                invariant
                    i <= items.len(),
                    r@.len() == i,
                    forall|k: int| 0 <= k < i ==> #[trigger] r@[k]@ == items@[k]@,
                    *v == JsonValue::Array(*items),
                decreases items.len() - i,
            {
                proof {
                    assert(decreases_to!(*v => (*v)->Array_0));
                    assert(decreases_to!(*items => items@));
                    assert(decreases_to!(items@ => items@[i as int]));
                }
                let e = clone_json(&items[i]);
                r.push(e);

                i = i + 1;
            }
            let out = JsonValue::Array(r);
            proof {
                assert forall|k: int| 0 <= k < items@.len() implies out@->Array_0[k]
                    == v@->Array_0[k] by {
                    assert(r@[k]@ == items@[k]@);
                }
                assert(out@->Array_0 =~= v@->Array_0);
            }
            out
        },
        JsonValue::Object(entries) => {
            let mut r: Vec<(Vec<char>, JsonValue)> = Vec::new();
            let mut i: usize = 0;
            while i < entries.len()
                invariant
                    i <= entries.len(),
                    r@.len() == i,
                    forall|k: int|
                        0 <= k < i ==> #[trigger] r@[k].0@ == entries@[k].0@ && r@[k].1@
                            == entries@[k].1@,
                    *v == JsonValue::Object(*entries),
                decreases entries.len() - i,
            {
                proof {
                    assert(decreases_to!(*v => (*v)->Object_0));
                    assert(decreases_to!(*entries => entries@));
                    assert(decreases_to!(entries@ => entries@[i as int]));
                    assert(decreases_to!(entries@[i as int] => entries@[i as int].1));
                }
                let k = crate::text::copy_chars(&entries[i].0);
                let e = clone_json(&entries[i].1);
                r.push((k, e));

                i = i + 1;
            }
            let out = JsonValue::Object(r);
            proof {
                assert forall|k: int| 0 <= k < entries@.len() implies out@->Object_0[k]
                    == v@->Object_0[k] by {
                    assert(r@[k].0@ == entries@[k].0@);
                }
                assert(out@->Object_0 =~= v@->Object_0);
            }
            out
        },
    }
}

} // verus!
