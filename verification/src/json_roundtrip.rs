//! Reading back what is written: the text the client writes for a value
//! reads as that value again.
use vstd::prelude::*;
use crate::json::{
    Json, digit_char, entries_text, entry_text, escaped, escaped_char, hex_char, int_text, items_text, json_text,
    nat_text, string_text,
};
use crate::values::JsonScalar;
use crate::json_text::{
    digit_value, digits_end, digits_value, escape, hex4, hex_value, lemma_digits_end, lemma_skip_ws,
    lemma_string_chars_advances, is_digit, is_ws, items_at, members_at, next_start, number_at,
    number_extent, parse_text, skip_ws, string_chars, value_at, word_at,
};

verus! {

/// Whether `t` stands in `s` at `i`.
pub open spec fn text_at(s: Seq<char>, i: int, t: Seq<char>) -> bool {
    0 <= i && i + t.len() <= s.len() && s.subrange(i, i + t.len()) == t
}

/// A text standing somewhere has its characters there.
proof fn lemma_text_at_index(s: Seq<char>, i: int, t: Seq<char>, k: int)
    requires
        text_at(s, i, t),
        0 <= k < t.len(),
    ensures
        s[i + k] == t[k],
{
    assert(s.subrange(i, i + t.len())[k] == t[k]);
}

/// Two texts one after the other stand one after the other.
proof fn lemma_text_at_split(s: Seq<char>, i: int, a: Seq<char>, b: Seq<char>)
    requires
        text_at(s, i, a + b),
    ensures
        text_at(s, i, a),
        text_at(s, i + a.len(), b),
{
    assert(s.subrange(i, i + a.len()) =~= (a + b).subrange(0, a.len() as int));
    assert((a + b).subrange(0, a.len() as int) =~= a);
    assert(s.subrange(i + a.len(), i + a.len() + b.len()) =~= (a + b).subrange(a.len() as int, (a + b).len() as int));
    assert((a + b).subrange(a.len() as int, (a + b).len() as int) =~= b);
}

/// Escaping a text escapes its parts one after the other.
proof fn lemma_escaped_concat(a: Seq<char>, b: Seq<char>)
    ensures
        escaped(a + b) == escaped(a) + escaped(b),
    decreases b.len(),
{
    if b.len() == 0 {
        assert(a + b =~= a);
        assert(escaped(a) + escaped(b) =~= escaped(a));
    } else {
        lemma_escaped_concat(a, b.drop_last());
        assert((a + b).drop_last() =~= a + b.drop_last());
        assert((a + b).last() == b.last());
        assert(escaped(a) + escaped(b) =~= escaped(a) + escaped(b.drop_last()) + escaped_char(b.last()));
    }
}

/// The escaped text starts with the first character escaped.
proof fn lemma_escaped_first(x: Seq<char>)
    requires
        x.len() > 0,
    ensures
        escaped(x) == escaped_char(x[0]) + escaped(x.drop_first()),
{
    assert(x =~= seq![x[0]] + x.drop_first());
    lemma_escaped_concat(seq![x[0]], x.drop_first());
    let one = seq![x[0]];
    assert(one.drop_last() =~= Seq::<char>::empty());
    assert(one.last() == x[0]);
    assert(escaped(one.drop_last()) =~= Seq::<char>::empty());
    assert(escaped(one) == escaped(one.drop_last()) + escaped_char(one.last()));
    assert(escaped(one) =~= escaped_char(x[0]));
}

/// A hexadecimal digit reads as its value.
proof fn lemma_hex_char(d: nat)
    requires
        d < 16,
    ensures
        hex_value(hex_char(d)) == Some(d as int),
{
}

/// One escaped character reads as the character.
proof fn lemma_escaped_char_reads(s: Seq<char>, p: int, c: char, acc: Seq<char>)
    requires
        text_at(s, p, escaped_char(c)),
    ensures
        string_chars(s, p, acc) == string_chars(s, p + escaped_char(c).len(), acc.push(c)),
{
    let e = escaped_char(c);
    lemma_text_at_index(s, p, e, 0);
    if c == '"' || c == '\\' || c == '\n' || c == '\r' || c == '\t' {
        lemma_text_at_index(s, p, e, 1);
    } else if (c as u32) < 0x20 {
        lemma_text_at_index(s, p, e, 1);
        lemma_text_at_index(s, p, e, 2);
        lemma_text_at_index(s, p, e, 3);
        lemma_text_at_index(s, p, e, 4);
        lemma_text_at_index(s, p, e, 5);
        let u = c as u32;
        lemma_hex_char((u / 16) as nat);
        lemma_hex_char((u % 16) as nat);
        assert(hex4(s, p + 2) == Some(u as int));
        vstd::utf8::char_u32_cast(c, u);
        assert(((u as int) as u32) as char == c);
        assert(escape(s, p + 1) == Some((c, p + 6)));
    }
}

/// The escaped characters of `x` followed by a closing quote read as `x`.
proof fn lemma_string_reads(s: Seq<char>, p: int, x: Seq<char>, acc: Seq<char>)
    requires
        text_at(s, p, escaped(x) + seq!['"']),
    ensures
        string_chars(s, p, acc) == Some((acc + x, p + escaped(x).len() + 1)),
    decreases x.len(),
{
    if x.len() == 0 {
        assert(escaped(x) =~= Seq::<char>::empty());
        lemma_text_at_index(s, p, escaped(x) + seq!['"'], 0);
        assert(acc + x =~= acc);
    } else {
        lemma_escaped_first(x);
        let e = escaped_char(x[0]);
        let rest = escaped(x.drop_first());
        assert(escaped(x) + seq!['"'] =~= e + (rest + seq!['"']));
        lemma_text_at_split(s, p, e, rest + seq!['"']);
        lemma_escaped_char_reads(s, p, x[0], acc);
        lemma_string_reads(s, p + e.len(), x.drop_first(), acc.push(x[0]));
        assert(acc.push(x[0]) + x.drop_first() =~= acc + x);
    }
}

/// A string literal reads as its characters.
pub proof fn lemma_string_literal_reads(s: Seq<char>, i: int, x: Seq<char>)
    requires
        text_at(s, i, string_text(x)),
    ensures
        string_chars(s, i + 1, Seq::empty()) == Some((x, i + string_text(x).len())),
{
    assert(string_text(x) =~= seq!['"'] + (escaped(x) + seq!['"']));
    lemma_text_at_split(s, i, seq!['"'], escaped(x) + seq!['"']);
    lemma_string_reads(s, i + 1, x, Seq::empty());
    assert(Seq::<char>::empty() + x =~= x);
}

/// A decimal digit character reads as its value.
proof fn lemma_digit_char(d: nat)
    requires
        d < 10,
    ensures
        is_digit(digit_char(d)),
        digit_value(digit_char(d)) == d,
        (digit_char(d) == '0') == (d == 0),
{
}

/// The decimal text of a number: digits, without a leading zero unless it
/// is zero, reading as the number.
proof fn lemma_nat_text(n: nat)
    ensures
        nat_text(n).len() >= 1,
        forall|k: int| 0 <= k < nat_text(n).len() ==> is_digit(#[trigger] nat_text(n)[k]),
        digits_value(nat_text(n)) == n,
        (nat_text(n)[0] == '0') == (n == 0),
        n == 0 ==> nat_text(n).len() == 1,
    decreases n,
{
    if n < 10 {
        let t = nat_text(n);
        lemma_digit_char(n);
        assert(t.drop_last() =~= Seq::<char>::empty());
        assert(t.last() == digit_char(n));
        assert(digits_value(t) == (10 * digits_value(t.drop_last()) + digit_value(t.last())) as nat);
    } else {
        lemma_nat_text(n / 10);
        lemma_digit_char(n % 10);
        let t = nat_text(n);
        assert(t.drop_last() =~= nat_text(n / 10));
        assert(t.last() == digit_char(n % 10));
        assert(t[0] == nat_text(n / 10)[0]);
        assert(digits_value(t) == (10 * digits_value(t.drop_last()) + digit_value(t.last())) as nat);
        assert forall|k: int| 0 <= k < t.len() implies is_digit(#[trigger] t[k]) by {
            if k < t.len() - 1 {
                assert(t[k] == nat_text(n / 10)[k]);
            }
        }
    }
}

/// Digits to the end of a text end at its end.
proof fn lemma_digits_end_all(t: Seq<char>, k: int)
    requires
        0 <= k <= t.len(),
        forall|m: int| k <= m < t.len() ==> is_digit(#[trigger] t[m]),
    ensures
        digits_end(t, k) == t.len(),
    decreases t.len() - k,
{
    if k < t.len() {
        lemma_digits_end_all(t, k + 1);
    }
}

/// The decimal text of an `i64` reads as that integer.
proof fn lemma_int_text_reads(i: int)
    requires
        i64::MIN <= i <= i64::MAX,
    ensures
        number_at(int_text(i), 0) == Some((Json::Int(i), int_text(i).len() as int)),
{
    let m: nat = if i < 0 { (-i) as nat } else { i as nat };
    lemma_nat_text(m);
    let t = int_text(i);
    let nt = nat_text(m);
    let p: int = if i < 0 { 1 } else { 0 };
    assert(t.subrange(p, t.len() as int) =~= nt);
    assert forall|k: int| p <= k < t.len() implies is_digit(#[trigger] t[k]) by {
        assert(t[k] == nt[k - p]);
    }
    lemma_digits_end_all(t, p);
    assert(t[p] == nt[0]);
    if m != 0 {
        assert(digits_end(t, p) == t.len());
    } else {
        assert(t.len() == p + 1);
    }
    assert(number_extent(t, 0) == Some((p, t.len() as int, t.len() as int)));
}

/// Where digits end in a text standing in `s`, they end in `s`, where the
/// character after the text is not a digit.
proof fn lemma_digits_end_shift(s: Seq<char>, i: int, t: Seq<char>, k: int)
    requires
        text_at(s, i, t),
        0 <= k <= t.len(),
        i + t.len() == s.len() || !is_digit(s[i + t.len()]),
    ensures
        digits_end(s, i + k) == i + digits_end(t, k),
    decreases t.len() - k,
{
    if k < t.len() {
        lemma_text_at_index(s, i, t, k);
        if is_digit(t[k]) {
            lemma_digits_end_shift(s, i, t, k + 1);
        }
    }
}

/// Whether a character may continue a number.
pub open spec fn continues_number(c: char) -> bool {
    is_digit(c) || c == '.' || c == 'e' || c == 'E'
}

/// A number text standing in `s`, followed by a character that cannot
/// continue it, reads in `s` as it reads alone.
proof fn lemma_number_local(s: Seq<char>, i: int, t: Seq<char>)
    requires
        text_at(s, i, t),
        number_extent(t, 0) matches Some((_, _, e)) && e == t.len(),
        i + t.len() == s.len() || !continues_number(s[i + t.len()]),
    ensures
        number_at(s, i) == match number_at(t, 0) {
            Some((v, e)) => Some((v, i + e)),
            None => None,
        },
{
    let n = t.len() as int;
    let (pt, qt, et) = number_extent(t, 0).unwrap();
    assert forall|k: int| 0 <= k < n implies s[i + k] == #[trigger] t[k] by {
        lemma_text_at_index(s, i, t, k);
    }
    let ps = if 0 <= i < s.len() && s[i] == '-' { i + 1 } else { i };
    assert(ps == i + pt);
    assert(pt < n && is_digit(t[pt]));
    if t[pt] != '0' {
        lemma_digits_end_shift(s, i, t, pt);
    }
    lemma_digits_end(t, pt);
    let qs = if s[ps] == '0' { ps + 1 } else { digits_end(s, ps) };
    assert(qs == i + qt);
    assert(qt <= n);
    let dot_t = qt < n && t[qt] == '.';
    let dot_s = qs < s.len() && s[qs] == '.';
    assert(dot_s == dot_t);
    if dot_t {
        assert(qt + 1 < n && is_digit(t[qt + 1]));
        lemma_digits_end_shift(s, i, t, qt + 1);
        lemma_digits_end(t, qt + 1);
    }
    let rt = if dot_t { digits_end(t, qt + 1) } else { qt };
    let rs = if dot_s { digits_end(s, qs + 1) } else { qs };
    assert(rs == i + rt);
    assert(rt <= n);
    let e_t = rt < n && (t[rt] == 'e' || t[rt] == 'E');
    let e_s = rs < s.len() && (s[rs] == 'e' || s[rs] == 'E');
    assert(e_s == e_t);
    let tt = if e_t {
        if rt + 1 < n && (t[rt + 1] == '+' || t[rt + 1] == '-') { rt + 2 } else { rt + 1 }
    } else {
        rt
    };
    let ts = if e_s {
        if rs + 1 < s.len() && (s[rs + 1] == '+' || s[rs + 1] == '-') { rs + 2 } else { rs + 1 }
    } else {
        rs
    };
    if e_t {
        assert(tt < n && is_digit(t[tt]));
        assert(rt + 1 < n);
        lemma_digits_end_shift(s, i, t, tt);
    }
    assert(ts == i + tt);
    assert(number_extent(s, i) == Some((i + pt, i + qt, i + et)));
    assert(s.subrange(i + pt, i + qt) =~= t.subrange(pt, qt));
    assert(s.subrange(i, i + et) =~= t.subrange(0, et));
}

/// Whether a value reads back from the text written for it: its integers
/// fit an `i64`, each of its other numbers is the text of a number that is
/// not such an integer, and so on inside arrays and objects.
pub open spec fn readable(v: Json) -> bool
    decreases v,
{
    match v {
        Json::Int(i) => i64::MIN <= i <= i64::MAX,
        Json::Number(t) => number_at(t, 0) == Some((Json::Number(t), t.len() as int)),
        Json::Array(items) => forall|k: int| 0 <= k < items.len() ==> readable(#[trigger] items[k]),
        Json::Object(es) => forall|k: int| 0 <= k < es.len() ==> readable(#[trigger] es[k].1),
        _ => true,
    }
}

/// Whether a value may end at `k`: at the end of the text, or before a
/// comma or a closing bracket or brace.
pub open spec fn ends_value(s: Seq<char>, k: int) -> bool {
    k == s.len() || (0 <= k < s.len() && (s[k] == ',' || s[k] == ']' || s[k] == '}'))
}

/// The items after the first, each after a comma.
pub open spec fn rest_items_text(xs: Seq<Json>) -> Seq<char>
    decreases xs.len(),
{
    if xs.len() == 0 {
        Seq::empty()
    } else {
        seq![','] + json_text(xs[0]) + rest_items_text(xs.drop_first())
    }
}

/// The members after the first, each after a comma.
pub open spec fn rest_entries_text(es: Seq<(Seq<char>, Json)>) -> Seq<char>
    decreases es.len(),
{
    if es.len() == 0 {
        Seq::empty()
    } else {
        seq![','] + entry_text(es[0]) + rest_entries_text(es.drop_first())
    }
}

/// One more item after the others.
proof fn lemma_rest_items_push(xs: Seq<Json>, y: Json)
    ensures
        rest_items_text(xs.push(y)) == rest_items_text(xs) + seq![','] + json_text(y),
    decreases xs.len(),
{
    if xs.len() == 0 {
        let d = xs.push(y).drop_first();
        assert(d.len() == 0);
        assert(rest_items_text(d) == Seq::<char>::empty());
        assert(xs.push(y)[0] == y);
        assert(rest_items_text(xs.push(y)) =~= seq![','] + json_text(y));
        assert(rest_items_text(xs) =~= Seq::<char>::empty());
        assert(rest_items_text(xs) + seq![','] + json_text(y) =~= seq![','] + json_text(y));
    } else {
        lemma_rest_items_push(xs.drop_first(), y);
        assert(xs.push(y).drop_first() =~= xs.drop_first().push(y));
        assert(xs.push(y)[0] == xs[0]);
        assert(rest_items_text(xs.push(y)) =~= rest_items_text(xs) + seq![','] + json_text(y));
    }
}

/// One more member after the others.
proof fn lemma_rest_entries_push(es: Seq<(Seq<char>, Json)>, y: (Seq<char>, Json))
    ensures
        rest_entries_text(es.push(y)) == rest_entries_text(es) + seq![','] + entry_text(y),
    decreases es.len(),
{
    if es.len() == 0 {
        let d = es.push(y).drop_first();
        assert(d.len() == 0);
        assert(rest_entries_text(d) == Seq::<char>::empty());
        assert(es.push(y)[0] == y);
        assert(rest_entries_text(es.push(y)) =~= seq![','] + entry_text(y));
        assert(rest_entries_text(es) =~= Seq::<char>::empty());
        assert(rest_entries_text(es) + seq![','] + entry_text(y) =~= seq![','] + entry_text(y));
    } else {
        lemma_rest_entries_push(es.drop_first(), y);
        assert(es.push(y).drop_first() =~= es.drop_first().push(y));
        assert(es.push(y)[0] == es[0]);
        assert(rest_entries_text(es.push(y)) =~= rest_entries_text(es) + seq![','] + entry_text(y));
    }
}

/// The items of an array: the first, then the others after commas.
proof fn lemma_items_text_forward(items: Seq<Json>)
    requires
        items.len() > 0,
    ensures
        items_text(items) == json_text(items[0]) + rest_items_text(items.drop_first()),
    decreases items.len(),
{
    if items.len() == 1 {
        assert(items.drop_first() =~= Seq::<Json>::empty());
        assert(json_text(items[0]) + rest_items_text(items.drop_first()) =~= json_text(items[0]));
    } else {
        let init = items.subrange(0, items.len() - 1);
        lemma_items_text_forward(init);
        lemma_rest_items_push(init.drop_first(), items[items.len() - 1]);
        assert(init.drop_first().push(items[items.len() - 1]) =~= items.drop_first());
        assert(init[0] == items[0]);
        assert(items_text(items) =~= json_text(items[0]) + rest_items_text(items.drop_first()));
    }
}

/// The members of an object: the first, then the others after commas.
proof fn lemma_entries_text_forward(es: Seq<(Seq<char>, Json)>)
    requires
        es.len() > 0,
    ensures
        entries_text(es) == entry_text(es[0]) + rest_entries_text(es.drop_first()),
    decreases es.len(),
{
    if es.len() == 1 {
        assert(es.drop_first() =~= Seq::<(Seq<char>, Json)>::empty());
        assert(entry_text(es[0]) + rest_entries_text(es.drop_first()) =~= entry_text(es[0]));
    } else {
        let init = es.subrange(0, es.len() - 1);
        lemma_entries_text_forward(init);
        lemma_rest_entries_push(init.drop_first(), es[es.len() - 1]);
        assert(init.drop_first().push(es[es.len() - 1]) =~= es.drop_first());
        assert(init[0] == es[0]);
        assert(entries_text(es) =~= entry_text(es[0]) + rest_entries_text(es.drop_first()));
    }
}

/// The text of a value is not empty and starts with a character that
/// starts a value: a letter of `null`, `true` or `false`, a quote, a
/// bracket, a brace, a minus or a digit.
proof fn lemma_first_char(v: Json)
    requires
        readable(v),
    ensures
        json_text(v).len() >= 1,
        ({
            let c = json_text(v)[0];
            &&& !is_ws(c)
            &&& c != ',' && c != ']' && c != '}' && c != ':'
            &&& (v is Int || v is Number) <==> (c == '-' || is_digit(c))
        }),
{
    match v {
        Json::Int(i) => {
            let m: nat = if i < 0 { (-i) as nat } else { i as nat };
            lemma_nat_text(m);
            if i >= 0 {
                assert(json_text(v)[0] == nat_text(m)[0]);
            }
        },
        Json::Number(t) => {
            assert(number_extent(t, 0) is Some);
        },
        Json::Str(x) => {
            assert(json_text(v) =~= seq!['"'] + escaped(x) + seq!['"']);
        },
        Json::Array(items) => {
            assert(json_text(v) =~= seq!['['] + items_text(items) + seq![']']);
        },
        Json::Object(es) => {
            assert(json_text(v) =~= seq!['{'] + entries_text(es) + seq!['}']);
        },
        _ => {},
    }
}


/// Whitespace skipping stops at once on a character that is not
/// whitespace, and at the end.
proof fn lemma_skip_ws_stop(s: Seq<char>, i: int)
    requires
        0 <= i <= s.len(),
        i < s.len() ==> !is_ws(s[i]),
    ensures
        skip_ws(s, i) == i,
{
}

/// The text of the items of an array from the `k`-th on: all of them when
/// `k` is zero, else each after a comma.
pub open spec fn items_tail_text(items: Seq<Json>, k: int) -> Seq<char> {
    if k == 0 {
        items_text(items)
    } else {
        rest_items_text(items.subrange(k, items.len() as int))
    }
}

/// The text of the members of an object from the `k`-th on: all of them
/// when `k` is zero, else each after a comma.
pub open spec fn entries_tail_text(es: Seq<(Seq<char>, Json)>, k: int) -> Seq<char> {
    if k == 0 {
        entries_text(es)
    } else {
        rest_entries_text(es.subrange(k, es.len() as int))
    }
}

/// The text of a value, standing where a value may end after it, reads as
/// the value.
proof fn lemma_value_reads(s: Seq<char>, i: int, v: Json)
    requires
        readable(v),
        text_at(s, i, json_text(v)),
        ends_value(s, i + json_text(v).len()),
    ensures
        value_at(s, i) == Some((v, i + json_text(v).len())),
    decreases v, 0nat, 0int,
{
    lemma_first_char(v);
    let t = json_text(v);
    lemma_text_at_index(s, i, t, 0);
    match v {
        Json::Null => {
            reveal_strlit("null");
            assert(s.subrange(i, i + 4) =~= "null"@);
        },
        Json::Bool(b) => {
            if b {
                reveal_strlit("true");
                assert(s.subrange(i, i + 4) =~= "true"@);
            } else {
                reveal_strlit("false");
                assert(s.subrange(i, i + 5) =~= "false"@);
            }
        },
        Json::Int(n) => {
            lemma_int_text_reads(n);
            lemma_number_local(s, i, t);
        },
        Json::Number(x) => {
            lemma_number_local(s, i, t);
        },
        Json::Str(x) => {
            lemma_string_literal_reads(s, i, x);
        },
        Json::Array(items) => {
            assert(t =~= seq!['['] + (items_text(items) + seq![']']));
            lemma_text_at_split(s, i, seq!['['], items_text(items) + seq![']']);
            lemma_items_reads(s, i + 1, items, 0);
            assert(items.subrange(0, 0) =~= Seq::<Json>::empty());
        },
        Json::Object(es) => {
            assert(t =~= seq!['{'] + (entries_text(es) + seq!['}']));
            lemma_text_at_split(s, i, seq!['{'], entries_text(es) + seq!['}']);
            lemma_members_reads(s, i + 1, es, 0);
            assert(es.subrange(0, 0) =~= Seq::<(Seq<char>, Json)>::empty());
        },
    }
}

/// The items of an array from the `k`-th on, followed by the closing
/// bracket, read as the whole array after the first `k`.
proof fn lemma_items_reads(s: Seq<char>, j: int, items: Seq<Json>, k: int)
    requires
        0 <= k <= items.len(),
        forall|m: int| 0 <= m < items.len() ==> readable(#[trigger] items[m]),
        text_at(s, j, items_tail_text(items, k) + seq![']']),
    ensures
        items_at(s, j, items.subrange(0, k)) == Some((items, j + items_tail_text(items, k).len() + 1)),
    decreases items, 1nat, items.len() - k,
{
    let tail = items_tail_text(items, k);
    let n = items.len() as int;
    if k == n {
        if k != 0 {
            assert(items.subrange(k, n) =~= Seq::<Json>::empty());
        }
        assert(tail =~= Seq::<char>::empty());
        lemma_text_at_index(s, j, tail + seq![']'], 0);
        lemma_skip_ws_stop(s, j);
        assert(items.subrange(0, k) =~= items);
    } else {
        let x = items[k];
        let rest = items.subrange(k + 1, n);
        let lead: Seq<char> = if k == 0 { Seq::empty() } else { seq![','] };
        if k == 0 {
            lemma_items_text_forward(items);
            assert(items.drop_first() =~= rest);
        } else {
            assert(items.subrange(k, n).drop_first() =~= rest);
            assert(items.subrange(k, n)[0] == x);
        }
        assert(tail =~= lead + json_text(x) + rest_items_text(rest));
        let after = rest_items_text(rest) + seq![']'];
        assert(tail + seq![']'] =~= lead + (json_text(x) + after));
        lemma_text_at_split(s, j, lead, json_text(x) + after);
        let p = j + lead.len();
        lemma_text_at_split(s, p, json_text(x), after);
        let m = p + json_text(x).len();
        lemma_first_char(x);
        lemma_text_at_index(s, p, json_text(x), 0);
        lemma_text_at_index(s, m, after, 0);
        if rest.len() > 0 {
            assert(after[0] == ',');
        } else {
            assert(after[0] == ']');
        }
        lemma_value_reads(s, p, x);
        if k > 0 {
            lemma_text_at_index(s, j, lead, 0);
            lemma_skip_ws_stop(s, j + 1);
        }
        lemma_skip_ws_stop(s, j);
        lemma_items_reads(s, m, items, k + 1);
        assert(items.subrange(0, k).push(x) =~= items.subrange(0, k + 1));
        assert(items_tail_text(items, k + 1) == rest_items_text(rest));
    }
}

/// Where the `k`-th member of an object stands in its text: the step that
/// reads it comes down to reading its value, and the text after the value
/// holds the members after it.
proof fn lemma_member_layout(s: Seq<char>, j: int, es: Seq<(Seq<char>, Json)>, k: int)
    requires
        0 <= k < es.len(),
        readable(es[k].1),
        text_at(s, j, entries_tail_text(es, k) + seq!['}']),
    ensures
        ({
            let key = es[k].0;
            let val = es[k].1;
            let c = j + (if k == 0 { 0int } else { 1int }) + string_text(key).len() + 1;
            let m = c + json_text(val).len();
            &&& text_at(s, c, json_text(val))
            &&& ends_value(s, m)
            &&& text_at(s, m, entries_tail_text(es, k + 1) + seq!['}'])
            &&& members_at(s, j, es.subrange(0, k)) == match value_at(s, c) {
                Some((v, mm)) => if j < mm <= s.len() {
                    members_at(s, mm, es.subrange(0, k).push((key, v)))
                } else {
                    None
                },
                None => None,
            }
        }),
{
    let tail = entries_tail_text(es, k);
    let n = es.len() as int;
    let e = es[k];
    let key = e.0;
    let val = e.1;
    let rest = es.subrange(k + 1, n);
    let lead: Seq<char> = if k == 0 { Seq::empty() } else { seq![','] };
    if k == 0 {
        lemma_entries_text_forward(es);
        assert(es.drop_first() =~= rest);
    } else {
        assert(es.subrange(k, n).drop_first() =~= rest);
        assert(es.subrange(k, n)[0] == e);
    }
    assert(tail =~= lead + entry_text(e) + rest_entries_text(rest));
    let after = rest_entries_text(rest) + seq!['}'];
    let vt = json_text(val);
    assert(tail + seq!['}'] =~= lead + (string_text(key) + (seq![':'] + (vt + after))));
    lemma_text_at_split(s, j, lead, string_text(key) + (seq![':'] + (vt + after)));
    let p = j + lead.len();
    lemma_text_at_split(s, p, string_text(key), seq![':'] + (vt + after));
    let a = p + string_text(key).len();
    lemma_text_at_split(s, a, seq![':'], vt + after);
    let c = a + 1;
    lemma_text_at_split(s, c, vt, after);
    let m = c + vt.len();
    assert(string_text(key)[0] == '"');
    lemma_text_at_index(s, p, string_text(key), 0);
    lemma_string_literal_reads(s, p, key);
    lemma_text_at_index(s, a, seq![':'], 0);
    lemma_skip_ws_stop(s, a);
    lemma_first_char(val);
    lemma_text_at_index(s, c, vt, 0);
    lemma_skip_ws_stop(s, c);
    lemma_text_at_index(s, m, after, 0);
    if rest.len() > 0 {
        assert(after[0] == ',');
    } else {
        assert(after[0] == '}');
    }
    if k > 0 {
        lemma_text_at_index(s, j, lead, 0);
        lemma_skip_ws_stop(s, j + 1);
    }
    lemma_skip_ws_stop(s, j);
    assert(entries_tail_text(es, k + 1) == rest_entries_text(rest));
}

/// The members of an object from the `k`-th on, followed by the closing
/// brace, read as the whole object after the first `k`.
proof fn lemma_members_reads(s: Seq<char>, j: int, es: Seq<(Seq<char>, Json)>, k: int)
    requires
        0 <= k <= es.len(),
        forall|m: int| 0 <= m < es.len() ==> readable(#[trigger] es[m].1),
        text_at(s, j, entries_tail_text(es, k) + seq!['}']),
    ensures
        members_at(s, j, es.subrange(0, k)) == Some((es, j + entries_tail_text(es, k).len() + 1)),
    decreases es, 1nat, es.len() - k,
{
    let tail = entries_tail_text(es, k);
    let n = es.len() as int;
    if k == n {
        if k != 0 {
            assert(es.subrange(k, n) =~= Seq::<(Seq<char>, Json)>::empty());
        }
        assert(tail =~= Seq::<char>::empty());
        lemma_text_at_index(s, j, tail + seq!['}'], 0);
        lemma_skip_ws_stop(s, j);
        assert(es.subrange(0, k) =~= es);
    } else {
        let key = es[k].0;
        let val = es[k].1;
        assert(readable(es[k].1));
        lemma_member_layout(s, j, es, k);
        let c = j + (if k == 0 { 0int } else { 1int }) + string_text(key).len() + 1;
        let m = c + json_text(val).len();
        lemma_value_reads(s, c, val);
        lemma_members_reads(s, m, es, k + 1);
        assert(es.subrange(0, k).push((key, val)) =~= es.subrange(0, k + 1));
        assert((key, val) == es[k]);
        if k == 0 {
            lemma_entries_text_forward(es);
            assert(es.drop_first() =~= es.subrange(1, n));
        } else {
            assert(es.subrange(k, n).drop_first() =~= es.subrange(k + 1, n));
            assert(es.subrange(k, n)[0] == es[k]);
        }
        assert(tail.len() == (if k == 0 { 0int } else { 1int }) + string_text(key).len() + 1 + json_text(val).len()
            + entries_tail_text(es, k + 1).len());
    }
}

/// What the client writes for a value reads back as that value: the text
/// of any value whose numbers read as themselves parses to the value.
pub proof fn written_text_reads_back(v: Json)
    requires
        readable(v),
    ensures
        parse_text(json_text(v)) == Some(v),
{
    let s = json_text(v);
    lemma_first_char(v);
    assert(s.subrange(0, s.len() as int) =~= s);
    lemma_skip_ws_stop(s, 0);
    lemma_value_reads(s, 0, v);
    lemma_skip_ws_stop(s, s.len() as int);
}

/// Scalars read back from the text written for them: an integer, a truth
/// value and a string each parse to themselves.
pub proof fn scalars_read_back(n: i64, b: bool, t: Seq<char>)
    ensures
        parse_text(json_text(Json::Int(n as int))) == Some(Json::Int(n as int)),
        parse_text(json_text(Json::Bool(b))) == Some(Json::Bool(b)),
        parse_text(json_text(Json::Str(t))) == Some(Json::Str(t)),
{
    written_text_reads_back(Json::Int(n as int));
    written_text_reads_back(Json::Bool(b));
    written_text_reads_back(Json::Str(t));
}

/// A stored scalar reads back as itself: the JSON of an integer, a truth
/// value or a string holds a value of that type, reads back from the text
/// written for it, and names no other value of the type, so that decoding
/// it gives the value back.
pub proof fn stored_scalars_read_back(n: i64, b: bool, t: String, m: i64, c: bool, u: String)
    ensures
        <i64 as JsonScalar>::holds(n.json_of()),
        <bool as JsonScalar>::holds(b.json_of()),
        <String as JsonScalar>::holds(t.json_of()),
        parse_text(json_text(n.json_of())) == Some(n.json_of()),
        parse_text(json_text(b.json_of())) == Some(b.json_of()),
        parse_text(json_text(t.json_of())) == Some(t.json_of()),
        m.json_of() == n.json_of() ==> m == n,
        c.json_of() == b.json_of() ==> c == b,
        u.json_of() == t.json_of() ==> u@ == t@,
{
    scalars_read_back(n, b, t@);
}

} // verus!
