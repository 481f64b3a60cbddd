//! Reading JSON text into values. Requests arrive as text; the grammar is
//! JSON's, except that the commas between the items of an array and
//! between the members of an object may be left out.
use vstd::prelude::*;
use crate::json::{Json, JsonValue};
use crate::statements::json_seq;
use crate::values::{entries_view, lemma_array_view, lemma_object_view};

verus! {

/// Whether a character is JSON whitespace.
pub open spec fn is_ws(c: char) -> bool {
    c == ' ' || c == '\t' || c == '\n' || c == '\r'
}

/// The first position at or after `i` that is not whitespace.
pub open spec fn skip_ws(s: Seq<char>, i: int) -> int
    decreases s.len() - i,
{
    if 0 <= i < s.len() && is_ws(s[i]) {
        skip_ws(s, i + 1)
    } else {
        i
    }
}

/// Skipping whitespace never moves back, nor past the end.
pub proof fn lemma_skip_ws(s: Seq<char>, i: int)
    ensures
        skip_ws(s, i) >= i,
        0 <= i <= s.len() ==> skip_ws(s, i) <= s.len(),
    decreases s.len() - i,
{
    if 0 <= i < s.len() && is_ws(s[i]) {
        lemma_skip_ws(s, i + 1);
    }
}

/// Whether a character is a decimal digit.
pub open spec fn is_digit(c: char) -> bool {
    '0' <= c && c <= '9'
}

/// The value of a decimal digit.
pub open spec fn digit_value(c: char) -> int {
    (c as int) - ('0' as int)
}

/// The value of a hexadecimal digit, in either case.
pub open spec fn hex_value(c: char) -> Option<int> {
    if '0' <= c && c <= '9' {
        Some((c as int) - ('0' as int))
    } else if 'a' <= c && c <= 'f' {
        Some((c as int) - ('a' as int) + 10)
    } else if 'A' <= c && c <= 'F' {
        Some((c as int) - ('A' as int) + 10)
    } else {
        None
    }
}

/// The number written by the four hexadecimal digits at `i`.
pub open spec fn hex4(s: Seq<char>, i: int) -> Option<int> {
    if 0 <= i && i + 4 <= s.len() {
        match (hex_value(s[i]), hex_value(s[i + 1]), hex_value(s[i + 2]), hex_value(s[i + 3])) {
            (Some(a), Some(b), Some(c), Some(d)) => Some(((a * 16 + b) * 16 + c) * 16 + d),
            _ => None,
        }
    } else {
        None
    }
}

/// Whether a code point is a high surrogate, the first half of a pair.
pub open spec fn is_high_surrogate(v: int) -> bool {
    0xD800 <= v && v <= 0xDBFF
}

/// Whether a code point is a low surrogate, the second half of a pair.
pub open spec fn is_low_surrogate(v: int) -> bool {
    0xDC00 <= v && v <= 0xDFFF
}

/// The character an escape stands for, the escape starting after the
/// backslash at `k`, and the position after it: `\"`, `\\`, `\/`, `\b`,
/// `\f`, `\n`, `\r`, `\t`, and `\u` with four hexadecimal digits, a high
/// surrogate being followed by `\u` and a low one.
pub open spec fn escape(s: Seq<char>, k: int) -> Option<(char, int)> {
    if 0 <= k < s.len() {
        let c = s[k];
        if c == '"' {
            Some(('"', k + 1))
        } else if c == '\\' {
            Some(('\\', k + 1))
        } else if c == '/' {
            Some(('/', k + 1))
        } else if c == 'b' {
            Some(('\x08', k + 1))
        } else if c == 'f' {
            Some(('\x0c', k + 1))
        } else if c == 'n' {
            Some(('\n', k + 1))
        } else if c == 'r' {
            Some(('\r', k + 1))
        } else if c == 't' {
            Some(('\t', k + 1))
        } else if c == 'u' {
            match hex4(s, k + 1) {
                Some(v) => if is_high_surrogate(v) {
                    if k + 6 < s.len() && s[k + 5] == '\\' && s[k + 6] == 'u' {
                        match hex4(s, k + 7) {
                            Some(w) => if is_low_surrogate(w) {
                                Some(
                                    (((0x10000 + (v - 0xD800) * 0x400 + (w - 0xDC00)) as u32) as char, k + 11),
                                )
                            } else {
                                None
                            },
                            None => None,
                        }
                    } else {
                        None
                    }
                } else if is_low_surrogate(v) {
                    None
                } else {
                    Some(((v as u32) as char, k + 5))
                },
                None => None,
            }
        } else {
            None
        }
    } else {
        None
    }
}

/// The characters of a string whose opening quote is before `i`, after
/// `acc`, and the position after its closing quote. Control characters
/// must be escaped.
pub open spec fn string_chars(s: Seq<char>, i: int, acc: Seq<char>) -> Option<(Seq<char>, int)>
    decreases s.len() - i,
{
    if i < 0 || i >= s.len() {
        None
    } else if s[i] == '"' {
        Some((acc, i + 1))
    } else if s[i] == '\\' {
        match escape(s, i + 1) {
            Some((c, j)) => if j > i {
                string_chars(s, j, acc.push(c))
            } else {
                None
            },
            None => None,
        }
    } else if (s[i] as u32) < 0x20 {
        None
    } else {
        string_chars(s, i + 1, acc.push(s[i]))
    }
}

/// A string ends after where it starts.
pub proof fn lemma_string_chars_advances(s: Seq<char>, i: int, acc: Seq<char>)
    ensures
        string_chars(s, i, acc) matches Some((_, j)) ==> i < j <= s.len(),
    decreases s.len() - i,
{
    if 0 <= i < s.len() && s[i] != '"' {
        if s[i] == '\\' {
            match escape(s, i + 1) {
                Some((c, j)) => if j > i {
                    lemma_string_chars_advances(s, j, acc.push(c));
                },
                None => {},
            }
        } else if (s[i] as u32) >= 0x20 {
            lemma_string_chars_advances(s, i + 1, acc.push(s[i]));
        }
    }
}

/// The first position at or after `i` that is not a digit.
pub open spec fn digits_end(s: Seq<char>, i: int) -> int
    decreases s.len() - i,
{
    if 0 <= i < s.len() && is_digit(s[i]) {
        digits_end(s, i + 1)
    } else {
        i
    }
}

/// Digits never end before they start.
pub proof fn lemma_digits_end(s: Seq<char>, i: int)
    ensures
        digits_end(s, i) >= i,
        0 <= i <= s.len() ==> digits_end(s, i) <= s.len(),
        forall|k: int| i <= k < digits_end(s, i) ==> is_digit(#[trigger] s[k]),
    decreases s.len() - i,
{
    if 0 <= i < s.len() && is_digit(s[i]) {
        lemma_digits_end(s, i + 1);
    }
}

/// The number written by a sequence of decimal digits.
pub open spec fn digits_value(ds: Seq<char>) -> nat
    decreases ds.len(),
{
    if ds.len() == 0 {
        0
    } else {
        (10 * digits_value(ds.drop_last()) + digit_value(ds.last())) as nat
    }
}

/// Where the number starting at `i` ends: an optional minus, `0` or a
/// nonzero digit and more digits, an optional fraction, an optional
/// exponent; `None` where no number starts there. The second position is
/// where its integer digits end, the third where its fraction and
/// exponent end.
pub open spec fn number_extent(s: Seq<char>, i: int) -> Option<(int, int, int)> {
    let p = if 0 <= i < s.len() && s[i] == '-' { i + 1 } else { i };
    if !(0 <= p < s.len() && is_digit(s[p])) {
        None
    } else {
        let q = if s[p] == '0' { p + 1 } else { digits_end(s, p) };
        let frac_ok = !(q < s.len() && s[q] == '.') || (q + 1 < s.len() && is_digit(s[q + 1]));
        let r = if q < s.len() && s[q] == '.' { digits_end(s, q + 1) } else { q };
        let t = if r < s.len() && (s[r] == 'e' || s[r] == 'E') {
            if r + 1 < s.len() && (s[r + 1] == '+' || s[r + 1] == '-') { r + 2 } else { r + 1 }
        } else {
            r
        };
        let exp_ok = t == r || (t < s.len() && is_digit(s[t]));
        let e = if t == r { r } else { digits_end(s, t) };
        if frac_ok && exp_ok {
            Some((p, q, e))
        } else {
            None
        }
    }
}

/// The number starting at `i` and the position after it: a whole number
/// without fraction or exponent that fits an `i64` is an integer; any
/// other number keeps its text.
pub open spec fn number_at(s: Seq<char>, i: int) -> Option<(Json, int)> {
    match number_extent(s, i) {
        Some((p, q, e)) => {
            let mag = digits_value(s.subrange(p, q)) as int;
            let v = if p > i { -mag } else { mag };
            if e == q && i64::MIN <= v && v <= i64::MAX {
                Some((Json::Int(v), e))
            } else {
                Some((Json::Number(s.subrange(i, e)), e))
            }
        },
        None => None,
    }
}

/// Whether the text at `i` is `word`.
pub open spec fn word_at(s: Seq<char>, i: int, word: Seq<char>) -> bool {
    0 <= i && i + word.len() <= s.len() && s.subrange(i, i + word.len() as int) == word
}

/// The value starting at `i` and the position after it.
pub open spec fn value_at(s: Seq<char>, i: int) -> Option<(Json, int)>
    decreases s.len() - i, 0nat,
{
    if i < 0 || i >= s.len() {
        None
    } else {
        let c = s[i];
        if c == 'n' {
            if word_at(s, i, "null"@) { Some((Json::Null, i + 4)) } else { None }
        } else if c == 't' {
            if word_at(s, i, "true"@) { Some((Json::Bool(true), i + 4)) } else { None }
        } else if c == 'f' {
            if word_at(s, i, "false"@) { Some((Json::Bool(false), i + 5)) } else { None }
        } else if c == '"' {
            match string_chars(s, i + 1, Seq::empty()) {
                Some((t, j)) => Some((Json::Str(t), j)),
                None => None,
            }
        } else if c == '[' {
            match items_at(s, i + 1, Seq::empty()) {
                Some((vs, j)) => Some((Json::Array(vs), j)),
                None => None,
            }
        } else if c == '{' {
            match members_at(s, i + 1, Seq::empty()) {
                Some((es, j)) => Some((Json::Object(es), j)),
                None => None,
            }
        } else if c == '-' || is_digit(c) {
            number_at(s, i)
        } else {
            None
        }
    }
}

/// The position where the next item or member starts, after whitespace
/// and, once something came before, an optional comma and whitespace.
pub open spec fn next_start(s: Seq<char>, k: int, first: bool) -> int {
    if !first && 0 <= k < s.len() && s[k] == ',' {
        skip_ws(s, k + 1)
    } else {
        k
    }
}

/// The items of an array from `j` on, after `acc`, and the position after
/// the closing bracket.
pub open spec fn items_at(s: Seq<char>, j: int, acc: Seq<Json>) -> Option<(Seq<Json>, int)>
    decreases s.len() - j, 1nat,
{
    let k = skip_ws(s, j);
    if k < 0 || k >= s.len() {
        None
    } else if s[k] == ']' {
        Some((acc, k + 1))
    } else {
        let k2 = next_start(s, k, acc.len() == 0);
        proof {
            lemma_skip_ws(s, j);
            lemma_skip_ws(s, k + 1);
        }
        if k2 < j || k2 > s.len() {
            None
        } else {
            match value_at(s, k2) {
                Some((v, m)) => if j < m <= s.len() {
                    items_at(s, m, acc.push(v))
                } else {
                    None
                },
                None => None,
            }
        }
    }
}

/// The members of an object from `j` on, after `acc`, and the position
/// after the closing brace.
pub open spec fn members_at(s: Seq<char>, j: int, acc: Seq<(Seq<char>, Json)>) -> Option<
    (Seq<(Seq<char>, Json)>, int),
>
    decreases s.len() - j, 1nat,
{
    let k = skip_ws(s, j);
    if k < 0 || k >= s.len() {
        None
    } else if s[k] == '}' {
        Some((acc, k + 1))
    } else {
        let k2 = next_start(s, k, acc.len() == 0);
        if k2 < j || !(0 <= k2 < s.len() && s[k2] == '"') {
            None
        } else {
            match string_chars(s, k2 + 1, Seq::empty()) {
                Some((key, a)) => {
                    let b = skip_ws(s, a);
                    if a <= j || !(0 <= b < s.len() && s[b] == ':') || b < a {
                        None
                    } else {
                        let c = skip_ws(s, b + 1);
                        proof {
                            lemma_skip_ws(s, b + 1);
                        }
                        if c <= j || c > s.len() {
                            None
                        } else {
                            match value_at(s, c) {
                                Some((v, m)) => if j < m <= s.len() {
                                    members_at(s, m, acc.push((key, v)))
                                } else {
                                    None
                                },
                                None => None,
                            }
                        }
                    }
                },
                None => None,
            }
        }
    }
}

/// The value a whole text holds: one value, with only whitespace around it.
pub open spec fn parse_text(s: Seq<char>) -> Option<Json> {
    match value_at(s, skip_ws(s, 0)) {
        Some((v, j)) => if skip_ws(s, j) == s.len() {
            Some(v)
        } else {
            None
        },
        None => None,
    }
}

/// `char::from_u32`: std documents that it gives the character of a code
/// point, and `None` for a surrogate or a value above `0x10FFFF`.
#[verifier::external_body]
fn char_from_u32(v: u32) -> (r: Option<char>)
    ensures
        match r {
            Some(c) => c as u32 == v,
            None => (0xD800 <= v && v <= 0xDFFF) || v > 0x10FFFF,
        },
{
    char::from_u32(v)
}

/// The first position at or after `i` that is not whitespace.
fn skip_ws_at(s: &Vec<char>, i: usize) -> (r: usize)
    requires
        i <= s@.len(),
    ensures
        r as int == skip_ws(s@, i as int),
        i <= r <= s@.len(),
{
    let mut j = i;
    while j < s.len() && (s[j] == ' ' || s[j] == '\t' || s[j] == '\n' || s[j] == '\r')
        invariant
            i <= j <= s@.len(),
            skip_ws(s@, i as int) == skip_ws(s@, j as int),
        decreases s@.len() - j,
    {
        j = j + 1;
    }
    j
}

/// The value of a hexadecimal digit.
fn hex_digit(c: char) -> (r: Option<u32>)
    ensures
        match hex_value(c) {
            Some(v) => r == Some(v as u32),
            None => r is None,
        },
{
    if '0' <= c && c <= '9' {
        Some((c as u32) - ('0' as u32))
    } else if 'a' <= c && c <= 'f' {
        Some((c as u32) - ('a' as u32) + 10)
    } else if 'A' <= c && c <= 'F' {
        Some((c as u32) - ('A' as u32) + 10)
    } else {
        None
    }
}

/// The number written by the four hexadecimal digits at `i`.
fn hex4_at(s: &Vec<char>, i: usize) -> (r: Option<u32>)
    requires
        i <= s@.len(),
    ensures
        match hex4(s@, i as int) {
            Some(v) => r == Some(v as u32) && 0 <= v < 0x10000,
            None => r is None,
        },
{
    if s.len() - i < 4 {
        return None;
    }
    let a = match hex_digit(s[i]) {
        Some(a) => a,
        None => return None,
    };
    let b = match hex_digit(s[i + 1]) {
        Some(b) => b,
        None => return None,
    };
    let c = match hex_digit(s[i + 2]) {
        Some(c) => c,
        None => return None,
    };
    let d = match hex_digit(s[i + 3]) {
        Some(d) => d,
        None => return None,
    };
    Some(((a * 16 + b) * 16 + c) * 16 + d)
}

/// The character an escape stands for and the position after it, the
/// escape starting after the backslash at `k`.
fn escape_at(s: &Vec<char>, k: usize) -> (r: Option<(char, usize)>)
    requires
        k <= s@.len(),
    ensures
        match escape(s@, k as int) {
            Some((c, j)) => r == Some((c, j as usize)) && k < j <= s@.len(),
            None => r is None,
        },
{
    broadcast use vstd::utf8::char_u32_cast;
    if k >= s.len() {
        return None;
    }
    let c = s[k];
    if c == '"' {
        Some(('"', k + 1))
    } else if c == '\\' {
        Some(('\\', k + 1))
    } else if c == '/' {
        Some(('/', k + 1))
    } else if c == 'b' {
        Some(('\x08', k + 1))
    } else if c == 'f' {
        Some(('\x0c', k + 1))
    } else if c == 'n' {
        Some(('\n', k + 1))
    } else if c == 'r' {
        Some(('\r', k + 1))
    } else if c == 't' {
        Some(('\t', k + 1))
    } else if c == 'u' {
        let v = match hex4_at(s, k + 1) {
            Some(v) => v,
            None => return None,
        };
        if 0xD800 <= v && v <= 0xDBFF {
            if s.len() - k > 6 && s[k + 5] == '\\' && s[k + 6] == 'u' {
                let w = match hex4_at(s, k + 7) {
                    Some(w) => w,
                    None => return None,
                };
                if 0xDC00 <= w && w <= 0xDFFF {
                    let code = 0x10000 + (v - 0xD800) * 0x400 + (w - 0xDC00);
                    proof {
                        assert(code as int == 0x10000 + (v - 0xD800) * 0x400 + (w - 0xDC00));
                    }
                    match char_from_u32(code) {
                        Some(ch) => {
                            proof {
                                vstd::utf8::char_u32_cast(ch, code);
                                assert(((0x10000 + (v as int - 0xD800) * 0x400 + (w as int - 0xDC00)) as u32) == code);
                            }
                            Some((ch, k + 11))
                        },
                        None => None,
                    }
                } else {
                    None
                }
            } else {
                None
            }
        } else if 0xDC00 <= v && v <= 0xDFFF {
            None
        } else {
            match char_from_u32(v) {
                Some(ch) => {
                    proof {
                        vstd::utf8::char_u32_cast(ch, v);
                        assert(((v as int) as u32) == v);
                    }
                    Some((ch, k + 5))
                },
                None => None,
            }
        }
    } else {
        None
    }
}

/// The characters of a string whose opening quote is before `i0`, and the
/// position after its closing quote.
fn string_at(s: &Vec<char>, i0: usize) -> (r: Option<(Vec<char>, usize)>)
    requires
        i0 <= s@.len(),
    ensures
        match string_chars(s@, i0 as int, Seq::empty()) {
            Some((t, j)) => r matches Some((v, k)) && v@ == t && k == j && k <= s@.len(),
            None => r is None,
        },
{
    let mut acc: Vec<char> = Vec::new();
    let mut i = i0;
    while i < s.len()
        invariant
            i0 <= i <= s@.len(),
            string_chars(s@, i0 as int, Seq::empty()) == string_chars(s@, i as int, acc@),
        decreases s@.len() - i,
    {
        let c = s[i];
        if c == '"' {
            return Some((acc, i + 1));
        } else if c == '\\' {
            match escape_at(s, i + 1) {
                Some((ch, j)) => {
                    acc.push(ch);
                    i = j;
                },
                None => return None,
            }
        } else if (c as u32) < 0x20 {
            return None;
        } else {
            acc.push(c);
            i = i + 1;
        }
    }
    None
}

/// The first position at or after `i` that is not a digit.
fn digits_end_at(s: &Vec<char>, i: usize) -> (r: usize)
    requires
        i <= s@.len(),
    ensures
        r as int == digits_end(s@, i as int),
        i <= r <= s@.len(),
{
    let mut j = i;
    while j < s.len() && '0' <= s[j] && s[j] <= '9'
        invariant
            i <= j <= s@.len(),
            digits_end(s@, i as int) == digits_end(s@, j as int),
        decreases s@.len() - j,
    {
        j = j + 1;
    }
    j
}

/// One more digit multiplies the number by ten and adds the digit.
proof fn lemma_digits_value_step(s: Seq<char>, p: int, k: int)
    requires
        0 <= p <= k < s.len(),
        is_digit(s[k]),
    ensures
        digits_value(s.subrange(p, k + 1)) == 10 * digits_value(s.subrange(p, k)) + digit_value(s[k]),
{
    assert(s.subrange(p, k + 1).drop_last() =~= s.subrange(p, k));
    assert(s.subrange(p, k + 1).last() == s[k]);
    assert(digit_value(s[k]) >= 0);
}

/// The characters from `i` to `e`.
fn copy_range(s: &Vec<char>, i: usize, e: usize) -> (r: Vec<char>)
    requires
        i <= e <= s@.len(),
    ensures
        r@ == s@.subrange(i as int, e as int),
{
    let mut r: Vec<char> = Vec::new();
    let mut k = i;
    while k < e
        invariant
            i <= k <= e <= s@.len(),
            r@ == s@.subrange(i as int, k as int),
        decreases e - k,
    {
        r.push(s[k]);
        k = k + 1;
        proof {
            assert(r@ =~= s@.subrange(i as int, k as int));
        }
    }
    r
}

/// The number starting at `i` and the position after it.
fn number_at_pos(s: &Vec<char>, i: usize) -> (r: Option<(JsonValue, usize)>)
    requires
        i <= s@.len(),
    ensures
        match number_at(s@, i as int) {
            Some((v, e)) => r matches Some((x, k)) && x@ == v && k == e && k <= s@.len(),
            None => r is None,
        },
{
    let p = if i < s.len() && s[i] == '-' { i + 1 } else { i };
    if !(p < s.len() && '0' <= s[p] && s[p] <= '9') {
        return None;
    }
    let q = if s[p] == '0' { p + 1 } else { digits_end_at(s, p) };
    proof {
        lemma_digits_end(s@, p as int);
    }
    let frac = q < s.len() && s[q] == '.';
    if frac && !(q + 1 < s.len() && '0' <= s[q + 1] && s[q + 1] <= '9') {
        return None;
    }
    let r = if frac { digits_end_at(s, q + 1) } else { q };
    let has_exp = r < s.len() && (s[r] == 'e' || s[r] == 'E');
    let t = if has_exp {
        if r + 1 < s.len() && (s[r + 1] == '+' || s[r + 1] == '-') { r + 2 } else { r + 1 }
    } else {
        r
    };
    if has_exp && !(t < s.len() && '0' <= s[t] && s[t] <= '9') {
        return None;
    }
    let e = if !has_exp { r } else { digits_end_at(s, t) };
    let ghost ext = number_extent(s@, i as int);
    proof {
        assert(ext == Some((p as int, q as int, e as int)));
    }
    if e == q {
        let mut acc: u64 = 0;
        let mut big = false;
        let mut k = p;
        proof {
            assert(s@.subrange(p as int, p as int) =~= Seq::<char>::empty());
        }
        while k < q
            invariant
                p <= k <= q,
                q <= s@.len(),
                forall|m: int| p <= m < q ==> is_digit(#[trigger] s@[m]),
                !big ==> acc as int == digits_value(s@.subrange(p as int, k as int)),
                big ==> digits_value(s@.subrange(p as int, k as int)) > u64::MAX,
            decreases q - k,
        {
            proof {
                assert(is_digit(s@[k as int]));
                lemma_digits_value_step(s@, p as int, k as int);
            }
            let d = ((s[k] as u32) - ('0' as u32)) as u64;
            if !big {
                match acc.checked_mul(10) {
                    Some(m) => match m.checked_add(d) {
                        Some(n) => {
                            acc = n;
                        },
                        None => {
                            big = true;
                        },
                    },
                    None => {
                        big = true;
                    },
                }
            }
            k = k + 1;
        }
        if !big {
            if p > i {
                if acc <= 9223372036854775808 {
                    let v: i64 = if acc == 9223372036854775808 { i64::MIN } else { -(acc as i64) };
                    return Some((JsonValue::Int(v), e));
                }
            } else if acc <= 9223372036854775807 {
                return Some((JsonValue::Int(acc as i64), e));
            }
        }
    }
    let text = copy_range(s, i, e);
    Some((JsonValue::Number(text), e))
}

/// Whether the text at `i` is `word`.
fn word_at_pos(s: &Vec<char>, i: usize, word: &str) -> (r: bool)
    requires
        i <= s@.len(),
    ensures
        r == word_at(s@, i as int, word@),
{
    let w = crate::text::chars_of(word);
    if s.len() - i < w.len() {
        return false;
    }
    let mut k: usize = 0;
    while k < w.len()
        invariant
            k <= w@.len(),
            i <= s@.len(),
            i + w@.len() <= s.len(),
            w@.len() == w.len(),
            w@ == word@,
            forall|m: int| 0 <= m < k ==> s@[i + m] == w@[m],
        decreases w@.len() - k,
    {
        if s[i + k] != w[k] {
            proof {
                assert(s@.subrange(i as int, i + w@.len())[k as int] != word@[k as int]);
            }
            return false;
        }
        k = k + 1;
    }
    proof {
        assert(s@.subrange(i as int, i + w@.len()) =~= word@);
    }
    true
}

/// The value starting at `i` and the position after it.
fn value_at_pos(s: &Vec<char>, i: usize) -> (r: Option<(JsonValue, usize)>)
    requires
        i <= s@.len(),
    ensures
        match value_at(s@, i as int) {
            Some((v, j)) => r matches Some((x, k)) && x@ == v && k == j && k <= s@.len(),
            None => r is None,
        },
    decreases s@.len() - i, 0nat,
{
    if i >= s.len() {
        return None;
    }
    let c = s[i];
    if c == 'n' {
        proof {
            reveal_strlit("null");
        }
        if word_at_pos(s, i, "null") {
            Some((JsonValue::Null, i + 4))
        } else {
            None
        }
    } else if c == 't' {
        proof {
            reveal_strlit("true");
        }
        if word_at_pos(s, i, "true") {
            Some((JsonValue::Bool(true), i + 4))
        } else {
            None
        }
    } else if c == 'f' {
        proof {
            reveal_strlit("false");
        }
        if word_at_pos(s, i, "false") {
            Some((JsonValue::Bool(false), i + 5))
        } else {
            None
        }
    } else if c == '"' {
        match string_at(s, i + 1) {
            Some((t, j)) => Some((JsonValue::Str(t), j)),
            None => None,
        }
    } else if c == '[' {
        match items_at_pos(s, i + 1) {
            Some((vs, j)) => {
                proof {
                    lemma_array_view(vs);
                }
                Some((JsonValue::Array(vs), j))
            },
            None => None,
        }
    } else if c == '{' {
        match members_at_pos(s, i + 1) {
            Some((es, j)) => {
                proof {
                    lemma_object_view(es);
                }
                Some((JsonValue::Object(es), j))
            },
            None => None,
        }
    } else if c == '-' || ('0' <= c && c <= '9') {
        number_at_pos(s, i)
    } else {
        None
    }
}

/// The items of an array from `j0` on, and the position after its closing
/// bracket.
fn items_at_pos(s: &Vec<char>, j0: usize) -> (r: Option<(Vec<JsonValue>, usize)>)
    requires
        j0 <= s@.len(),
    ensures
        match items_at(s@, j0 as int, Seq::empty()) {
            Some((vs, k)) => r matches Some((v, m)) && json_seq(v@) == vs && m == k && m <= s@.len(),
            None => r is None,
        },
    decreases s@.len() - j0, 1nat,
{
    let mut acc: Vec<JsonValue> = Vec::new();
    let mut j = j0;
    proof {
        assert(json_seq(acc@) =~= Seq::<Json>::empty());
    }
    loop
        invariant
            j0 <= j <= s@.len(),
            items_at(s@, j0 as int, Seq::empty()) == items_at(s@, j as int, json_seq(acc@)),
        decreases s@.len() - j,
    {
        let k = skip_ws_at(s, j);
        if k >= s.len() {
            return None;
        }
        if s[k] == ']' {
            return Some((acc, k + 1));
        }
        let k2 = if acc.len() > 0 && s[k] == ',' { skip_ws_at(s, k + 1) } else { k };
        match value_at_pos(s, k2) {
            Some((v, m)) => {
                if m > j {
                    let ghost before = json_seq(acc@);
                    acc.push(v);
                    proof {
                        assert(json_seq(acc@) =~= before.push(v@));
                    }
                    j = m;
                } else {
                    return None;
                }
            },
            None => {
                return None;
            },
        }
    }
}

/// The members of an object from `j0` on, and the position after its
/// closing brace.
fn members_at_pos(s: &Vec<char>, j0: usize) -> (r: Option<(Vec<(Vec<char>, JsonValue)>, usize)>)
    requires
        j0 <= s@.len(),
    ensures
        match members_at(s@, j0 as int, Seq::empty()) {
            Some((es, k)) => r matches Some((v, m)) && entries_view(v@) == es && m == k && m <= s@.len(),
            None => r is None,
        },
    decreases s@.len() - j0, 1nat,
{
    let mut acc: Vec<(Vec<char>, JsonValue)> = Vec::new();
    let mut j = j0;
    proof {
        assert(entries_view(acc@) =~= Seq::<(Seq<char>, Json)>::empty());
    }
    loop
        invariant
            j0 <= j <= s@.len(),
            members_at(s@, j0 as int, Seq::empty()) == members_at(s@, j as int, entries_view(acc@)),
        decreases s@.len() - j,
    {
        let k = skip_ws_at(s, j);
        if k >= s.len() {
            return None;
        }
        if s[k] == '}' {
            return Some((acc, k + 1));
        }
        let k2 = if acc.len() > 0 && s[k] == ',' { skip_ws_at(s, k + 1) } else { k };
        if !(k2 < s.len() && s[k2] == '"') {
            return None;
        }
        let (key, a) = match string_at(s, k2 + 1) {
            Some(x) => x,
            None => return None,
        };
        proof {
            lemma_string_chars_advances(s@, k2 + 1, Seq::empty());
        }
        let b = skip_ws_at(s, a);
        if !(b < s.len() && s[b] == ':') {
            return None;
        }
        let c = skip_ws_at(s, b + 1);
        match value_at_pos(s, c) {
            Some((v, m)) => {
                if m > j {
                    let ghost before = entries_view(acc@);
                    let ghost kv = key@;
                    acc.push((key, v));
                    proof {
                        assert(entries_view(acc@) =~= before.push((kv, v@)));
                    }
                    j = m;
                } else {
                    return None;
                }
            },
            None => {
                return None;
            },
        }
    }
}

/// Reads a whole text as one JSON value, with only whitespace around it.
pub fn parse_json(text: &str) -> (r: Option<JsonValue>)
    ensures
        match parse_text(text@) {
            Some(v) => r matches Some(x) && x@ == v,
            None => r is None,
        },
{
    let s = crate::text::chars_of(text);
    let i = skip_ws_at(&s, 0);
    match value_at_pos(&s, i) {
        Some((v, j)) => if skip_ws_at(&s, j) == s.len() {
            Some(v)
        } else {
            None
        },
        None => None,
    }
}

} // verus!
