//! Pieces of requests kept as text, and substrings that share their text.
use std::ops::Range;
use std::sync::Arc;
use vstd::prelude::*;
use vstd::string::StringSliceAdditionalSpecFns;
use crate::json::{Json, JsonValue, json_text, write_json};
use crate::text::push_char;
use crate::sub_arc::{is_str_range, str_range};

verus! {

/// Another handle on the same shared text (`Arc::clone`): std documents
/// that the clone points to the same allocation, so it holds the same text.
#[verifier::external_body]
fn share_text(a: &Arc<str>) -> (r: Arc<str>)
    ensures
        r@ == a@,
{
    Arc::clone(a)
}

/// A substring of a shared text, given by a range of byte offsets.
pub struct ArcSubStrJCV1 {
    inner: Arc<str>,
    range: Range<usize>,
}

impl ArcSubStrJCV1 {
    /// The whole text the substring is cut from.
    pub closed spec fn source(&self) -> Seq<char> {
        self.inner@
    }

    /// The first byte offset of the substring.
    pub closed spec fn start(&self) -> int {
        self.range.start as int
    }

    /// The byte offset where the substring ends.
    pub closed spec fn end(&self) -> int {
        self.range.end as int
    }

    #[verifier::type_invariant]
    closed spec fn inv(&self) -> bool {
        is_str_range(self.inner@, self.range.start as int, self.range.end as int)
    }

    /// The substring `range` of `arc`, sharing its text.
    pub fn from_arc(arc: &Arc<str>, range: Range<usize>) -> (r: Self)
        requires
            is_str_range(arc@, range.start as int, range.end as int),
        ensures
            r.source() == arc@,
            r.start() == range.start,
            r.end() == range.end,
    {
        Self { inner: share_text(arc), range }
    }

    /// The substring's text: the bytes of the source from `start` to `end`.
    pub fn as_str(&self) -> (r: &str)
        ensures
            r.spec_bytes() == vstd::utf8::encode_utf8(self.source()).subrange(self.start(), self.end()),
    {
        proof {
            use_type_invariant(self);
        }
        str_range(&*self.inner, self.range.start, self.range.end)
    }
}

/// One member of an object as the visitor writes it: the key between
/// quotes as it is, a colon and a space, the value's compact text.
pub open spec fn raw_entry_text(e: (Seq<char>, Json)) -> Seq<char> {
    seq!['"'] + e.0 + seq!['"', ':', ' '] + json_text(e.1)
}

/// The members of an object as the visitor writes them, separated by a
/// comma and a space.
pub open spec fn raw_entries_text(entries: Seq<(Seq<char>, Json)>) -> Seq<char>
    decreases entries.len(),
{
    if entries.len() == 0 {
        Seq::empty()
    } else if entries.len() == 1 {
        raw_entry_text(entries[0])
    } else {
        raw_entries_text(entries.drop_last()) + seq![',', ' '] + raw_entry_text(entries.last())
    }
}

/// The text a value is kept as: a string between quotes as it is, a
/// boolean as `true` or `false`, an object as its members between braces;
/// other values are not accepted.
pub open spec fn any_text(v: Json) -> Option<Seq<char>> {
    match v {
        Json::Str(s) => Some(seq!['"'] + s + seq!['"']),
        Json::Bool(b) => Some(if b { seq!['t', 'r', 'u', 'e'] } else { seq!['f', 'a', 'l', 's', 'e'] }),
        Json::Object(entries) => Some(seq!['{'] + raw_entries_text(entries) + seq!['}']),
        _ => None,
    }
}

/// Appends the characters of `s`.
fn push_chars(out: &mut String, s: &Vec<char>)
    ensures
        final(out)@ == old(out)@ + s@,
{
    let mut i: usize = 0;
    while i < s.len()
        invariant
            i <= s@.len(),
            out@ == old(out)@ + s@.take(i as int),
        decreases s@.len() - i,
    {
        push_char(out, s[i]);
        proof {
            assert(s@.take(i + 1) =~= s@.take(i as int).push(s@[i as int]));
        }
        i = i + 1;
    }
    proof {
        assert(s@.take(s@.len() as int) =~= s@);
    }
}

/// Reads any value into the text it is kept as.
pub struct AnyVisitor;

impl AnyVisitor {
    /// The text `v` is kept as, where it is a string, a boolean or an
    /// object.
    pub fn visit(&self, v: &JsonValue) -> (r: Option<String>)
        ensures
            match any_text(v@) {
                Some(t) => r matches Some(s) && s@ == t,
                None => r is None,
            },
    {
        match v {
            JsonValue::Str(t) => {
                let mut out = String::new();
                push_char(&mut out, '"');
                push_chars(&mut out, t);
                push_char(&mut out, '"');
                proof {
                    assert(out@ =~= seq!['"'] + t@ + seq!['"']);
                }
                Some(out)
            },
            JsonValue::Bool(b) => {
                let mut out = String::new();
                if *b {
                    push_char(&mut out, 't');
                    push_char(&mut out, 'r');
                    push_char(&mut out, 'u');
                    push_char(&mut out, 'e');
                } else {
                    push_char(&mut out, 'f');
                    push_char(&mut out, 'a');
                    push_char(&mut out, 'l');
                    push_char(&mut out, 's');
                    push_char(&mut out, 'e');
                }
                proof {
                    assert(out@ =~= any_text(v@).unwrap());
                }
                Some(out)
            },
            JsonValue::Object(es) => {
                let ghost ev = match v@ {
                    Json::Object(e) => e,
                    _ => Seq::empty(),
                };
                let mut out = String::new();
                push_char(&mut out, '{');
                let ghost start = out@;
                let mut i: usize = 0;
                while i < es.len()
                    invariant
                        i <= es@.len(),
                        ev.len() == es@.len(),
                        forall|k: int| 0 <= k < es@.len() ==> #[trigger] ev[k] == (es@[k].0@, es@[k].1@),
                        start == seq!['{'],
                        out@ == start + raw_entries_text(ev.take(i as int)),
                    decreases es@.len() - i,
                {
                    let ghost before = out@;
                    if i > 0 {
                        push_char(&mut out, ',');
                        push_char(&mut out, ' ');
                    }
                    push_char(&mut out, '"');
                    push_chars(&mut out, &es[i].0);
                    push_char(&mut out, '"');
                    push_char(&mut out, ':');
                    push_char(&mut out, ' ');
                    write_json(&es[i].1, &mut out);
                    proof {
                        let t = ev.take(i + 1);
                        assert(t.drop_last() =~= ev.take(i as int));
                        assert(t.last() == ev[i as int]);
                        if i == 0 {
                            assert(out@ =~= start + raw_entries_text(t));
                        } else {
                            assert(out@ =~= before + seq![',', ' '] + raw_entry_text(ev[i as int]));
                            assert(out@ =~= start + raw_entries_text(t));
                        }
                    }
                    i = i + 1;
                }
                push_char(&mut out, '}');
                proof {
                    assert(ev.take(es@.len() as int) =~= ev);
                    assert(out@ =~= any_text(v@).unwrap());
                }
                Some(out)
            },
            _ => None,
        }
    }
}

/// A piece of a request kept as text, to be read later.
pub struct PartialDeserializeV1(pub String);

impl PartialDeserializeV1 {
    /// Keeps `v` as the text the visitor reads it into; `None` where the
    /// visitor does not accept it.
    pub fn deserialize(v: &JsonValue) -> (r: Option<PartialDeserializeV1>)
        ensures
            match any_text(v@) {
                Some(t) => r matches Some(p) && p.0@ == t,
                None => r is None,
            },
    {
        match AnyVisitor.visit(v) {
            Some(s) => Some(PartialDeserializeV1(s)),
            None => None,
        }
    }
}

} // verus!
