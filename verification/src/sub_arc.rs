//! Substrings of a shared text, kept as the text and a range of byte
//! offsets into it.
use std::ops::Range;
use std::sync::Arc;
use vstd::prelude::*;
use vstd::string::StringSliceAdditionalSpecFns;
use vstd::utf8::{
    encode_utf8, encode_utf8_valid_utf8, is_char_boundary, is_char_boundary_iff_not_is_continuation_byte,
    is_char_boundary_start_end_of_seq, valid_utf8_split,
};

verus! {

/// Whether `start..end` cuts the text at character boundaries, within it.
pub open spec fn is_str_range(text: Seq<char>, start: int, end: int) -> bool {
    let b = encode_utf8(text);
    &&& 0 <= start <= end <= b.len()
    &&& is_char_boundary(b, start)
    &&& is_char_boundary(b, end)
}

/// The bytes `start..end` of `s`, where they cut it at character
/// boundaries.
pub fn str_range(s: &str, start: usize, end: usize) -> (r: &str)
    requires
        is_str_range(s@, start as int, end as int),
    ensures
        r.spec_bytes() == encode_utf8(s@).subrange(start as int, end as int),
{
    let ghost b = s.spec_bytes();
    proof {
        encode_utf8_valid_utf8(s@);
        valid_utf8_split(b, start as int);
    }
    let (_, rest) = s.split_at(start);
    let ghost rb = rest.spec_bytes();
    proof {
        if end as int == b.len() {
            is_char_boundary_start_end_of_seq(rb);
        } else {
            is_char_boundary_iff_not_is_continuation_byte(b, end as int);
            is_char_boundary_iff_not_is_continuation_byte(rb, end - start);
            assert(rb[end - start] == b[end as int]);
        }
    }
    let (mid, _) = rest.split_at(end - start);
    proof {
        assert(mid.spec_bytes() =~= b.subrange(start as int, end as int));
    }
    mid
}

/// A new shared text holding a copy of `s` (`Arc::<str>::from`): std
/// documents that the `Arc` holds the string's contents.
#[verifier::external_body]
fn arc_from_str(s: &str) -> (r: Arc<str>)
    ensures
        r@ == s@,
{
    Arc::from(s)
}

/// A substring of a shared text: the text and the byte offsets where the
/// substring starts and ends.
#[derive(Clone, Debug, PartialEq, Eq, Hash)]
pub struct SubArc {
    arc: Arc<str>,
    start: usize,
    end: usize,
}

/// A substring of a shared string.
pub type ArcSubStr = SubArc;

impl SubArc {
    /// The whole text the substring is cut from.
    pub closed spec fn source(&self) -> Seq<char> {
        self.arc@
    }

    /// The first byte offset of the substring.
    pub closed spec fn start(&self) -> int {
        self.start as int
    }

    /// The byte offset where the substring ends.
    pub closed spec fn end(&self) -> int {
        self.end as int
    }

    /// Whether the range cuts the text at character boundaries, so that
    /// the substring can be read.
    pub open spec fn is_readable(&self) -> bool {
        is_str_range(self.source(), self.start(), self.end())
    }

    /// The substring `range` of `arc`.
    pub fn new(arc: Arc<str>, range: Range<usize>) -> (r: Self)
        ensures
            r.source() == arc@,
            r.start() == range.start,
            r.end() == range.end,
    {
        SubArc { arc, start: range.start, end: range.end }
    }

    /// The shared text the substring is cut from.
    pub fn backing_arc(&self) -> (r: &Arc<str>)
        ensures
            r@ == self.source(),
    {
        &self.arc
    }

    /// The substring's text: the bytes of the source from `start` to `end`.
    pub fn as_str(&self) -> (r: &str)
        requires
            self.is_readable(),
        ensures
            r.spec_bytes() == encode_utf8(self.source()).subrange(self.start(), self.end()),
    {
        str_range(&*self.arc, self.start, self.end)
    }

    /// A new shared text holding a copy of the substring alone.
    pub fn detach(&self) -> (r: Arc<str>)
        requires
            self.is_readable(),
        ensures
            encode_utf8(r@) == encode_utf8(self.source()).subrange(self.start(), self.end()),
    {
        let s = self.as_str();
        arc_from_str(s)
    }
}

impl SubArc {
    /// Whether the range cuts the text at character boundaries.
    pub fn readable(&self) -> (r: bool)
        ensures
            r == self.is_readable(),
    {
        let s: &str = &*self.arc;
        proof {
            encode_utf8_valid_utf8(s@);
        }
        let len = s.as_bytes().len();
        let r = self.start <= self.end && self.end <= len && s.is_char_boundary(self.start) && s.is_char_boundary(
            self.end,
        );
        r
    }

    /// The substring, or the empty text where the range does not cut the
    /// text at character boundaries.
    fn text(&self) -> (r: &str)
        ensures
            self.is_readable() ==> r.spec_bytes() == encode_utf8(self.source()).subrange(self.start(), self.end()),
            !self.is_readable() ==> r@.len() == 0,
    {
        if self.readable() {
            self.as_str()
        } else {
            proof {
                reveal_strlit("");
            }
            ""
        }
    }
}

impl std::ops::Deref for SubArc {
    type Target = str;

    /// The substring; the empty text where the range does not cut the text
    /// at character boundaries.
    fn deref(&self) -> (r: &str)
        ensures
            self.is_readable() ==> r.spec_bytes() == encode_utf8(self.source()).subrange(self.start(), self.end()),
            !self.is_readable() ==> r@.len() == 0,
    {
        self.text()
    }
}

impl AsRef<str> for SubArc {
    /// The substring, as `deref` gives it.
    fn as_ref(&self) -> (r: &str)
        ensures
            self.is_readable() ==> r.spec_bytes() == encode_utf8(self.source()).subrange(self.start(), self.end()),
            !self.is_readable() ==> r@.len() == 0,
    {
        self.text()
    }
}

} // verus!
