//! Collapsing runs of spaces in a text.
use vstd::prelude::*;
use crate::text::push_char;

verus! {

/// The text with every run of consecutive spaces collapsed into one space.
pub open spec fn collapse_spaces(s: Seq<char>) -> Seq<char>
    decreases s.len(),
{
    if s.len() == 0 {
        s
    } else if s.last() == ' ' && s.len() >= 2 && s[s.len() - 2] == ' ' {
        collapse_spaces(s.drop_last())
    } else {
        collapse_spaces(s.drop_last()).push(s.last())
    }
}

/// A text whose runs of spaces are to be collapsed.
pub struct ClearDoubleSpace {
    chars: Vec<char>,
}

impl ClearDoubleSpace {
    /// The characters to go through.
    pub closed spec fn input(&self) -> Seq<char> {
        self.chars@
    }

    /// Starts on the characters `chars`.
    pub fn new(chars: Vec<char>) -> (r: Self)
        ensures
            r.input() == chars@,
    {
        ClearDoubleSpace { chars }
    }

    /// The characters with every run of spaces collapsed into one space.
    pub fn consume(self) -> (out: String)
        ensures
            out@ == collapse_spaces(self.input()),
    {
        let input = self.chars;
        let mut out = String::new();
        let mut space = false;
        let mut i: usize = 0;
        while i < input.len()
            invariant
                i <= input.len(),
                out@ == collapse_spaces(input@.take(i as int)),
                space == (i > 0 && input@[i - 1] == ' '),
            decreases input.len() - i,
        {
            let c = input[i];
            proof {
                assert(input@.take(i + 1).drop_last() == input@.take(i as int));
            }
            if c == ' ' {
                if !space {
                    push_char(&mut out, c);
                }
                space = true;
            } else {
                space = false;
                push_char(&mut out, c);
            }
            i = i + 1;
        }
        proof {
            assert(input@.take(input@.len() as int) == input@);
        }
        out
    }
}

} // verus!
