use vstd::prelude::*;
use crate::text::{chars_of, push_char};

verus! {

/// The text that `Escape` writes for `s`: every `{` and `}` is doubled,
/// so that the result can stand as the literal part of a format string.
pub open spec fn escape(s: Seq<char>) -> Seq<char>
    decreases s.len(),
{
    if s.len() == 0 {
        Seq::empty()
    } else {
        let c = s.last();
        escape(s.drop_last()) + if c == '{' || c == '}' {
            seq![c, c]
        } else {
            seq![c]
        }
    }
}

/// A writer that doubles braces before passing text on to the writer it wraps.
pub struct Escape<W>(pub W);

impl<W> Escape<W> {
    /// Gives back the wrapped writer.
    pub fn into_inner(self) -> (w: W)
        ensures
            w == self.0,
    {
        self.0
    }
}

impl Escape<String> {
    /// Writes `s` with its braces doubled.
    pub fn write_str(&mut self, s: &str)
        ensures
            final(self).0@ == old(self).0@ + escape(s@),
    {
        let v = chars_of(s);
        let mut i: usize = 0;
        while i < v.len()
            invariant
                i <= v@.len(),
                v@ == s@,
                self.0@ == old(self).0@ + escape(v@.take(i as int)),
            decreases v@.len() - i,
        {
            let c = v[i];
            if c == '{' || c == '}' {
                push_char(&mut self.0, c);
            }
            push_char(&mut self.0, c);
            i = i + 1;
            assert(v@.take(i as int).drop_last() == v@.take(i - 1));
        }
        assert(v@.take(v@.len() as int) == v@);
    }
}

} // verus!
