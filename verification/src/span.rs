//! Source locations.

use vstd::prelude::*;

verus! {

/// A half-open range `[start, end)` of byte offsets into a source text.
#[derive(Clone, Copy, Debug, PartialEq, Eq, Structural)]
pub struct Span {
    pub start: usize,
    pub end: usize,
}

/// A value together with the place it was read from.
pub type Spanned<T> = (T, Span);

impl Span {
    /// Whether the span lies inside a text of `len` bytes: it does not end
    /// before it starts, nor behind the text.
    pub open spec fn within(&self, len: int) -> bool {
        self.start <= self.end <= len
    }

    /// The span from `start` up to, not including, `end`.
    pub fn new(start: usize, end: usize) -> (s: Span)
        ensures
            s.start == start,
            s.end == end,
    {
        Span { start, end }
    }
}

} // verus!
