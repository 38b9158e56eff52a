//! Byte-offset source locations carried by every token and syntax-tree node.

use vstd::prelude::*;

verus! {

/// Half-open byte range `[start, end)` into the original source text.
/// Spans locate tokens and syntax-tree nodes for diagnostics; they carry no
/// semantic weight.
#[derive(Debug, Clone, Copy, PartialEq, Eq, Structural)]
pub struct Span {
    pub start: usize,
    pub end: usize,
}

impl Span {
    /// A span is well formed when it does not run backwards.
    pub open spec fn wf(self) -> bool {
        self.start <= self.end
    }

    pub fn new(start: usize, end: usize) -> (r: Span)
        ensures
            r.start == start,
            r.end == end,
    {
        Span { start, end }
    }

    /// The span covering everything from the start of `self` to the end of `other`.
    pub fn to(self, other: Span) -> (r: Span)
        ensures
            r.start == self.start,
            r.end == other.end,
    {
        Span { start: self.start, end: other.end }
    }
}

} // verus!
