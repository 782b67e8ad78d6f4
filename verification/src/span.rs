//! Source positions and ranges.
use vstd::prelude::*;

verus! {

/// A position in a source text: byte offset plus 1-based line and column.
#[derive(Debug, Clone, Copy, Default, PartialEq, Eq)]
pub struct Pos {
    pub offset: usize,
    pub line: usize,
    pub column: usize,
}

/// A half-open range between two positions.
#[derive(Debug, Clone, Copy, Default, PartialEq, Eq)]
pub struct Span {
    pub start: Pos,
    pub end: Pos,
}

impl Span {
    pub fn new(start: Pos, end: Pos) -> (r: Self)
        ensures
            r.start == start,
            r.end == end,
    {
        Span { start, end }
    }
}

} // verus!
