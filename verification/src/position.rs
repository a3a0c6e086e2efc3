//! Source spans: two half-open ranges, one over lines and one over columns.

use vstd::prelude::*;

verus! {

/// A span in a source text: lines `ls..le` and columns `cs..ce`, 0-based.
/// The file path is not part of the span; the context records it when an
/// error is traced.
#[derive(Clone, Copy, Debug, PartialEq, Eq, Structural)]
pub struct Position {
    pub ls: usize,
    pub le: usize,
    pub cs: usize,
    pub ce: usize,
}

impl Position {
    /// The span from line/column `(ls, cs)` to `(le, ce)`.
    pub fn new(ls: usize, le: usize, cs: usize, ce: usize) -> (r: Position)
        ensures
            r == (Position { ls, le, cs, ce }),
    {
        Position { ls, le, cs, ce }
    }

    /// The span covering both `self` and `later`: the earlier start with the
    /// later end.
    pub fn to(&self, later: &Position) -> (r: Position)
        ensures
            r == (Position { ls: self.ls, le: later.le, cs: self.cs, ce: later.ce }),
    {
        Position { ls: self.ls, le: later.le, cs: self.cs, ce: later.ce }
    }
}

} // verus!
