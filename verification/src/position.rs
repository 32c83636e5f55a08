//! The (line, column) coordinate of a location in the logical text.

use vstd::prelude::*;

verus! {

use vstd::std_specs::cmp::PartialOrdSpec;

/// A zero-based (line, column) coordinate. Positions are ordered first by
/// line, then by column.
#[derive(PartialEq, Eq, Structural, Copy, Clone, Debug)]
pub struct Position {
    pub line: usize,
    pub column: usize,
}

impl Position {
    pub fn new(line: usize, column: usize) -> (p: Position)
        ensures
            p == (Position { line, column }),
    {
        Position { line, column }
    }
}

/// `a` is at or before `b`: on an earlier line, or on the same line at an
/// equal or smaller column.
pub open spec fn pos_le(a: Position, b: Position) -> bool {
    a.line < b.line || (a.line == b.line && a.column <= b.column)
}

impl PartialOrd for Position {
    fn partial_cmp(&self, other: &Self) -> (r: Option<core::cmp::Ordering>) {
        if other == self {
            Some(core::cmp::Ordering::Equal)
        } else if other.line < self.line {
            Some(core::cmp::Ordering::Greater)
        } else if other.line == self.line && other.column < self.column {
            Some(core::cmp::Ordering::Greater)
        } else {
            Some(core::cmp::Ordering::Less)
        }
    }
}

impl vstd::std_specs::cmp::PartialOrdSpecImpl for Position {
    open spec fn obeys_partial_cmp_spec() -> bool {
        true
    }

    open spec fn partial_cmp_spec(&self, other: &Self) -> Option<core::cmp::Ordering> {
        if self.line == other.line && self.column == other.column {
            Some(core::cmp::Ordering::Equal)
        } else if other.line < self.line {
            Some(core::cmp::Ordering::Greater)
        } else if other.line == self.line && other.column < self.column {
            Some(core::cmp::Ordering::Greater)
        } else {
            Some(core::cmp::Ordering::Less)
        }
    }
}

/// The hand-written order agrees with `pos_le`: `a <= b` exactly when
/// `pos_le(a, b)`.
pub proof fn lemma_order_matches_pos_le(a: Position, b: Position)
    ensures
        (a.partial_cmp_spec(&b) matches Some(o) && (o == core::cmp::Ordering::Less || o
            == core::cmp::Ordering::Equal)) <==> pos_le(a, b),
{
}

} // verus!
