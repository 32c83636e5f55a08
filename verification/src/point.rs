//! A point on the terminal screen, in character cells.

use vstd::prelude::*;

verus! {

/// A screen cell coordinate: zero-based row and column.
#[derive(PartialEq, Eq, Structural, Copy, Clone, Debug)]
pub struct Point {
    pub row: u16,
    pub column: u16,
}

impl Point {
    pub fn new(row: u16, column: u16) -> (p: Point)
        ensures
            p == (Point { row, column }),
    {
        Point { row, column }
    }

    /// The top-left corner of the screen.
    pub fn origin() -> (p: Point)
        ensures
            p == (Point { row: 0, column: 0 }),
    {
        Point { row: 0, column: 0 }
    }
}

} // verus!
