//! Screen-space geometry: cell positions, rectangular regions, and the
//! direction a container splits its panes in.

use vstd::prelude::*;

verus! {

/// A screen cell coordinate: zero-based row and column.
#[derive(PartialEq, Eq, Structural, Copy, Clone, Debug)]
pub struct Position {
    pub row: u16,
    pub column: u16,
}

impl Position {
    pub fn new(row: u16, column: u16) -> (p: Position)
        ensures
            p == (Position { row, column }),
    {
        Position { row, column }
    }
}

/// A rectangle of screen cells between two corners, both inclusive.
#[derive(Debug)]
pub struct Region {
    pub top_left: Position,
    pub bottom_right: Position,
}

impl Region {
    pub fn new(top_left: Position, bottom_right: Position) -> (r: Region)
        ensures
            r == (Region { top_left, bottom_right }),
    {
        Region { top_left, bottom_right }
    }
}

/// Which way a container lays its children out.
#[derive(PartialEq, Eq, Structural, Copy, Clone, Debug)]
pub enum Layout {
    Vertical,
    Horizontal,
}

} // verus!
