//! A rectangular span of the (line, column) coordinate space.

use vstd::prelude::*;

use crate::position::{pos_le, Position};

verus! {

/// The positions between `top_left` and `bottom_right`, both inclusive.
#[derive(Debug)]
pub struct Region {
    pub top_left: Position,
    pub bottom_right: Position,
}

impl Region {
    pub fn new(top_left: Position, bottom_right: Position) -> (r: Region)
        ensures
            r == (Region { top_left, bottom_right }),
    {
        Region { top_left, bottom_right }
    }

    /// Whether `position` lies inside the region, in the line-then-column
    /// order of positions.
    pub fn contains(&self, position: Position) -> (r: bool)
        ensures
            r == (pos_le(self.top_left, position) && pos_le(position, self.bottom_right)),
    {
        position >= self.top_left && position <= self.bottom_right
    }
}

} // verus!
