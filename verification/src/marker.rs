//! The pane-side name for a dual-addressed location: a byte offset paired
//! with the (line, column) position it denotes.

use vstd::prelude::*;

use crate::position::Position;

verus! {

/// A byte offset paired with the position it denotes.
#[derive(Copy, Clone, Debug)]
pub struct Marker {
    pub offset: usize,
    pub position: Position,
}

impl Marker {
    pub fn new(offset: usize, position: Position) -> (m: Marker)
        ensures
            m == (Marker { offset, position }),
    {
        Marker { offset, position }
    }
}

} // verus!
