//! A dual-addressed location in the buffer: a (line, column) coordinate
//! together with the byte offset it denotes.

use vstd::prelude::*;

use crate::position::Position;

verus! {

/// A position paired with the byte offset that denotes the same location.
/// The two may disagree only transiently, while the locator is scanning.
#[derive(PartialEq, Eq, Structural, Copy, Clone, Debug)]
pub struct Cursor {
    pub position: Position,
    pub offset: usize,
}

impl Cursor {
    pub fn new(position: Position, offset: usize) -> (c: Cursor)
        ensures
            c == (Cursor { position, offset }),
    {
        Cursor { position, offset }
    }
}

} // verus!
