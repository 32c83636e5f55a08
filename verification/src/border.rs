//! The characters a pane is framed with.

use vstd::prelude::*;

verus! {

/// The four corner characters and the two edge characters of a pane frame.
#[derive(Debug)]
pub struct Border {
    pub corners: Box<[char; 4]>,
    pub borders: Box<[char; 2]>,
}

impl Border {
    pub fn new(corners: [char; 4], borders: [char; 2]) -> (b: Border)
        ensures
            b.corners == corners,
            b.borders == borders,
    {
        Border { corners: Box::new(corners), borders: Box::new(borders) }
    }
}

} // verus!
