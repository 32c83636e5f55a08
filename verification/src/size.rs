//! A width and height on the terminal screen, in character cells.

use vstd::prelude::*;

verus! {

/// A rectangle's extent: width and height in character cells.
#[derive(PartialEq, Eq, Structural, Copy, Clone, Debug)]
pub struct Size {
    pub width: u16,
    pub height: u16,
}

impl Size {
    pub fn new(width: u16, height: u16) -> (s: Size)
        ensures
            s == (Size { width, height }),
    {
        Size { width, height }
    }
}

impl From<(u16, u16)> for Size {
    fn from(size: (u16, u16)) -> (s: Size) {
        Size::new(size.0, size.1)
    }
}

impl vstd::std_specs::convert::FromSpecImpl<(u16, u16)> for Size {
    open spec fn obeys_from_spec() -> bool {
        true
    }

    open spec fn from_spec(size: (u16, u16)) -> Size {
        Size { width: size.0, height: size.1 }
    }
}

} // verus!
