//! A selected stretch of text between two markers.

use vstd::prelude::*;

use crate::marker::Marker;

verus! {

/// The stretch between the marker where a selection was anchored and the
/// marker it currently extends to.
#[derive(Copy, Clone, Debug)]
pub struct Selection {
    pub anchor: Marker,
    pub end: Marker,
}

} // verus!
