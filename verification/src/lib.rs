//! Text-storage engine of a terminal editor: a gap buffer over raw bytes,
//! with a cursor layer that translates (line, column) coordinates into byte
//! offsets at grapheme-cluster granularity.

pub mod border;
pub mod buffer;
pub mod cursor;
pub mod locate;
pub mod marker;
pub mod point;
pub mod position;
pub mod region;
pub mod screen;
pub mod selection;
pub mod size;
