//! Small geometric predicates shared by drawing and collision code, sums
//! over finite sets, and a listing of a map's keys.

pub mod drawing;
pub mod maps;
pub mod sums;

pub use drawing::{get_is_position_outside_dimensions, get_is_position_outside_dimensions_with_offset};
