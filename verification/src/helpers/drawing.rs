use crate::display::Point;
use vstd::prelude::*;

verus! {

/// Whether the cell in column `column` of row `row` lies outside the
/// rectangle that starts at the origin and has the extent `dimensions`.
pub open spec fn is_cell_outside(dimensions: Point, column: int, row: int) -> bool {
    column < 0 || row < 0 || column >= dimensions.width || row >= dimensions.height
}

/// Whether the cell lies outside the dimensions, or above or left of
/// `offset`.
pub open spec fn is_cell_hidden(dimensions: Point, offset: Point, column: int, row: int) -> bool {
    is_cell_outside(dimensions, column, row) || column < offset.width || row < offset.height
}

/// Whether `position` lies outside the rectangle that starts at the origin
/// and has the extent `dimensions`.
pub open spec fn is_outside_dimensions(dimensions: Point, position: Point) -> bool {
    is_cell_outside(dimensions, position.width as int, position.height as int)
}

/// Tells whether the position is outside the provided dimensions.
pub fn get_is_position_outside_dimensions(dimensions: &Point, position: &Point) -> (outside: bool)
    ensures
        outside == is_outside_dimensions(*dimensions, *position),
{
    position.width < 0 || position.height < 0 || position.width >= dimensions.width
        || position.height >= dimensions.height
}

/// Tells whether the position is outside the dimensions, or above or left of
/// the offset at which the drawable area begins.
pub fn get_is_position_outside_dimensions_with_offset(
    dimensions: &Point,
    position: &Point,
    offset: &Point,
) -> (outside: bool)
    ensures
        outside == is_cell_hidden(
            *dimensions,
            *offset,
            position.width as int,
            position.height as int,
        ),
{
    if get_is_position_outside_dimensions(dimensions, position) {
        return true;
    }
    if position.width < offset.width || position.height < offset.height {
        return true;
    }
    false
}

} // verus!
