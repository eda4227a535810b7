use crate::components::drawable::{new_identity, Drawable, DrawableState, DrawableType};
use crate::display::display_controller_error::DisplayControllerError;
use crate::display::element::{Color, Element};
use crate::display::layout::{
    filled_grid, lemma_rect_within_grid, lemma_run_reaches_all, lemma_run_stops, line_cells,
    line_result, outlined, rect_result, Direction, Layout,
};
use crate::display::point::Point;
use vstd::prelude::*;

verus! {

/// The frame around the arena.
#[derive(Debug)]
pub struct Borders {
    pub drawable: DrawableState,
}

/// What the border is drawn with: a red blank.
pub open spec fn border_element() -> Element {
    Element { value: ' ', background: Color::Red, foreground: Color::Red }
}

/// What drawing the border does to an empty grid of the given dimensions,
/// and whether all of it can be drawn.
pub open spec fn border_result(dimensions: Point) -> (Seq<Seq<Option<Element>>>, bool) {
    rect_result(
        filled_grid(dimensions.width as int, dimensions.height as int, None),
        dimensions,
        Point { width: 0, height: 0 },
        dimensions,
        border_element(),
    )
}

/// The border can be drawn around an arena that has cells, and around one
/// that has neither rows nor columns, and around no other. Around an arena
/// with cells it takes the cells along the edge and leaves the rest empty.
pub proof fn lemma_border_result(dimensions: Point)
    requires
        0 <= dimensions.width,
        0 <= dimensions.height,
    ensures
        border_result(dimensions).1 == ((dimensions.width >= 1 && dimensions.height >= 1) || (
        dimensions.width == 0 && dimensions.height == 0)),
        dimensions.width >= 1 && dimensions.height >= 1 ==> border_result(dimensions).0
            == outlined(
            filled_grid(dimensions.width as int, dimensions.height as int, None),
            Point { width: 0, height: 0 },
            dimensions,
            border_element(),
        ),
{
    let width = dimensions.width as int;
    let height = dimensions.height as int;
    let grid = filled_grid(width, height, None::<Element>);
    let origin = Point { width: 0, height: 0 };
    let element = border_element();
    if width >= 1 && height >= 1 {
        lemma_rect_within_grid(grid, dimensions, origin, dimensions, element, width, height);
    } else if width == 0 && height == 0 {
        let none = line_cells(element, 0);
        let bottom_start = Point { width: 0, height: (-1) as i64 };
        let right_start = Point { width: (-1) as i64, height: 0 };
        lemma_run_reaches_all(grid, dimensions, false, none, origin, Direction::Horizontal, 0);
        let top = line_result(grid, dimensions, element, 0, origin, Direction::Horizontal);
        lemma_run_reaches_all(top.0, dimensions, false, none, bottom_start, Direction::Horizontal, 0);
        let bottom = line_result(top.0, dimensions, element, 0, bottom_start, Direction::Horizontal);
        lemma_run_reaches_all(bottom.0, dimensions, false, none, origin, Direction::Vertical, 0);
        let left = line_result(bottom.0, dimensions, element, 0, origin, Direction::Vertical);
        lemma_run_reaches_all(left.0, dimensions, false, none, right_start, Direction::Vertical, 0);
    } else if width == 0 {
        let none = line_cells(element, 0);
        let bottom_start = Point { width: 0, height: (height - 1) as i64 };
        lemma_run_reaches_all(grid, dimensions, false, none, origin, Direction::Horizontal, 0);
        let top = line_result(grid, dimensions, element, 0, origin, Direction::Horizontal);
        lemma_run_reaches_all(top.0, dimensions, false, none, bottom_start, Direction::Horizontal, 0);
        let bottom = line_result(top.0, dimensions, element, 0, bottom_start, Direction::Horizontal);
        let side = line_cells(element, height);
        assert(bottom.0[0].len() == 0);
        lemma_run_reaches_all(bottom.0, dimensions, false, side, origin, Direction::Vertical, 0);
        lemma_run_stops(bottom.0, dimensions, false, side, origin, Direction::Vertical, 0, height);
    } else {
        let edge = line_cells(element, width);
        lemma_run_reaches_all(grid, dimensions, false, edge, origin, Direction::Horizontal, 0);
        lemma_run_stops(grid, dimensions, false, edge, origin, Direction::Horizontal, 0, width);
    }
}

impl Borders {
    /// A border along the edge of an arena of the given dimensions. Fails
    /// where the outline cannot be drawn: where the arena has columns but no
    /// row, or rows but no column.
    pub fn new(dimensions: &Point) -> (result: Result<Self, DisplayControllerError>)
        requires
            0 <= dimensions.width <= usize::MAX,
            0 <= dimensions.height <= usize::MAX,
        ensures
            result is Ok <==> ((dimensions.width >= 1 && dimensions.height >= 1) || (
            dimensions.width == 0 && dimensions.height == 0)),
            match result {
                Ok(borders) => {
                    &&& border_result(*dimensions).1
                    &&& borders.drawable.layout.grid() == border_result(*dimensions).0
                    &&& borders.drawable.layout.dimensions == *dimensions
                    &&& borders.drawable.location == (Point { width: 0, height: 0 })
                    &&& borders.drawable.velocity == (Point { width: 0, height: 0 })
                    &&& borders.drawable.drawable_type == DrawableType::Border
                },
                Err(error) => !border_result(*dimensions).1 && error is PositionOutOfRange,
            },
    {
        proof {
            lemma_border_result(*dimensions);
        }
        let mut drawable = DrawableState {
            layout: Layout::new(dimensions, None),
            location: Point::default(),
            velocity: Point::default(),
            drawable_type: DrawableType::Border,
            uuid: new_identity(),
        };
        match drawable.layout.draw_rect(
            &Point::default(),
            dimensions,
            Element::new(' ', Color::Red, Color::Red),
        ) {
            Ok(_) => {},
            Err(error) => {
                return Err(error);
            },
        }
        Ok(Self { drawable })
    }
}

impl Drawable for Borders {
    open spec fn drawable_state(&self) -> DrawableState {
        self.drawable
    }

    open spec fn with_position(self, position: Point) -> Self {
        Borders { drawable: DrawableState { location: position, ..self.drawable } }
    }

    fn get_drawable_state(&self) -> (state: &DrawableState) {
        &self.drawable
    }

    fn set_position(&mut self, updated_position: Point) -> (ret: &mut Self) {
        self.drawable.location = updated_position;
        self
    }
}

} // verus!
