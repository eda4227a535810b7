use super::display_controller_error::DisplayControllerError;
use super::element::{
    cell_of, color_or, parse_str_to_element_array, str_cells, Color, Element, DEFAULT_BACKGROUND,
    DEFAULT_FOREGROUND,
};
use super::point::{fits_i64, Point};
use crate::helpers::drawing::is_cell_hidden;
use vstd::prelude::*;
use vstd::string::StringSliceAdditionalSpecFns;

verus! {

pub type TwoDVec<T> = Vec<Vec<T>>;

/// Rows of cells; a cell that holds `None` is transparent.
pub type CellMap = TwoDVec<Option<Element>>;

pub type LayoutResult<T> = Result<T, DisplayControllerError>;

/// The rows of a two-dimensional vector, as sequences.
pub open spec fn rows_of<T>(two_d_vec: TwoDVec<T>) -> Seq<Seq<T>> {
    two_d_vec@.map_values(|row: Vec<T>| row@)
}

/// Joins the rows of a two-dimensional vector into one vector, first row first.
pub fn collapse_twoDVec<T>(twoDVec: TwoDVec<T>) -> (collapsed: Vec<T>)
    ensures
        collapsed@ == rows_of(twoDVec).flatten(),
{
    let ghost rows = rows_of(twoDVec);
    let mut return_vec: Vec<T> = Vec::new();
    proof {
        assert(rows.take(0) =~= Seq::<Seq<T>>::empty());
    }
    for row in outer: twoDVec
        invariant
            outer.seq() == twoDVec@,
            rows == rows_of(twoDVec),
            return_vec@ == rows.take(outer.index()).flatten(),
    {
        let ghost start = return_vec@;
        let ghost row_seq = row@;
        assert(row_seq == rows[outer.index()]);
        for item in inner: row
            invariant
                inner.seq() == row_seq,
                return_vec@ == start + row_seq.take(inner.index()),
        {
            return_vec.push(item);
            proof {
                assert(row_seq.take(inner.index() + 1) =~= row_seq.take(inner.index()).push(item));
            }
        }
        proof {
            assert(row_seq.take(row_seq.len() as int) =~= row_seq);
            assert(rows.take(outer.index() + 1) =~= rows.take(outer.index()).push(row_seq));
            rows.take(outer.index()).lemma_flatten_push(row_seq);
        }
    }
    proof {
        assert(rows.take(rows.len() as int) =~= rows);
    }
    return_vec
}

/// Whether `two_d_vec` has `height` rows of `width` cells that all hold `cell`.
pub open spec fn is_filled_with<T>(two_d_vec: TwoDVec<T>, width: int, height: int, cell: T) -> bool {
    &&& two_d_vec.len() == height
    &&& forall|row: int| 0 <= row < height ==> (#[trigger] two_d_vec[row]).len() == width
    &&& forall|row: int, column: int|
        0 <= row < height && 0 <= column < width ==> #[trigger] two_d_vec[row][column] == cell
}

/// The rows of a grid of `height` rows of `width` cells that all hold `cell`.
pub open spec fn filled_grid<T>(width: int, height: int, cell: T) -> Seq<Seq<T>> {
    Seq::new(height as nat, |row: int| Seq::new(width as nat, |column: int| cell))
}

/// A grid of `dimensions.height` rows and `dimensions.width` columns in which
/// every cell holds `default_element`.
pub fn create_map<T: Copy>(dimensions: &Point, default_element: Option<T>) -> (map: TwoDVec<Option<T>>)
    requires
        0 <= dimensions.width <= usize::MAX,
        0 <= dimensions.height <= usize::MAX,
    ensures
        is_filled_with(map, dimensions.width as int, dimensions.height as int, default_element),
        rows_of(map) == filled_grid(
            dimensions.width as int,
            dimensions.height as int,
            default_element,
        ),
{
    let width = dimensions.width as usize;
    let height = dimensions.height as usize;
    let mut map: TwoDVec<Option<T>> = Vec::new();
    let mut row_number: usize = 0;
    while row_number < height
        invariant
            row_number <= height,
            width == dimensions.width,
            is_filled_with(map, width as int, row_number as int, default_element),
        decreases height - row_number,
    {
        let mut row: Vec<Option<T>> = Vec::new();
        let mut column: usize = 0;
        while column < width
            invariant
                column <= width,
                row.len() == column,
                forall|i: int| 0 <= i < column ==> #[trigger] row[i] == default_element,
            decreases width - column,
        {
            row.push(default_element);
            column = column + 1;
        }
        map.push(row);
        row_number = row_number + 1;
    }
    proof {
        assert(rows_of(map) =~~= filled_grid(
            dimensions.width as int,
            dimensions.height as int,
            default_element,
        ));
    }
    map
}

/// Whether a line runs down a column or along a row.
pub enum Direction {
    Vertical,
    Horizontal,
}

/// A grid of optional elements together with the extent it was made for.
/// A cell that holds `None`, or that the grid lacks, is transparent: it is
/// neither shown nor hit.
#[derive(Debug, PartialEq)]
pub struct Layout {
    /// Rows first: `map[row][column]`.
    pub map: CellMap,
    pub dimensions: Point,
    pub default_element: Option<Element>,
}

impl Layout {
    /// Whether the grid has a cell at `row`, `column`.
    pub open spec fn has_cell(&self, row: int, column: int) -> bool {
        0 <= row < self.map.len() && 0 <= column < self.map[row].len()
    }

    /// What the grid holds at `row`, `column`; `None` where it has no such cell.
    pub open spec fn cell(&self, row: int, column: int) -> Option<Element> {
        if self.has_cell(row, column) {
            self.map[row][column]
        } else {
            None
        }
    }

    /// Whether the grid is exactly `dimensions.height` rows of
    /// `dimensions.width` cells.
    pub open spec fn is_rectangular(&self) -> bool {
        &&& 0 <= self.dimensions.width <= usize::MAX
        &&& self.map.len() == self.dimensions.height
        &&& forall|row: int|
            0 <= row < self.map.len() ==> (#[trigger] self.map[row]).len() == self.dimensions.width
    }

    /// Creates a layout of the given dimensions in which every cell holds
    /// `default_element`.
    pub fn new(dimensions: &Point, default_element: Option<Element>) -> (layout: Self)
        requires
            0 <= dimensions.width <= usize::MAX,
            0 <= dimensions.height <= usize::MAX,
        ensures
            layout.dimensions == *dimensions,
            layout.default_element == default_element,
            layout.is_rectangular(),
            is_filled_with(
                layout.map,
                dimensions.width as int,
                dimensions.height as int,
                default_element,
            ),
            layout.grid() == filled_grid(
                dimensions.width as int,
                dimensions.height as int,
                default_element,
            ),
    {
        Self { map: create_map(dimensions, default_element), dimensions: *dimensions, default_element }
    }

    /// Wraps a grid. The layout is as high as the grid has rows and as wide
    /// as its longest row.
    pub fn from_map(map: Vec<Vec<Option<Element>>>, default_element: Option<Element>) -> (layout: Self)
        requires
            map.len() > 0,
        ensures
            layout.map == map,
            layout.default_element == default_element,
            layout.dimensions.height == map.len() as i64,
            exists|widest: int|
                0 <= widest < map.len() && layout.dimensions.width == (#[trigger] map[widest]).len() as i64
                    && forall|row: int|
                    0 <= row < map.len() ==> (#[trigger] map[row]).len() <= map[widest].len(),
    {
        let mut width: usize = map[0].len();
        let ghost mut widest: int = 0;
        let mut row_number: usize = 1;
        while row_number < map.len()
            invariant
                1 <= row_number <= map.len(),
                0 <= widest < row_number,
                map[widest].len() == width,
                forall|row: int| 0 <= row < row_number ==> (#[trigger] map[row]).len() <= width,
            decreases map.len() - row_number,
        {
            if map[row_number].len() > width {
                width = map[row_number].len();
                proof {
                    widest = row_number as int;
                }
            }
            row_number = row_number + 1;
        }
        let height = map.len();
        Self { dimensions: Point { width: width as i64, height: height as i64 }, map, default_element }
    }

    /// The rows of the grid, as sequences.
    pub open spec fn grid(&self) -> Seq<Seq<Option<Element>>> {
        rows_of(self.map)
    }

    /// Whether `draw_item` can put an element at `position`: the position is
    /// before the end of the layout on both axes, and the grid has that cell.
    pub open spec fn can_draw_at(&self, position: Point) -> bool {
        &&& position.width < self.dimensions.width
        &&& position.height < self.dimensions.height
        &&& self.has_cell(position.height as int, position.width as int)
    }

    /// Fills the layout anew with its default element.
    pub fn reset(&mut self) -> (ret: &mut Self)
        requires
            0 <= old(self).dimensions.width <= usize::MAX,
            0 <= old(self).dimensions.height <= usize::MAX,
        ensures
            ret.dimensions == old(self).dimensions,
            ret.default_element == old(self).default_element,
            ret.is_rectangular(),
            is_filled_with(
                ret.map,
                ret.dimensions.width as int,
                ret.dimensions.height as int,
                ret.default_element,
            ),
            ret.grid() == filled_grid(
                ret.dimensions.width as int,
                ret.dimensions.height as int,
                ret.default_element,
            ),
            *final(self) == *final(ret),
    {
        self.map = create_map(&self.dimensions, self.default_element);
        self
    }

    pub fn get_row(&self, row_number: i64) -> (result: LayoutResult<&Vec<Option<Element>>>)
        ensures
            match result {
                Ok(row) => 0 <= row_number < self.map.len() && *row == self.map[row_number as int],
                Err(error) => !(0 <= row_number < self.map.len()) && error is PositionOutOfRange,
            },
    {
        if row_number < 0 || row_number as u64 >= self.map.len() as u64 {
            return Err(DisplayControllerError::PositionOutOfRange);
        }
        Ok(&self.map[row_number as usize])
    }

    pub fn get_row_mut(&mut self, row_number: i64) -> (result: LayoutResult<&mut Vec<Option<Element>>>)
        ensures
            match result {
                Ok(row) => {
                    &&& 0 <= row_number < old(self).map.len()
                    &&& *row == old(self).map[row_number as int]
                    &&& final(self).map@ == old(self).map@.update(row_number as int, *final(row))
                    &&& final(self).dimensions == old(self).dimensions
                    &&& final(self).default_element == old(self).default_element
                },
                Err(error) => {
                    &&& !(0 <= row_number < old(self).map.len())
                    &&& error is PositionOutOfRange
                    &&& *final(self) == *old(self)
                },
            },
    {
        if row_number < 0 || row_number as u64 >= self.map.len() as u64 {
            return Err(DisplayControllerError::PositionOutOfRange);
        }
        Ok(&mut self.map[row_number as usize])
    }

    pub fn get_element(&self, point: &Point) -> (result: LayoutResult<&Option<Element>>)
        ensures
            match result {
                Ok(cell) => self.has_cell(point.height as int, point.width as int) && *cell
                    == self.map[point.height as int][point.width as int],
                Err(error) => !self.has_cell(point.height as int, point.width as int)
                    && error is PositionOutOfRange,
            },
    {
        let row = match self.get_row(point.height) {
            Ok(row) => row,
            Err(error) => {
                return Err(error);
            },
        };
        if point.width < 0 || point.width as u64 >= row.len() as u64 {
            return Err(DisplayControllerError::PositionOutOfRange);
        }
        Ok(&row[point.width as usize])
    }

    pub fn get_element_mut(&mut self, point: &Point) -> (result: LayoutResult<&mut Option<Element>>)
        ensures
            match result {
                Ok(cell) => {
                    &&& old(self).has_cell(point.height as int, point.width as int)
                    &&& *cell == old(self).map[point.height as int][point.width as int]
                    &&& final(self).grid() == with_cell(
                        old(self).grid(),
                        point.height as int,
                        point.width as int,
                        *final(cell),
                    )
                    &&& final(self).dimensions == old(self).dimensions
                    &&& final(self).default_element == old(self).default_element
                },
                Err(error) => {
                    &&& !old(self).has_cell(point.height as int, point.width as int)
                    &&& error is PositionOutOfRange
                    &&& *final(self) == *old(self)
                },
            },
    {
        if point.height < 0 || point.width < 0 {
            return Err(DisplayControllerError::PositionOutOfRange);
        }
        if point.height as u64 >= self.map.len() as u64 {
            return Err(DisplayControllerError::PositionOutOfRange);
        }
        let row = point.height as usize;
        if point.width as u64 >= self.map[row].len() as u64 {
            return Err(DisplayControllerError::PositionOutOfRange);
        }
        let column = point.width as usize;
        Ok(&mut self.map[row][column])
    }

    /// The cells of one column, top row first. Fails where one of the first
    /// `dimensions.height` rows is missing or has no such column.
    pub fn get_column(&self, column_number: i64) -> (result: LayoutResult<Vec<&Option<Element>>>)
        ensures
            match result {
                Ok(items) => {
                    &&& forall|row: int|
                        0 <= row < self.dimensions.height ==> self.has_cell(row, column_number as int)
                    &&& items.len() == if self.dimensions.height > 0 {
                        self.dimensions.height as int
                    } else {
                        0
                    }
                    &&& forall|row: int|
                        0 <= row < items.len() ==> *#[trigger] items[row]
                            == self.map[row][column_number as int]
                },
                Err(error) => {
                    &&& exists|row: int|
                        0 <= row < self.dimensions.height && !self.has_cell(row, column_number as int)
                    &&& error is PositionOutOfRange
                },
            },
    {
        let mut items: Vec<&Option<Element>> = Vec::new();
        let mut height: i64 = 0;
        while height < self.dimensions.height
            invariant
                0 <= height,
                height <= self.dimensions.height || (self.dimensions.height < 0 && height == 0),
                items.len() == height,
                forall|row: int| 0 <= row < height ==> self.has_cell(row, column_number as int),
                forall|row: int|
                    0 <= row < items.len() ==> *#[trigger] items[row]
                        == self.map[row][column_number as int],
            decreases self.dimensions.height - height,
        {
            let element = match self.get_element(&Point { width: column_number, height }) {
                Ok(element) => element,
                Err(error) => {
                    assert(!self.has_cell(height as int, column_number as int));
                    return Err(error);
                },
            };
            items.push(element);
            height = height + 1;
        }
        Ok(items)
    }

    /// Puts `element` at `position`.
    pub fn draw_item(&mut self, element: Element, position: &Point) -> (result: LayoutResult<&mut Self>)
        ensures
            match result {
                Ok(ret) => {
                    &&& old(self).can_draw_at(*position)
                    &&& ret.grid() == with_cell(
                        old(self).grid(),
                        position.height as int,
                        position.width as int,
                        Some(element),
                    )
                    &&& ret.dimensions == old(self).dimensions
                    &&& ret.default_element == old(self).default_element
                    &&& *final(self) == *final(ret)
                },
                Err(error) => {
                    &&& !old(self).can_draw_at(*position)
                    &&& error is PositionOutOfRange
                    &&& *final(self) == *old(self)
                },
            },
    {
        if position.width >= self.dimensions.width || position.height >= self.dimensions.height {
            return Err(DisplayControllerError::PositionOutOfRange);
        }
        match self.get_element_mut(position) {
            Ok(existing_element) => {
                *existing_element = Some(element);
            },
            Err(error) => {
                return Err(error);
            },
        }
        Ok(self)
    }
}

/// `grid` with the cell at `row`, `column` replaced by `cell`.
pub open spec fn with_cell(
    grid: Seq<Seq<Option<Element>>>,
    row: int,
    column: int,
    cell: Option<Element>,
) -> Seq<Seq<Option<Element>>> {
    grid.update(row, grid[row].update(column, cell))
}

/// The row of the cell at place `i` of a run that starts at `start`.
pub open spec fn run_row(start: Point, direction: Direction, i: int) -> int {
    match direction {
        Direction::Vertical => start.height + i,
        Direction::Horizontal => start.height as int,
    }
}

/// The column of the cell at place `i` of a run that starts at `start`.
pub open spec fn run_column(start: Point, direction: Direction, i: int) -> int {
    match direction {
        Direction::Vertical => start.width as int,
        Direction::Horizontal => start.width + i,
    }
}

/// Whether the cell at place `i` of a run can be written: the grid has it,
/// and, for a `bounded` run, it lies before the end of `dimensions`.
pub open spec fn run_cell_free(
    grid: Seq<Seq<Option<Element>>>,
    dimensions: Point,
    bounded: bool,
    start: Point,
    direction: Direction,
    i: int,
) -> bool {
    let row = run_row(start, direction, i);
    let column = run_column(start, direction, i);
    &&& 0 <= row < grid.len()
    &&& 0 <= column < grid[row].len()
    &&& bounded ==> column < dimensions.width && row < dimensions.height
}

/// How far a run gets among its first `upto` cells: it stops before the
/// first element that has no cell to go to. Cells for which the run holds
/// `None` are passed over.
pub open spec fn run_reach(
    grid: Seq<Seq<Option<Element>>>,
    dimensions: Point,
    bounded: bool,
    cells: Seq<Option<Element>>,
    start: Point,
    direction: Direction,
    upto: int,
) -> int
    decreases upto,
{
    if upto <= 0 {
        0
    } else {
        let before = run_reach(grid, dimensions, bounded, cells, start, direction, upto - 1);
        if before == upto - 1 && (cells[upto - 1] is Some ==> run_cell_free(
            grid,
            dimensions,
            bounded,
            start,
            direction,
            upto - 1,
        )) {
            upto
        } else {
            before
        }
    }
}

/// The grid after the first `count` cells of a run have been written.
pub open spec fn run_drawn(
    grid: Seq<Seq<Option<Element>>>,
    cells: Seq<Option<Element>>,
    start: Point,
    direction: Direction,
    count: int,
) -> Seq<Seq<Option<Element>>> {
    Seq::new(
        grid.len(),
        |row: int|
            Seq::new(
                grid[row].len(),
                |column: int|
                    {
                        let i = match direction {
                            Direction::Vertical => row - start.height,
                            Direction::Horizontal => column - start.width,
                        };
                        let on_run = match direction {
                            Direction::Vertical => column == start.width,
                            Direction::Horizontal => row == start.height,
                        };
                        if on_run && 0 <= i < count && cells[i] is Some {
                            cells[i]
                        } else {
                            grid[row][column]
                        }
                    },
            ),
    )
}

/// The cells of a line of `len` elements.
pub open spec fn line_cells(element: Element, len: int) -> Seq<Option<Element>> {
    Seq::new(
        if len > 0 {
            len as nat
        } else {
            0
        },
        |i: int| Some(element),
    )
}

/// What drawing a run does to a grid, and whether all of it was drawn.
pub open spec fn run_result(
    grid: Seq<Seq<Option<Element>>>,
    dimensions: Point,
    bounded: bool,
    cells: Seq<Option<Element>>,
    start: Point,
    direction: Direction,
) -> (Seq<Seq<Option<Element>>>, bool) {
    let reach = run_reach(grid, dimensions, bounded, cells, start, direction, cells.len() as int);
    (run_drawn(grid, cells, start, direction, reach), reach == cells.len())
}

/// A run that has stopped does not go on.
pub proof fn lemma_run_stops(
    grid: Seq<Seq<Option<Element>>>,
    dimensions: Point,
    bounded: bool,
    cells: Seq<Option<Element>>,
    start: Point,
    direction: Direction,
    i: int,
    upto: int,
)
    requires
        0 <= i < upto,
        run_reach(grid, dimensions, bounded, cells, start, direction, i) == i,
        cells[i] is Some,
        !run_cell_free(grid, dimensions, bounded, start, direction, i),
    ensures
        run_reach(grid, dimensions, bounded, cells, start, direction, upto) == i,
    decreases upto,
{
    if upto > i + 1 {
        lemma_run_stops(grid, dimensions, bounded, cells, start, direction, i, upto - 1);
    }
}

impl Layout {
    /// Writes the cell at place `i` of a run, where the run holds an element
    /// for it, and tells whether the run can go on.
    fn draw_run_cell(
        &mut self,
        Ghost(grid): Ghost<Seq<Seq<Option<Element>>>>,
        bounded: bool,
        Ghost(cells): Ghost<Seq<Option<Element>>>,
        cell: Option<Element>,
        start: &Point,
        direction: &Direction,
        i: u64,
    ) -> (drawn: bool)
        requires
            i < cells.len(),
            cell == cells[i as int],
            grid.len() == old(self).map.len(),
            forall|row: int| 0 <= row < grid.len() ==> (#[trigger] grid[row]).len() == old(self).map[row].len(),
            old(self).grid() == run_drawn(grid, cells, *start, *direction, i as int),
            run_reach(grid, old(self).dimensions, bounded, cells, *start, *direction, i as int) == i,
        ensures
            final(self).dimensions == old(self).dimensions,
            final(self).default_element == old(self).default_element,
            final(self).map.len() == old(self).map.len(),
            forall|row: int|
                0 <= row < grid.len() ==> (#[trigger] final(self).map[row]).len() == old(self).map[row].len(),
            drawn ==> final(self).grid() == run_drawn(grid, cells, *start, *direction, i + 1)
                && run_reach(grid, old(self).dimensions, bounded, cells, *start, *direction, i + 1)
                == i + 1,
            !drawn ==> *final(self) == *old(self) && cells[i as int] is Some && !run_cell_free(
                grid,
                old(self).dimensions,
                bounded,
                *start,
                *direction,
                i as int,
            ),
    {
        let element = match cell {
            Some(element) => element,
            None => {
                assert(self.grid() =~~= run_drawn(grid, cells, *start, *direction, i + 1));
                return true;
            },
        };
        let (row, column): (i128, i128) = match direction {
            Direction::Vertical => (start.height as i128 + i as i128, start.width as i128),
            Direction::Horizontal => (start.height as i128, start.width as i128 + i as i128),
        };
        assert(row == run_row(*start, *direction, i as int));
        assert(column == run_column(*start, *direction, i as int));
        if row < 0 || column < 0 || row >= self.map.len() as i128 {
            return false;
        }
        if column >= self.map[row as usize].len() as i128 {
            return false;
        }
        if bounded && (column >= self.dimensions.width as i128 || row
            >= self.dimensions.height as i128) {
            return false;
        }
        self.map[row as usize][column as usize] = Some(element);
        proof {
            let drawn_now = run_drawn(grid, cells, *start, *direction, i + 1);
            assert(self.grid().len() == drawn_now.len());
            assert forall|r: int| 0 <= r < self.grid().len() implies #[trigger] self.grid()[r]
                =~= drawn_now[r] by {
                assert(old(self).grid()[r] == run_drawn(grid, cells, *start, *direction, i as int)[r]);
            }
            assert(self.grid() =~= drawn_now);
        }
        true
    }

    /// Draws `len` copies of `element` from `start_position` on: along the
    /// row for a horizontal line, down the column for a vertical one. The
    /// line stops, and the call fails, at the first cell that the grid lacks;
    /// what was drawn before stays.
    pub fn draw_line(
        &mut self,
        element: Element,
        len: i64,
        start_position: &Point,
        direction: Direction,
    ) -> (result: Result<&mut Self, DisplayControllerError>)
        ensures
            result is Ok <==> run_is_free(
                old(self).grid(),
                old(self).dimensions,
                false,
                line_cells(element, len as int),
                *start_position,
                direction,
            ),
            ({
                let drawn = run_result(
                    old(self).grid(),
                    old(self).dimensions,
                    false,
                    line_cells(element, len as int),
                    *start_position,
                    direction,
                );
                match result {
                    Ok(ret) => {
                        &&& drawn.1
                        &&& ret.grid() == drawn.0
                        &&& ret.dimensions == old(self).dimensions
                        &&& ret.default_element == old(self).default_element
                        &&& *final(self) == *final(ret)
                    },
                    Err(error) => {
                        &&& !drawn.1
                        &&& error is PositionOutOfRange
                        &&& final(self).grid() == drawn.0
                        &&& final(self).dimensions == old(self).dimensions
                        &&& final(self).default_element == old(self).default_element
                    },
                }
            }),
    {
        let ghost grid = self.grid();
        let ghost cells = line_cells(element, len as int);
        proof {
            lemma_run_result_is_complete(
                grid,
                self.dimensions,
                false,
                cells,
                *start_position,
                direction,
            );
        }
        let count: u64 = if len > 0 {
            len as u64
        } else {
            0
        };
        let mut index: u64 = 0;
        proof {
            assert(self.grid() =~~= run_drawn(grid, cells, *start_position, direction, 0));
        }
        while index < count
            invariant
                index <= count,
                count == cells.len(),
                cells == line_cells(element, len as int),
                grid == old(self).grid(),
                self.dimensions == old(self).dimensions,
                self.default_element == old(self).default_element,
                self.map.len() == grid.len(),
                forall|row: int| 0 <= row < grid.len() ==> (#[trigger] grid[row]).len() == self.map[row].len(),
                self.grid() == run_drawn(grid, cells, *start_position, direction, index as int),
                run_reach(
                    grid,
                    self.dimensions,
                    false,
                    cells,
                    *start_position,
                    direction,
                    index as int,
                ) == index,
            decreases count - index,
        {
            let drawn = self.draw_run_cell(
                Ghost(grid),
                false,
                Ghost(cells),
                Some(element),
                start_position,
                &direction,
                index,
            );
            if !drawn {
                proof {
                    lemma_run_stops(
                        grid,
                        self.dimensions,
                        false,
                        cells,
                        *start_position,
                        direction,
                        index as int,
                        count as int,
                    );
                }
                return Err(DisplayControllerError::PositionOutOfRange);
            }
            index = index + 1;
        }
        Ok(self)
    }
}

/// What drawing a line does to a grid, and whether all of it was drawn.
pub open spec fn line_result(
    grid: Seq<Seq<Option<Element>>>,
    dimensions: Point,
    element: Element,
    len: int,
    start: Point,
    direction: Direction,
) -> (Seq<Seq<Option<Element>>>, bool) {
    run_result(grid, dimensions, false, line_cells(element, len), start, direction)
}

/// What drawing the outline of a rectangle does to a grid, and whether all
/// of it was drawn: the top line, then the bottom line, then the left and
/// the right one, up to the first that cannot be drawn in full.
pub open spec fn rect_result(
    grid: Seq<Seq<Option<Element>>>,
    dimensions: Point,
    start: Point,
    extent: Point,
    element: Element,
) -> (Seq<Seq<Option<Element>>>, bool) {
    let bottom_start = Point {
        width: start.width,
        height: (start.height + extent.height - 1) as i64,
    };
    let right_start = Point { width: (start.width + extent.width - 1) as i64, height: start.height };
    let top = line_result(grid, dimensions, element, extent.width as int, start, Direction::Horizontal);
    if !top.1 {
        top
    } else {
        let bottom = line_result(
            top.0,
            dimensions,
            element,
            extent.width as int,
            bottom_start,
            Direction::Horizontal,
        );
        if !bottom.1 {
            bottom
        } else {
            let left = line_result(
                bottom.0,
                dimensions,
                element,
                extent.height as int,
                start,
                Direction::Vertical,
            );
            if !left.1 {
                left
            } else {
                line_result(
                    left.0,
                    dimensions,
                    element,
                    extent.height as int,
                    right_start,
                    Direction::Vertical,
                )
            }
        }
    }
}

/// Whether `grid` is `height` rows of `width` cells.
pub open spec fn is_grid_of(grid: Seq<Seq<Option<Element>>>, width: int, height: int) -> bool {
    &&& grid.len() == height
    &&& forall|row: int| 0 <= row < height ==> (#[trigger] grid[row]).len() == width
}

/// Whether the cell at `column`, `row` lies on the outline of the rectangle
/// of the extent `extent` whose top-left corner is `start`.
pub open spec fn is_on_outline(start: Point, extent: Point, column: int, row: int) -> bool {
    &&& start.width <= column < start.width + extent.width
    &&& start.height <= row < start.height + extent.height
    &&& (column == start.width || column == start.width + extent.width - 1 || row == start.height
        || row == start.height + extent.height - 1)
}

/// `grid` with the outline of a rectangle drawn on it.
pub open spec fn outlined(
    grid: Seq<Seq<Option<Element>>>,
    start: Point,
    extent: Point,
    element: Element,
) -> Seq<Seq<Option<Element>>> {
    Seq::new(
        grid.len(),
        |row: int|
            Seq::new(
                grid[row].len(),
                |column: int|
                    if is_on_outline(start, extent, column, row) {
                        Some(element)
                    } else {
                        grid[row][column]
                    },
            ),
    )
}

/// A run all of whose elements have a cell to go to is drawn in full.
pub proof fn lemma_run_reaches_all(
    grid: Seq<Seq<Option<Element>>>,
    dimensions: Point,
    bounded: bool,
    cells: Seq<Option<Element>>,
    start: Point,
    direction: Direction,
    upto: int,
)
    requires
        0 <= upto,
        forall|i: int|
            0 <= i < upto && cells[i] is Some ==> #[trigger] run_cell_free(
                grid,
                dimensions,
                bounded,
                start,
                direction,
                i,
            ),
    ensures
        run_reach(grid, dimensions, bounded, cells, start, direction, upto) == upto,
    decreases upto,
{
    if upto > 0 {
        lemma_run_reaches_all(grid, dimensions, bounded, cells, start, direction, upto - 1);
        if cells[upto - 1] is Some {
            assert(run_cell_free(grid, dimensions, bounded, start, direction, upto - 1));
        }
    }
}

/// A run that is drawn in full had a cell for each of its elements.
pub proof fn lemma_run_reached_all(
    grid: Seq<Seq<Option<Element>>>,
    dimensions: Point,
    bounded: bool,
    cells: Seq<Option<Element>>,
    start: Point,
    direction: Direction,
    upto: int,
)
    requires
        0 <= upto,
        run_reach(grid, dimensions, bounded, cells, start, direction, upto) == upto,
    ensures
        forall|i: int|
            0 <= i < upto && cells[i] is Some ==> #[trigger] run_cell_free(
                grid,
                dimensions,
                bounded,
                start,
                direction,
                i,
            ),
    decreases upto,
{
    if upto > 0 {
        lemma_run_reach_is_bounded(grid, dimensions, bounded, cells, start, direction, upto - 1);
        lemma_run_reached_all(grid, dimensions, bounded, cells, start, direction, upto - 1);
    }
}

/// A run gets no further than it is long.
pub proof fn lemma_run_reach_is_bounded(
    grid: Seq<Seq<Option<Element>>>,
    dimensions: Point,
    bounded: bool,
    cells: Seq<Option<Element>>,
    start: Point,
    direction: Direction,
    upto: int,
)
    requires
        0 <= upto,
    ensures
        0 <= run_reach(grid, dimensions, bounded, cells, start, direction, upto) <= upto,
    decreases upto,
{
    if upto > 0 {
        lemma_run_reach_is_bounded(grid, dimensions, bounded, cells, start, direction, upto - 1);
    }
}

/// Whether every element of a run has a cell to go to.
pub open spec fn run_is_free(
    grid: Seq<Seq<Option<Element>>>,
    dimensions: Point,
    bounded: bool,
    cells: Seq<Option<Element>>,
    start: Point,
    direction: Direction,
) -> bool {
    forall|i: int|
        0 <= i < cells.len() && cells[i] is Some ==> #[trigger] run_cell_free(
            grid,
            dimensions,
            bounded,
            start,
            direction,
            i,
        )
}

/// A run is drawn in full exactly if each of its elements has a cell to go
/// to.
pub proof fn lemma_run_result_is_complete(
    grid: Seq<Seq<Option<Element>>>,
    dimensions: Point,
    bounded: bool,
    cells: Seq<Option<Element>>,
    start: Point,
    direction: Direction,
)
    ensures
        run_result(grid, dimensions, bounded, cells, start, direction).1 == run_is_free(
            grid,
            dimensions,
            bounded,
            cells,
            start,
            direction,
        ),
{
    let upto = cells.len() as int;
    if run_is_free(grid, dimensions, bounded, cells, start, direction) {
        lemma_run_reaches_all(grid, dimensions, bounded, cells, start, direction, upto);
    }
    if run_reach(grid, dimensions, bounded, cells, start, direction, upto) == upto {
        lemma_run_reached_all(grid, dimensions, bounded, cells, start, direction, upto);
    }
}

/// A line that lies within a rectangular grid is drawn in full.
pub proof fn lemma_line_within_grid(
    grid: Seq<Seq<Option<Element>>>,
    dimensions: Point,
    element: Element,
    len: int,
    start: Point,
    direction: Direction,
    width: int,
    height: int,
)
    requires
        is_grid_of(grid, width, height),
        0 <= start.width < width,
        0 <= start.height < height,
        direction is Horizontal ==> start.width + len <= width,
        direction is Vertical ==> start.height + len <= height,
    ensures
        line_result(grid, dimensions, element, len, start, direction).1,
        line_result(grid, dimensions, element, len, start, direction).0 == run_drawn(
            grid,
            line_cells(element, len),
            start,
            direction,
            line_cells(element, len).len() as int,
        ),
        is_grid_of(line_result(grid, dimensions, element, len, start, direction).0, width, height),
{
    let cells = line_cells(element, len);
    assert forall|i: int| 0 <= i < cells.len() && cells[i] is Some implies #[trigger] run_cell_free(
        grid,
        dimensions,
        false,
        start,
        direction,
        i,
    ) by {
        let row = run_row(start, direction, i);
        assert(0 <= row < height);
        assert(grid[row].len() == width);
    }
    lemma_run_reaches_all(grid, dimensions, false, cells, start, direction, cells.len() as int);
}

/// The outline of a rectangle that lies within a rectangular grid is drawn
/// in full: the cells on the outline take the element, all others keep what
/// they hold.
pub proof fn lemma_rect_within_grid(
    grid: Seq<Seq<Option<Element>>>,
    dimensions: Point,
    start: Point,
    extent: Point,
    element: Element,
    width: int,
    height: int,
)
    requires
        is_grid_of(grid, width, height),
        0 <= start.width,
        0 <= start.height,
        1 <= extent.width,
        1 <= extent.height,
        start.width + extent.width <= width,
        start.height + extent.height <= height,
        width <= i64::MAX,
        height <= i64::MAX,
    ensures
        rect_result(grid, dimensions, start, extent, element) == (
            outlined(grid, start, extent, element),
            true,
        ),
{
    let bottom_start = Point {
        width: start.width,
        height: (start.height + extent.height - 1) as i64,
    };
    let right_start = Point { width: (start.width + extent.width - 1) as i64, height: start.height };
    let top = line_result(grid, dimensions, element, extent.width as int, start, Direction::Horizontal);
    lemma_line_within_grid(
        grid,
        dimensions,
        element,
        extent.width as int,
        start,
        Direction::Horizontal,
        width,
        height,
    );
    let bottom = line_result(
        top.0,
        dimensions,
        element,
        extent.width as int,
        bottom_start,
        Direction::Horizontal,
    );
    lemma_line_within_grid(
        top.0,
        dimensions,
        element,
        extent.width as int,
        bottom_start,
        Direction::Horizontal,
        width,
        height,
    );
    let left = line_result(
        bottom.0,
        dimensions,
        element,
        extent.height as int,
        start,
        Direction::Vertical,
    );
    lemma_line_within_grid(
        bottom.0,
        dimensions,
        element,
        extent.height as int,
        start,
        Direction::Vertical,
        width,
        height,
    );
    let right = line_result(
        left.0,
        dimensions,
        element,
        extent.height as int,
        right_start,
        Direction::Vertical,
    );
    lemma_line_within_grid(
        left.0,
        dimensions,
        element,
        extent.height as int,
        right_start,
        Direction::Vertical,
        width,
        height,
    );
    let drawn = outlined(grid, start, extent, element);
    assert(right.0.len() == drawn.len());
    assert forall|row: int| 0 <= row < drawn.len() implies #[trigger] right.0[row] =~= drawn[row] by {
        assert(grid[row].len() == width);
        assert(top.0[row].len() == width);
        assert(bottom.0[row].len() == width);
        assert(left.0[row].len() == width);
        assert forall|column: int| 0 <= column < width implies right.0[row][column]
            == drawn[row][column] by {
            assert(top.0[row][column] == if row == start.height && start.width <= column
                < start.width + extent.width {
                Some(element)
            } else {
                grid[row][column]
            });
            assert(bottom.0[row][column] == if row == start.height + extent.height - 1
                && start.width <= column < start.width + extent.width {
                Some(element)
            } else {
                top.0[row][column]
            });
            assert(left.0[row][column] == if column == start.width && start.height <= row
                < start.height + extent.height {
                Some(element)
            } else {
                bottom.0[row][column]
            });
        }
    }
    assert(right.0 =~= drawn);
}

/// What a source grid holds for the cell at `column`, `row` of the grid it
/// is drawn on, when its top-left corner is put at `location`.
pub open spec fn source_cell(
    source: Seq<Seq<Option<Element>>>,
    location: Point,
    column: int,
    row: int,
) -> Option<Element> {
    let source_row = row - location.height;
    let source_column = column - location.width;
    if 0 <= source_row < source.len() && 0 <= source_column < source[source_row].len() {
        source[source_row][source_column]
    } else {
        None
    }
}

/// The grid after `source` has been drawn on it with its top-left corner at
/// `location`: every cell that the source fills and that is not hidden takes
/// the source's element.
pub open spec fn map_drawn(
    grid: Seq<Seq<Option<Element>>>,
    dimensions: Point,
    source: Seq<Seq<Option<Element>>>,
    location: Point,
    offset: Point,
) -> Seq<Seq<Option<Element>>> {
    Seq::new(
        grid.len(),
        |row: int|
            Seq::new(
                grid[row].len(),
                |column: int|
                    if source_cell(source, location, column, row) is Some && !is_cell_hidden(
                        dimensions,
                        offset,
                        column,
                        row,
                    ) {
                        source_cell(source, location, column, row)
                    } else {
                        grid[row][column]
                    },
            ),
    )
}

/// Whether the source fills the cell at `source_column`, `source_row` of its
/// own and that cell is not hidden when the source is put at `location`.
pub open spec fn shows_cell(
    dimensions: Point,
    source: Seq<Seq<Option<Element>>>,
    location: Point,
    offset: Point,
    source_column: int,
    source_row: int,
) -> bool {
    &&& 0 <= source_row < source.len()
    &&& 0 <= source_column < source[source_row].len()
    &&& source[source_row][source_column] is Some
    &&& !is_cell_hidden(
        dimensions,
        offset,
        location.width + source_column,
        location.height + source_row,
    )
}

/// Whether any cell of the source is shown when it is put at `location`.
pub open spec fn shows_any(
    dimensions: Point,
    source: Seq<Seq<Option<Element>>>,
    location: Point,
    offset: Point,
) -> bool {
    exists|source_column: int, source_row: int|
        shows_cell(dimensions, source, location, offset, source_column, source_row)
}

/// Whether the source cell comes before the cell at `column` of `row` when
/// the source is gone through row by row.
pub open spec fn comes_before(source_column: int, source_row: int, column: int, row: int) -> bool {
    source_row < row || (source_row == row && source_column < column)
}

/// `map_drawn`, for the source cells before `column` of `row` only.
pub open spec fn map_drawn_before(
    grid: Seq<Seq<Option<Element>>>,
    dimensions: Point,
    source: Seq<Seq<Option<Element>>>,
    location: Point,
    offset: Point,
    source_column: int,
    source_row: int,
) -> Seq<Seq<Option<Element>>> {
    Seq::new(
        grid.len(),
        |row: int|
            Seq::new(
                grid[row].len(),
                |column: int|
                    if source_cell(source, location, column, row) is Some && !is_cell_hidden(
                        dimensions,
                        offset,
                        column,
                        row,
                    ) && comes_before(
                        column - location.width,
                        row - location.height,
                        source_column,
                        source_row,
                    ) {
                        source_cell(source, location, column, row)
                    } else {
                        grid[row][column]
                    },
            ),
    )
}

/// Whether the grid lacks the cell to which the source cell at
/// `source_column`, `source_row`, which is shown, would go.
pub open spec fn is_blocked(
    grid: Seq<Seq<Option<Element>>>,
    dimensions: Point,
    source: Seq<Seq<Option<Element>>>,
    location: Point,
    offset: Point,
    source_column: int,
    source_row: int,
) -> bool {
    &&& shows_cell(dimensions, source, location, offset, source_column, source_row)
    &&& !(0 <= location.height + source_row < grid.len() && 0 <= location.width + source_column
        < grid[location.height + source_row].len())
}

/// Whether the source cell is the first that is blocked when the source is
/// gone through row by row.
pub open spec fn is_first_blocked(
    grid: Seq<Seq<Option<Element>>>,
    dimensions: Point,
    source: Seq<Seq<Option<Element>>>,
    location: Point,
    offset: Point,
    source_column: int,
    source_row: int,
) -> bool {
    &&& is_blocked(grid, dimensions, source, location, offset, source_column, source_row)
    &&& forall|column: int, row: int|
        comes_before(column, row, source_column, source_row) ==> !#[trigger] is_blocked(
            grid,
            dimensions,
            source,
            location,
            offset,
            column,
            row,
        )
}

/// Whether the grid has a cell for every source cell that is shown.
pub open spec fn is_map_free(
    grid: Seq<Seq<Option<Element>>>,
    dimensions: Point,
    source: Seq<Seq<Option<Element>>>,
    location: Point,
    offset: Point,
) -> bool {
    forall|column: int, row: int|
        !#[trigger] is_blocked(grid, dimensions, source, location, offset, column, row)
}

/// What drawing a source grid does to a grid, and whether all of it was
/// drawn. The drawing goes through the source row by row and ends at the
/// first cell that is blocked.
pub open spec fn map_result(
    grid: Seq<Seq<Option<Element>>>,
    dimensions: Point,
    source: Seq<Seq<Option<Element>>>,
    location: Point,
    offset: Point,
) -> (Seq<Seq<Option<Element>>>, bool) {
    if is_map_free(grid, dimensions, source, location, offset) {
        (map_drawn(grid, dimensions, source, location, offset), true)
    } else {
        let (column, row) = choose|column: int, row: int|
            is_first_blocked(grid, dimensions, source, location, offset, column, row);
        (map_drawn_before(grid, dimensions, source, location, offset, column, row), false)
    }
}

/// Only one source cell is the first that is blocked.
pub proof fn lemma_first_blocked_is_unique(
    grid: Seq<Seq<Option<Element>>>,
    dimensions: Point,
    source: Seq<Seq<Option<Element>>>,
    location: Point,
    offset: Point,
    column: int,
    row: int,
    other_column: int,
    other_row: int,
)
    requires
        is_first_blocked(grid, dimensions, source, location, offset, column, row),
        is_first_blocked(grid, dimensions, source, location, offset, other_column, other_row),
    ensures
        column == other_column,
        row == other_row,
{
    if comes_before(column, row, other_column, other_row) {
        assert(!is_blocked(grid, dimensions, source, location, offset, column, row));
    }
    if comes_before(other_column, other_row, column, row) {
        assert(!is_blocked(grid, dimensions, source, location, offset, other_column, other_row));
    }
}

/// A grid of the dimensions that say what is hidden has a cell for every
/// source cell that is shown.
pub proof fn lemma_map_is_free_on_grid(
    grid: Seq<Seq<Option<Element>>>,
    dimensions: Point,
    source: Seq<Seq<Option<Element>>>,
    location: Point,
    offset: Point,
)
    requires
        is_grid_of(grid, dimensions.width as int, dimensions.height as int),
    ensures
        is_map_free(grid, dimensions, source, location, offset),
{
    assert forall|column: int, row: int|
        !#[trigger] is_blocked(grid, dimensions, source, location, offset, column, row) by {
        if shows_cell(dimensions, source, location, offset, column, row) {
            assert(grid[location.height + row].len() == dimensions.width);
        }
    }
}

/// `shows_any`, for the source cells before `column` of `row` only.
spec fn shows_any_before(
    dimensions: Point,
    source: Seq<Seq<Option<Element>>>,
    location: Point,
    offset: Point,
    column: int,
    row: int,
) -> bool {
    exists|source_column: int, source_row: int|
        #[trigger] shows_cell(dimensions, source, location, offset, source_column, source_row)
            && comes_before(source_column, source_row, column, row)
}

impl Layout {
    /// Draws the outline of a rectangle of the extent `dimensions` whose
    /// top-left corner is `start_position`.
    pub fn draw_rect(&mut self, start_position: &Point, dimensions: &Point, element: Element) -> (result:
        Result<&mut Self, DisplayControllerError>)
        requires
            fits_i64(dimensions.height - 1),
            fits_i64(dimensions.width - 1),
            fits_i64(start_position.height + dimensions.height - 1),
            fits_i64(start_position.width + dimensions.width - 1),
        ensures
            ({
                let drawn = rect_result(
                    old(self).grid(),
                    old(self).dimensions,
                    *start_position,
                    *dimensions,
                    element,
                );
                match result {
                    Ok(ret) => {
                        &&& drawn.1
                        &&& ret.grid() == drawn.0
                        &&& ret.dimensions == old(self).dimensions
                        &&& ret.default_element == old(self).default_element
                        &&& *final(self) == *final(ret)
                    },
                    Err(error) => {
                        &&& !drawn.1
                        &&& error is PositionOutOfRange
                        &&& final(self).grid() == drawn.0
                        &&& final(self).dimensions == old(self).dimensions
                        &&& final(self).default_element == old(self).default_element
                    },
                }
            }),
    {
        match self.draw_line(element, dimensions.width, start_position, Direction::Horizontal) {
            Ok(_) => {},
            Err(error) => {
                return Err(error);
            },
        }
        match self.draw_line(
            element,
            dimensions.width,
            &start_position.add_height(dimensions.height - 1),
            Direction::Horizontal,
        ) {
            Ok(_) => {},
            Err(error) => {
                return Err(error);
            },
        }
        match self.draw_line(element, dimensions.height, start_position, Direction::Vertical) {
            Ok(_) => {},
            Err(error) => {
                return Err(error);
            },
        }
        match self.draw_line(
            element,
            dimensions.height,
            &start_position.add_width(dimensions.width - 1),
            Direction::Vertical,
        ) {
            Ok(_) => {},
            Err(error) => {
                return Err(error);
            },
        }
        Ok(self)
    }

    /// Draws the elements of a row from `position` on to the right; places
    /// that hold `None` are passed over. The drawing stops, and the call
    /// fails, at the first element that `draw_item` cannot put down; what was
    /// drawn before stays.
    pub fn draw_element_array(&mut self, elements: Vec<Option<Element>>, position: &Point) -> (result:
        Result<&mut Self, DisplayControllerError>)
        ensures
            result is Ok <==> run_is_free(
                old(self).grid(),
                old(self).dimensions,
                true,
                elements@,
                *position,
                Direction::Horizontal,
            ),
            ({
                let drawn = run_result(
                    old(self).grid(),
                    old(self).dimensions,
                    true,
                    elements@,
                    *position,
                    Direction::Horizontal,
                );
                match result {
                    Ok(ret) => {
                        &&& drawn.1
                        &&& ret.grid() == drawn.0
                        &&& ret.dimensions == old(self).dimensions
                        &&& ret.default_element == old(self).default_element
                        &&& *final(self) == *final(ret)
                    },
                    Err(error) => {
                        &&& !drawn.1
                        &&& error is PositionOutOfRange
                        &&& final(self).grid() == drawn.0
                        &&& final(self).dimensions == old(self).dimensions
                        &&& final(self).default_element == old(self).default_element
                    },
                }
            }),
    {
        let ghost grid = self.grid();
        let ghost cells = elements@;
        let direction = Direction::Horizontal;
        proof {
            lemma_run_result_is_complete(grid, self.dimensions, true, cells, *position, direction);
        }
        let mut index: usize = 0;
        proof {
            assert(self.grid() =~~= run_drawn(grid, cells, *position, direction, 0));
        }
        while index < elements.len()
            invariant
                index <= elements.len(),
                cells == elements@,
                direction == Direction::Horizontal,
                grid == old(self).grid(),
                self.dimensions == old(self).dimensions,
                self.default_element == old(self).default_element,
                self.map.len() == grid.len(),
                forall|row: int| 0 <= row < grid.len() ==> (#[trigger] grid[row]).len() == self.map[row].len(),
                self.grid() == run_drawn(grid, cells, *position, direction, index as int),
                run_reach(grid, self.dimensions, true, cells, *position, direction, index as int)
                    == index,
            decreases elements.len() - index,
        {
            let drawn = self.draw_run_cell(
                Ghost(grid),
                true,
                Ghost(cells),
                elements[index],
                position,
                &direction,
                index as u64,
            );
            if !drawn {
                proof {
                    lemma_run_stops(
                        grid,
                        self.dimensions,
                        true,
                        cells,
                        *position,
                        direction,
                        index as int,
                        elements.len() as int,
                    );
                }
                return Err(DisplayControllerError::PositionOutOfRange);
            }
            index = index + 1;
        }
        Ok(self)
    }

    /// Draws a text from `position` on to the right, in the given colours or
    /// else the default ones. Blanks leave what is there.
    pub fn draw_str(
        &mut self,
        str: &str,
        position: &Point,
        background: Option<Color>,
        foreground: Option<Color>,
    ) -> (result: LayoutResult<&mut Self>)
        ensures
            ({
                let drawn = run_result(
                    old(self).grid(),
                    old(self).dimensions,
                    true,
                    str_cells(
                        str@,
                        str.spec_bytes().len() as int,
                        color_or(background, DEFAULT_BACKGROUND),
                        color_or(foreground, DEFAULT_FOREGROUND),
                    ),
                    *position,
                    Direction::Horizontal,
                );
                match result {
                    Ok(ret) => {
                        &&& drawn.1
                        &&& ret.grid() == drawn.0
                        &&& ret.dimensions == old(self).dimensions
                        &&& ret.default_element == old(self).default_element
                        &&& *final(self) == *final(ret)
                    },
                    Err(error) => {
                        &&& !drawn.1
                        &&& error is PositionOutOfRange
                        &&& final(self).grid() == drawn.0
                        &&& final(self).dimensions == old(self).dimensions
                        &&& final(self).default_element == old(self).default_element
                    },
                }
            }),
    {
        let element_array = parse_str_to_element_array(str, background, foreground);
        match self.draw_element_array(element_array, position) {
            Ok(_) => {},
            Err(error) => {
                return Err(error);
            },
        }
        Ok(self)
    }

    /// Draws another grid on top of this one, with its top-left corner at
    /// `location`. Cells that the other grid leaves transparent keep what
    /// they hold, and so do cells that are hidden: those outside the layout,
    /// and those above or left of `drawable_offset`. Tells whether any cell
    /// was drawn. The drawing stops, and the call fails, at the first cell
    /// that is to be drawn but that the grid lacks; on a rectangular layout
    /// there is none.
    pub fn draw_map(&mut self, map: &CellMap, location: Point, drawable_offset: &Point) -> (result:
        LayoutResult<bool>)
        ensures
            ({
                let drawn = map_result(
                    old(self).grid(),
                    old(self).dimensions,
                    rows_of(*map),
                    location,
                    *drawable_offset,
                );
                &&& final(self).grid() == drawn.0
                &&& match result {
                    Ok(shown) => drawn.1 && shown == shows_any(
                        old(self).dimensions,
                        rows_of(*map),
                        location,
                        *drawable_offset,
                    ),
                    Err(error) => !drawn.1 && error is PositionOutOfRange,
                }
            }),
            final(self).dimensions == old(self).dimensions,
            final(self).default_element == old(self).default_element,
            old(self).is_rectangular() ==> result is Ok && final(self).is_rectangular(),
    {
        let ghost grid = self.grid();
        let ghost source = rows_of(*map);
        let dimensions = self.dimensions;
        let mut has_drawn_drawable = false;
        let mut num_row: usize = 0;
        proof {
            assert(self.grid() =~~= map_drawn_before(
                grid,
                dimensions,
                source,
                location,
                *drawable_offset,
                0,
                0,
            ));
            if old(self).is_rectangular() {
                lemma_map_is_free_on_grid(grid, dimensions, source, location, *drawable_offset);
            }
        }
        while num_row < map.len()
            invariant
                num_row <= map.len(),
                source == rows_of(*map),
                grid == old(self).grid(),
                dimensions == old(self).dimensions,
                self.dimensions == dimensions,
                self.default_element == old(self).default_element,
                self.map.len() == grid.len(),
                forall|row: int| 0 <= row < grid.len() ==> (#[trigger] grid[row]).len() == self.map[row].len(),
                self.grid() == map_drawn_before(
                    grid,
                    dimensions,
                    source,
                    location,
                    *drawable_offset,
                    0,
                    num_row as int,
                ),
                has_drawn_drawable == shows_any_before(
                    dimensions,
                    source,
                    location,
                    *drawable_offset,
                    0,
                    num_row as int,
                ),
                forall|column: int, row: int|
                    comes_before(column, row, 0, num_row as int) ==> !#[trigger] is_blocked(
                        grid,
                        dimensions,
                        source,
                        location,
                        *drawable_offset,
                        column,
                        row,
                    ),
            decreases map.len() - num_row,
        {
            let mut num_column: usize = 0;
            while num_column < map[num_row].len()
                invariant
                    num_row < map.len(),
                    num_column <= map[num_row as int].len(),
                    source == rows_of(*map),
                    grid == old(self).grid(),
                    dimensions == old(self).dimensions,
                    self.dimensions == dimensions,
                    self.default_element == old(self).default_element,
                    self.map.len() == grid.len(),
                    forall|row: int|
                        0 <= row < grid.len() ==> (#[trigger] grid[row]).len() == self.map[row].len(),
                    self.grid() == map_drawn_before(
                        grid,
                        dimensions,
                        source,
                        location,
                        *drawable_offset,
                        num_column as int,
                        num_row as int,
                    ),
                    has_drawn_drawable == shows_any_before(
                        dimensions,
                        source,
                        location,
                        *drawable_offset,
                        num_column as int,
                        num_row as int,
                    ),
                    forall|column: int, row: int|
                        comes_before(column, row, num_column as int, num_row as int)
                            ==> !#[trigger] is_blocked(
                            grid,
                            dimensions,
                            source,
                            location,
                            *drawable_offset,
                            column,
                            row,
                        ),
                decreases map[num_row as int].len() - num_column,
            {
                let ghost before = self.grid();
                let ghost shown_before = has_drawn_drawable;
                let mut drawn_here = false;
                proof {
                    assert(source[num_row as int] == map[num_row as int]@);
                }
                if let Some(has_element) = map[num_row][num_column] {
                    let column: i128 = location.width as i128 + num_column as i128;
                    let row: i128 = location.height as i128 + num_row as i128;
                    let hidden = column < 0 || row < 0 || column >= dimensions.width as i128 || row
                        >= dimensions.height as i128 || column < drawable_offset.width as i128
                        || row < drawable_offset.height as i128;
                    if !hidden {
                        has_drawn_drawable = true;
                        drawn_here = true;
                        let missing = row >= self.map.len() as i128 || column
                            >= self.map[row as usize].len() as i128;
                        if missing {
                            proof {
                                let here = (num_column as int, num_row as int);
                                assert(is_first_blocked(
                                    grid,
                                    dimensions,
                                    source,
                                    location,
                                    *drawable_offset,
                                    here.0,
                                    here.1,
                                ));
                                let first = choose|c: int, r: int|
                                    is_first_blocked(
                                        grid,
                                        dimensions,
                                        source,
                                        location,
                                        *drawable_offset,
                                        c,
                                        r,
                                    );
                                lemma_first_blocked_is_unique(
                                    grid,
                                    dimensions,
                                    source,
                                    location,
                                    *drawable_offset,
                                    here.0,
                                    here.1,
                                    first.0,
                                    first.1,
                                );
                            }
                            return Err(DisplayControllerError::PositionOutOfRange);
                        }
                        self.map[row as usize][column as usize] = Some(has_element);
                    }
                }
                proof {
                    let now = map_drawn_before(
                        grid,
                        dimensions,
                        source,
                        location,
                        *drawable_offset,
                        num_column + 1,
                        num_row as int,
                    );
                    assert(drawn_here == shows_cell(
                        dimensions,
                        source,
                        location,
                        *drawable_offset,
                        num_column as int,
                        num_row as int,
                    ));
                    assert(before.len() == grid.len());
                    assert(self.grid().len() == self.map.len());
                    assert(self.grid().len() == now.len());
                    assert forall|r: int| 0 <= r < now.len() implies #[trigger] self.grid()[r]
                        =~= now[r] by {
                        assert(before[r] == map_drawn_before(
                            grid,
                            dimensions,
                            source,
                            location,
                            *drawable_offset,
                            num_column as int,
                            num_row as int,
                        )[r]);
                    }
                    assert(self.grid() =~= now);
                    if shows_any_before(
                        dimensions,
                        source,
                        location,
                        *drawable_offset,
                        num_column + 1,
                        num_row as int,
                    ) {
                        let (c, r) = choose|c: int, r: int|
                            #[trigger] shows_cell(dimensions, source, location, *drawable_offset, c, r)
                                && comes_before(c, r, num_column + 1, num_row as int);
                        if !(c == num_column && r == num_row) {
                            assert(comes_before(c, r, num_column as int, num_row as int));
                        }
                    }
                    if shown_before {
                        let (c, r) = choose|c: int, r: int|
                            #[trigger] shows_cell(dimensions, source, location, *drawable_offset, c, r)
                                && comes_before(c, r, num_column as int, num_row as int);
                        assert(comes_before(c, r, num_column + 1, num_row as int));
                    }
                    if drawn_here {
                        assert(comes_before(
                            num_column as int,
                            num_row as int,
                            num_column + 1,
                            num_row as int,
                        ));
                    }
                    assert forall|c: int, r: int|
                        comes_before(c, r, num_column + 1, num_row as int) implies !#[trigger] is_blocked(
                        grid,
                        dimensions,
                        source,
                        location,
                        *drawable_offset,
                        c,
                        r,
                    ) by {
                        if !(c == num_column && r == num_row) {
                            assert(comes_before(c, r, num_column as int, num_row as int));
                        }
                    }
                }
                num_column = num_column + 1;
            }
            proof {
                let now = map_drawn_before(
                    grid,
                    dimensions,
                    source,
                    location,
                    *drawable_offset,
                    0,
                    num_row + 1,
                );
                assert(source[num_row as int] == map[num_row as int]@);
                assert(self.grid() =~~= now);
                if shows_any_before(
                    dimensions,
                    source,
                    location,
                    *drawable_offset,
                    0,
                    num_row + 1,
                ) {
                    let (c, r) = choose|c: int, r: int|
                        #[trigger] shows_cell(dimensions, source, location, *drawable_offset, c, r)
                            && comes_before(c, r, 0, num_row + 1);
                    assert(comes_before(c, r, map[num_row as int].len() as int, num_row as int));
                }
                if has_drawn_drawable {
                    let (c, r) = choose|c: int, r: int|
                        #[trigger] shows_cell(dimensions, source, location, *drawable_offset, c, r)
                            && comes_before(c, r, map[num_row as int].len() as int, num_row as int);
                    assert(comes_before(c, r, 0, num_row + 1));
                }
                assert forall|c: int, r: int|
                    comes_before(c, r, 0, num_row + 1) implies !#[trigger] is_blocked(
                    grid,
                    dimensions,
                    source,
                    location,
                    *drawable_offset,
                    c,
                    r,
                ) by {
                    if is_blocked(grid, dimensions, source, location, *drawable_offset, c, r) {
                        assert(comes_before(c, r, map[num_row as int].len() as int, num_row as int));
                    }
                }
            }
            num_row = num_row + 1;
        }
        proof {
            assert(self.grid() =~~= map_drawn(grid, dimensions, source, location, *drawable_offset));
            if shows_any(dimensions, source, location, *drawable_offset) {
                let (c, r) = choose|c: int, r: int|
                    shows_cell(dimensions, source, location, *drawable_offset, c, r);
                assert(comes_before(c, r, 0, map.len() as int));
            }
            assert forall|c: int, r: int|
                !#[trigger] is_blocked(grid, dimensions, source, location, *drawable_offset, c, r) by {
                if is_blocked(grid, dimensions, source, location, *drawable_offset, c, r) {
                    assert(comes_before(c, r, 0, map.len() as int));
                }
            }
            if old(self).is_rectangular() {
                assert forall|row: int| 0 <= row < self.map.len() implies (
                #[trigger] self.map[row]).len() == self.dimensions.width by {
                    assert(grid[row].len() == self.map[row].len());
                    assert(old(self).map[row].len() == self.dimensions.width);
                }
            }
        }
        Ok(has_drawn_drawable)
    }
}

/// The lines of a text: what stands between its line feeds. A text without
/// a line feed is one line, and so is the empty text.
pub open spec fn lines_of(chars: Seq<char>) -> Seq<Seq<char>>
    decreases chars.len(),
{
    if chars.len() == 0 {
        seq![Seq::empty()]
    } else {
        let before = lines_of(chars.drop_last());
        if chars.last() == '\n' {
            before.push(Seq::empty())
        } else {
            before.update(before.len() - 1, before.last().push(chars.last()))
        }
    }
}

/// The grid that a drawing in text stands for: one row for each line, one
/// cell for each character. Blanks are transparent; every other character is
/// an element on the default background with `color` as its foreground.
pub open spec fn ascii_cells(chars: Seq<char>, color: Color) -> Seq<Seq<Option<Element>>> {
    lines_of(chars).map_values(
        |line: Seq<char>|
            line.map_values(|character: char| cell_of(character, DEFAULT_BACKGROUND, color)),
    )
}

/// Turns a drawing in text into a grid.
pub fn map_from_str(ascii: &str, color: Color) -> (map: CellMap)
    ensures
        rows_of(map) == ascii_cells(ascii@, color),
        map.len() > 0,
{
    let mut map: CellMap = Vec::new();
    let mut row: Vec<Option<Element>> = Vec::new();
    let ghost chars = ascii@;
    proof {
        assert(chars.take(0) =~= Seq::<char>::empty());
        assert(rows_of(map).push(row@) =~~= ascii_cells(chars.take(0), color));
    }
    for character in it: ascii.chars()
        invariant
            it.seq() == chars,
            chars == ascii@,
            rows_of(map).push(row@) == ascii_cells(chars.take(it.index()), color),
    {
        let ghost taken = chars.take(it.index());
        let ghost taken_now = chars.take(it.index() + 1);
        let ghost rows_before = rows_of(map);
        let ghost row_before = row@;
        let ghost lines = lines_of(taken);
        let ghost lines_now = lines_of(taken_now);
        let ghost cells = ascii_cells(taken, color);
        let ghost cells_now = ascii_cells(taken_now, color);
        let ghost last = lines.len() - 1;
        proof {
            assert(taken_now.drop_last() =~= taken);
            assert(taken_now.last() == character);
            assert(cells.len() == lines.len());
            assert(cells_now.len() == lines_now.len());
            assert(rows_before.push(row_before).len() == rows_before.len() + 1);
            assert(last == rows_before.len());
            assert(row_before == cells[last]);
            assert forall|i: int| 0 <= i < last implies rows_before[i] == #[trigger] cells[i] by {
                assert(rows_before.push(row_before)[i] == rows_before[i]);
            }
        }
        if character == '\n' {
            map.push(row);
            row = Vec::new();
            proof {
                assert(rows_of(map) =~= rows_before.push(row_before));
                assert(lines_now == lines.push(Seq::empty()));
                assert(cells_now[last + 1] =~= Seq::<Option<Element>>::empty());
                assert forall|i: int| 0 <= i <= last implies #[trigger] cells_now[i] == cells[i] by {
                    assert(lines_now[i] == lines[i]);
                }
                assert(rows_of(map).push(row@) =~= cells_now);
            }
        } else {
            let cell = if character != ' ' {
                Some(Element::new(character, DEFAULT_BACKGROUND, color))
            } else {
                None
            };
            row.push(cell);
            proof {
                assert(cell == cell_of(character, DEFAULT_BACKGROUND, color));
                assert(lines_now == lines.update(last, lines[last].push(character)));
                assert(cells_now[last] =~= cells[last].push(cell));
                assert forall|i: int| 0 <= i < last implies #[trigger] cells_now[i] == cells[i] by {
                    assert(lines_now[i] == lines[i]);
                }
                assert(rows_of(map).push(row@) =~= cells_now);
            }
        }
    }
    let ghost rows_before = rows_of(map);
    let ghost last_row = row@;
    map.push(row);
    proof {
        assert(chars.take(chars.len() as int) =~= chars);
        assert(rows_of(map) =~= rows_before.push(last_row));
    }
    map
}

/// The element that stands for a pixel: a blank whose foreground is the
/// pixel's colour.
pub open spec fn pixel_cell(raw_rgb: Seq<u8>, index: int) -> Option<Element> {
    Some(
        Element {
            value: ' ',
            background: DEFAULT_BACKGROUND,
            foreground: Color::Rgb {
                r: raw_rgb[3 * index],
                g: raw_rgb[3 * index + 1],
                b: raw_rgb[3 * index + 2],
            },
        },
    )
}

impl Layout {
    /// The layout that a drawing in text stands for.
    pub fn from_ascii(ascii: &str, color: Color) -> (layout: Self)
        ensures
            layout.grid() == ascii_cells(ascii@, color),
            layout.default_element == None::<Element>,
            layout.dimensions.height == layout.map.len() as i64,
            exists|widest: int|
                0 <= widest < layout.map.len() && layout.dimensions.width == (
                #[trigger] layout.map[widest]).len() as i64 && forall|row: int|
                    0 <= row < layout.map.len() ==> (#[trigger] layout.map[row]).len()
                        <= layout.map[widest].len(),
    {
        Layout::from_map(map_from_str(ascii, color), None)
    }

    /// The layout that a picture stands for. `raw_rgb` holds the picture's
    /// pixels row by row, three bytes for each: red, green, blue.
    pub fn from_rgb(width: u32, height: u32, raw_rgb: &Vec<u8>) -> (layout: Self)
        requires
            height > 0,
            width * height <= u32::MAX,
            raw_rgb.len() >= 3 * (width * height),
        ensures
            layout.dimensions == (Point { width: width as i64, height: height as i64 }),
            layout.default_element == None::<Element>,
            layout.is_rectangular(),
            forall|row: int, column: int|
                0 <= row < height && 0 <= column < width ==> #[trigger] layout.map[row][column]
                    == pixel_cell(raw_rgb@, row * width + column),
    {
        let mut map: CellMap = Vec::new();
        let mut row: u32 = 0;
        while row < height
            invariant
                row <= height,
                width * height <= u32::MAX,
                raw_rgb.len() >= 3 * (width * height),
                map.len() == row,
                forall|r: int| 0 <= r < row ==> (#[trigger] map[r]).len() == width,
                forall|r: int, c: int|
                    0 <= r < row && 0 <= c < width ==> #[trigger] map[r][c] == pixel_cell(
                        raw_rgb@,
                        r * width + c,
                    ),
            decreases height - row,
        {
            let mut cells: Vec<Option<Element>> = Vec::new();
            let mut column: u32 = 0;
            while column < width
                invariant
                    column <= width,
                    row < height,
                    width * height <= u32::MAX,
                    raw_rgb.len() >= 3 * (width * height),
                    cells.len() == column,
                    forall|c: int|
                        0 <= c < column ==> #[trigger] cells[c] == pixel_cell(
                            raw_rgb@,
                            row * width + c,
                        ),
                decreases width - column,
            {
                proof {
                    assert(row * width + column < width * height) by (nonlinear_arith)
                        requires
                            row < height,
                            column < width,
                    ;
                }
                let base_index: usize = ((row as u64 * width as u64 + column as u64) * 3) as usize;
                let (r, g, b) = (raw_rgb[base_index], raw_rgb[base_index + 1], raw_rgb[base_index + 2]);
                cells.push(Some(Element::new(' ', DEFAULT_BACKGROUND, Color::Rgb { r, g, b })));
                column = column + 1;
            }
            map.push(cells);
            row = row + 1;
        }
        let layout = Layout::from_map(map, None);
        proof {
            let widest = choose|widest: int|
                0 <= widest < map.len() && layout.dimensions.width == (#[trigger] map[widest]).len() as i64
                    && forall|r: int| 0 <= r < map.len() ==> (#[trigger] map[r]).len() <= map[widest].len();
            assert(map[widest].len() == width);
        }
        layout
    }
}

} // verus!
