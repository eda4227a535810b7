use super::display_controller_error::DisplayControllerError;
use super::element::{Color, Element, DEFAULT_BACKGROUND};
use super::layout::{
    ascii_cells, filled_grid, map_from_str, map_result, rect_result, run_result, shows_any,
    Direction, Layout,
};
use super::point::{fits_i64, Point};
use crate::components::drawable::{Drawable, DrawableState, Identity};
use crate::components::health::Health;
use crate::systems::entity_controller::{lists_states_of, EntityController};
use crate::game::game_state::GameState;
use crate::user_display::consts::{number_art, number_text, HEART, X};
use vstd::prelude::*;

verus! {

pub type DisplayControllerResult<T> = Result<T, DisplayControllerError>;

pub const GAME_DETAILS_BOX_WIDTH: u64 = 43;

pub const BOX_PADDING: u64 = 1;

pub const MINIMUM_SCREEN_WIDTH: u64 = (GAME_DETAILS_BOX_WIDTH + BOX_PADDING) * 2;

/// How far apart the digits of a number are drawn.
pub const DIGIT_SPACING: i64 = 7;

/// Composes what is shown: the entities, and around them the lives that are
/// left and the score.
pub struct DisplayController {
    /// Entities are drawn this far into the layout, and never above or left
    /// of it.
    pub entity_drawable_offset: Point,
    pub layout: Layout,
    pub screen_size: Point,
}

/// One thing that is drawn on a grid.
pub enum DrawStep {
    /// The outline of a rectangle.
    Rect { start: Point, extent: Point, element: Element },
    /// Another grid, put with its top-left corner at `location`.
    Shape { source: Seq<Seq<Option<Element>>>, location: Point, offset: Point },
    /// The cells of a row, from `start` on to the right.
    Cells { cells: Seq<Option<Element>>, start: Point },
}

/// What a step does to a grid, and whether all of it was drawn.
pub open spec fn step_result(grid: Seq<Seq<Option<Element>>>, dimensions: Point, step: DrawStep) -> (
    Seq<Seq<Option<Element>>>,
    bool,
) {
    match step {
        DrawStep::Rect { start, extent, element } => rect_result(
            grid,
            dimensions,
            start,
            extent,
            element,
        ),
        DrawStep::Shape { source, location, offset } => map_result(
            grid,
            dimensions,
            source,
            location,
            offset,
        ),
        DrawStep::Cells { cells, start } => run_result(
            grid,
            dimensions,
            true,
            cells,
            start,
            Direction::Horizontal,
        ),
    }
}

/// What a run of steps does to a grid, and whether all of it was drawn. The
/// run ends with the first step that cannot be drawn in full.
pub open spec fn steps_result(
    grid: Seq<Seq<Option<Element>>>,
    dimensions: Point,
    steps: Seq<DrawStep>,
) -> (Seq<Seq<Option<Element>>>, bool)
    decreases steps.len(),
{
    if steps.len() == 0 {
        (grid, true)
    } else {
        let before = steps_result(grid, dimensions, steps.drop_last());
        if !before.1 {
            before
        } else {
            step_result(before.0, dimensions, steps.last())
        }
    }
}

/// Whether two grids have the same rows of the same lengths.
pub open spec fn same_shape(first: Seq<Seq<Option<Element>>>, second: Seq<Seq<Option<Element>>>) -> bool {
    &&& first.len() == second.len()
    &&& forall|row: int| 0 <= row < first.len() ==> (#[trigger] first[row]).len() == second[row].len()
}

/// Drawing never changes the shape of a grid.
pub proof fn lemma_step_keeps_shape(grid: Seq<Seq<Option<Element>>>, dimensions: Point, step: DrawStep)
    ensures
        same_shape(grid, step_result(grid, dimensions, step).0),
{
}

/// Drawing never changes the shape of a grid.
pub proof fn lemma_steps_keep_shape(
    grid: Seq<Seq<Option<Element>>>,
    dimensions: Point,
    steps: Seq<DrawStep>,
)
    ensures
        same_shape(grid, steps_result(grid, dimensions, steps).0),
    decreases steps.len(),
{
    if steps.len() > 0 {
        lemma_steps_keep_shape(grid, dimensions, steps.drop_last());
        let before = steps_result(grid, dimensions, steps.drop_last());
        lemma_step_keeps_shape(before.0, dimensions, steps.last());
    }
}

/// A layout whose grid keeps its shape stays rectangular.
pub proof fn lemma_same_shape_is_rectangular(before: Layout, after: Layout)
    requires
        before.is_rectangular(),
        before.dimensions == after.dimensions,
        same_shape(before.grid(), after.grid()),
    ensures
        after.is_rectangular(),
{
    assert forall|row: int| 0 <= row < after.map.len() implies (#[trigger] after.map[row]).len()
        == after.dimensions.width by {
        assert(after.grid()[row].len() == before.grid()[row].len());
        assert(before.map[row].len() == before.dimensions.width);
    }
}

/// A run of steps and one more.
pub proof fn lemma_steps_push(
    grid: Seq<Seq<Option<Element>>>,
    dimensions: Point,
    steps: Seq<DrawStep>,
    step: DrawStep,
)
    ensures
        steps_result(grid, dimensions, steps.push(step)) == if !steps_result(
            grid,
            dimensions,
            steps,
        ).1 {
            steps_result(grid, dimensions, steps)
        } else {
            step_result(steps_result(grid, dimensions, steps).0, dimensions, step)
        },
{
    assert(steps.push(step).drop_last() =~= steps);
}

/// A run that has failed is not changed by the steps that would follow.
pub proof fn lemma_steps_stop(
    grid: Seq<Seq<Option<Element>>>,
    dimensions: Point,
    steps: Seq<DrawStep>,
    rest: Seq<DrawStep>,
)
    requires
        !steps_result(grid, dimensions, steps).1,
    ensures
        steps_result(grid, dimensions, steps + rest) == steps_result(grid, dimensions, steps),
    decreases rest.len(),
{
    if rest.len() == 0 {
        assert(steps + rest =~= steps);
    } else {
        lemma_steps_stop(grid, dimensions, steps, rest.drop_last());
        assert((steps + rest).drop_last() =~= steps + rest.drop_last());
    }
}

/// One run of steps after another.
pub proof fn lemma_steps_add(
    grid: Seq<Seq<Option<Element>>>,
    dimensions: Point,
    steps: Seq<DrawStep>,
    rest: Seq<DrawStep>,
)
    ensures
        steps_result(grid, dimensions, steps + rest) == if !steps_result(
            grid,
            dimensions,
            steps,
        ).1 {
            steps_result(grid, dimensions, steps)
        } else {
            steps_result(steps_result(grid, dimensions, steps).0, dimensions, rest)
        },
    decreases rest.len(),
{
    if !steps_result(grid, dimensions, steps).1 {
        lemma_steps_stop(grid, dimensions, steps, rest);
    } else if rest.len() == 0 {
        assert(steps + rest =~= steps);
    } else {
        lemma_steps_add(grid, dimensions, steps, rest.drop_last());
        assert((steps + rest).drop_last() =~= steps + rest.drop_last());
        assert((steps + rest).last() == rest.last());
    }
}

/// The decimal digits of a number, the last digit first.
pub open spec fn digits_from_last(number: nat) -> Seq<int>
    decreases number,
{
    if number < 10 {
        seq![number as int]
    } else {
        seq![(number % 10) as int] + digits_from_last(number / 10)
    }
}

/// The decimal digits of a number as they are written.
pub open spec fn digits_of(number: nat) -> Seq<int> {
    digits_from_last(number).reverse()
}

/// The steps that draw a number at `start`: one drawing for each digit, each
/// `DIGIT_SPACING` columns right of the one before.
pub open spec fn number_steps(number: nat, start: Point) -> Seq<DrawStep> {
    Seq::new(
        digits_of(number).len(),
        |i: int|
            DrawStep::Shape {
                source: ascii_cells(number_text(digits_of(number)[i])@, Color::Red),
                location: Point {
                    width: (start.width + DIGIT_SPACING * i) as i64,
                    height: start.height,
                },
                offset: Point { width: 0, height: 0 },
            },
    )
}

/// The cell that holds `value` in the given colours.
pub open spec fn text_cell(value: char, background: Color, foreground: Color) -> Option<Element> {
    Some(Element { value, background, foreground })
}

/// The cells of a text in which every character, blanks too, is an element.
pub open spec fn text_cells(chars: Seq<char>, background: Color, foreground: Color) -> Seq<
    Option<Element>,
> {
    chars.map_values(|value: char| text_cell(value, background, foreground))
}

/// The steps that draw the lives that are left: a box, a heart, a cross, the
/// number, and a caption.
pub open spec fn lives_steps(lives: u32) -> Seq<DrawStep> {
    seq![
        DrawStep::Rect {
            start: Point { width: BOX_PADDING as i64, height: 0 },
            extent: Point { width: GAME_DETAILS_BOX_WIDTH as i64, height: 8 },
            element: Element { value: '\u{2764}', background: DEFAULT_BACKGROUND, foreground: Color::Red },
        },
        DrawStep::Shape {
            source: ascii_cells(HEART@, Color::Red),
            location: Point { width: 5, height: 2 },
            offset: Point { width: 0, height: 0 },
        },
        DrawStep::Shape {
            source: ascii_cells(X@, Color::Black),
            location: Point { width: 19, height: 3 },
            offset: Point { width: 0, height: 0 },
        },
    ] + number_steps(lives as nat, Point { width: 27, height: 2 }) + seq![
        DrawStep::Cells {
            cells: text_cells("Lives"@, DEFAULT_BACKGROUND, Color::Red),
            start: Point { width: 19, height: 1 },
        },
    ]
}

/// The column at which the box of the score begins on a screen of the given
/// width.
pub open spec fn score_box_start(screen_width: i64) -> i64 {
    (screen_width - GAME_DETAILS_BOX_WIDTH) as i64
}

/// The steps that draw the score: a box at the right end of the screen, the
/// number, and a caption.
pub open spec fn score_steps(score: u32, screen_width: i64) -> Seq<DrawStep> {
    seq![
        DrawStep::Rect {
            start: Point { width: score_box_start(screen_width), height: 0 },
            extent: Point { width: GAME_DETAILS_BOX_WIDTH as i64, height: 8 },
            element: Element { value: '\u{29BF}', background: DEFAULT_BACKGROUND, foreground: Color::Cyan },
        },
    ] + number_steps(
        score as nat,
        Point { width: (score_box_start(screen_width) + 5) as i64, height: 2 },
    ) + seq![
        DrawStep::Cells {
            cells: text_cells("Score"@, DEFAULT_BACKGROUND, Color::Cyan),
            start: Point { width: (score_box_start(screen_width) + 19) as i64, height: 1 },
        },
    ]
}

/// The decimal digits of a number, the last digit first.
fn get_digits_from_last(number: u32) -> (digits: Vec<u32>)
    ensures
        digits@.map_values(|digit: u32| digit as int) == digits_from_last(number as nat),
        forall|i: int| 0 <= i < digits.len() ==> (#[trigger] digits[i]) < 10,
{
    let mut digits: Vec<u32> = Vec::new();
    let mut rest = number;
    let ghost as_int = |digit: u32| digit as int;
    while rest >= 10
        invariant
            as_int == |digit: u32| digit as int,
            digits_from_last(number as nat) == digits@.map_values(as_int) + digits_from_last(
                rest as nat,
            ),
            forall|i: int| 0 <= i < digits.len() ==> (#[trigger] digits[i]) < 10,
        decreases rest,
    {
        let ghost before = digits@.map_values(as_int);
        digits.push(rest % 10);
        proof {
            assert(digits@.map_values(as_int) =~= before.push((rest % 10) as int));
            assert(before.push((rest % 10) as int) + digits_from_last((rest / 10) as nat) =~= before
                + digits_from_last(rest as nat));
        }
        rest = rest / 10;
    }
    let ghost before = digits@.map_values(as_int);
    digits.push(rest);
    proof {
        assert(digits@.map_values(as_int) =~= before + digits_from_last(rest as nat));
    }
    digits
}

impl DisplayController {
    /// Whether `after` is this controller once `steps` have been drawn on
    /// its layout, up to the first that cannot be drawn in full; `done` tells
    /// whether all of them were drawn.
    pub open spec fn drew(self, after: Self, steps: Seq<DrawStep>, done: bool) -> bool {
        let drawn = steps_result(self.layout.grid(), self.layout.dimensions, steps);
        &&& done == drawn.1
        &&& after.layout.grid() == drawn.0
        &&& after.layout.dimensions == self.layout.dimensions
        &&& after.layout.default_element == self.layout.default_element
        &&& after.entity_drawable_offset == self.entity_drawable_offset
        &&& after.screen_size == self.screen_size
    }

    /// Where the shape of an entity in `state` is put on the layout.
    pub open spec fn place_of(&self, state: DrawableState) -> Point {
        Point {
            width: (state.location.width + self.entity_drawable_offset.width) as i64,
            height: (state.location.height + self.entity_drawable_offset.height) as i64,
        }
    }

    /// Whether the place of an entity in `state` on the layout is
    /// representable.
    pub open spec fn can_place(&self, state: DrawableState) -> bool {
        &&& fits_i64(state.location.width + self.entity_drawable_offset.width)
        &&& fits_i64(state.location.height + self.entity_drawable_offset.height)
    }

    /// The step that draws an entity in `state`.
    pub open spec fn drawable_step(&self, state: DrawableState) -> DrawStep {
        DrawStep::Shape {
            source: state.layout.grid(),
            location: self.place_of(state),
            offset: self.entity_drawable_offset,
        }
    }

    /// Whether any cell of an entity in `state` is shown.
    pub open spec fn is_shown(&self, state: DrawableState) -> bool {
        shows_any(
            self.layout.dimensions,
            state.layout.grid(),
            self.place_of(state),
            self.entity_drawable_offset,
        )
    }

    /// Creates a display controller with an empty layout of the given
    /// dimensions.
    ///
    /// * `entity_drawable_offset` - where the area for the entities begins
    /// * `screen_size` - the size of the screen that the layout is shown on
    pub fn new(dimensions: Point, entity_drawable_offset: Point, screen_size: Point) -> (result: Result<
        Self,
        DisplayControllerError,
    >)
        requires
            0 <= dimensions.width <= usize::MAX,
            0 <= dimensions.height <= usize::MAX,
        ensures
            result matches Ok(controller) && controller.entity_drawable_offset
                == entity_drawable_offset && controller.screen_size == screen_size
                && controller.layout.dimensions == dimensions && controller.layout.default_element
                == None::<Element> && controller.layout.is_rectangular()
                && controller.layout.grid() == filled_grid(
                dimensions.width as int,
                dimensions.height as int,
                None::<Element>,
            ),
    {
        Ok(
            DisplayController {
                layout: Layout::new(&dimensions, None),
                entity_drawable_offset,
                screen_size,
            },
        )
    }

    /// Draws a number at `start_position`, digit by digit. The drawing
    /// stops, and the call fails, at the first digit that the layout lacks a
    /// cell for; on a rectangular layout there is none.
    pub fn draw_u32(&mut self, numbers: u32, start_position: Point) -> (result: DisplayControllerResult<()>)
        requires
            fits_i64(start_position.width + DIGIT_SPACING * digits_of(numbers as nat).len()),
        ensures
            old(self).drew(
                *final(self),
                number_steps(numbers as nat, start_position),
                result is Ok,
            ),
            result matches Err(error) ==> error is PositionOutOfRange,
            old(self).layout.is_rectangular() ==> result is Ok && final(self).layout.is_rectangular(),
    {
        let ghost grid = self.layout.grid();
        let ghost dimensions = self.layout.dimensions;
        let ghost steps = number_steps(numbers as nat, start_position);
        let ghost written = digits_of(numbers as nat);
        let digits = get_digits_from_last(numbers);
        let count = digits.len();
        let mut location = start_position;
        let mut index: usize = 0;
        proof {
            assert(steps.take(0) =~= Seq::<DrawStep>::empty());
            assert(written.len() == count);
        }
        while index < count
            invariant
                index <= count,
                count == digits.len(),
                steps == number_steps(numbers as nat, start_position),
                written == digits_of(numbers as nat),
                written.len() == count,
                digits@.map_values(|digit: u32| digit as int) == digits_from_last(numbers as nat),
                forall|i: int| 0 <= i < digits.len() ==> (#[trigger] digits[i]) < 10,
                fits_i64(start_position.width + DIGIT_SPACING * count),
                location.width == start_position.width + DIGIT_SPACING * index,
                location.height == start_position.height,
                grid == old(self).layout.grid(),
                dimensions == old(self).layout.dimensions,
                self.layout.dimensions == dimensions,
                self.layout.default_element == old(self).layout.default_element,
                self.entity_drawable_offset == old(self).entity_drawable_offset,
                self.screen_size == old(self).screen_size,
                old(self).layout.is_rectangular() ==> self.layout.is_rectangular(),
                steps_result(grid, dimensions, steps.take(index as int)) == (
                    self.layout.grid(),
                    true,
                ),
            decreases count - index,
        {
            let digit = digits[count - 1 - index];
            proof {
                let from_last = digits_from_last(numbers as nat);
                assert(written[index as int] == from_last[count - 1 - index]);
                assert(from_last[count - 1 - index] == digit as int);
                assert(steps.take(index + 1) =~= steps.take(index as int).push(steps[index as int]));
                lemma_steps_push(grid, dimensions, steps.take(index as int), steps[index as int]);
            }
            let number_map = map_from_str(number_art(digit), Color::Red);
            match self.layout.draw_map(&number_map, location, &Point::default()) {
                Ok(_) => {},
                Err(error) => {
                    proof {
                        lemma_steps_stop(
                            grid,
                            dimensions,
                            steps.take(index + 1),
                            steps.skip(index + 1),
                        );
                        assert(steps.take(index + 1) + steps.skip(index + 1) =~= steps);
                    }
                    return Err(error);
                },
            }
            location = location.add_width(DIGIT_SPACING);
            index = index + 1;
        }
        proof {
            assert(steps.take(count as int) =~= steps);
        }
        Ok(())
    }

    /// Draws a text at `start_position`; every character, blanks too, takes
    /// the given colours.
    pub fn draw_str(
        &mut self,
        str: &str,
        background: Color,
        foreground: Color,
        start_position: Point,
    ) -> (result: DisplayControllerResult<()>)
        ensures
            old(self).drew(
                *final(self),
                seq![
                    DrawStep::Cells {
                        cells: text_cells(str@, background, foreground),
                        start: start_position,
                    },
                ],
                result is Ok,
            ),
            result matches Err(error) ==> error is PositionOutOfRange,
            old(self).layout.is_rectangular() ==> final(self).layout.is_rectangular(),
    {
        let ghost grid = self.layout.grid();
        let ghost dimensions = self.layout.dimensions;
        let ghost step = DrawStep::Cells {
            cells: text_cells(str@, background, foreground),
            start: start_position,
        };
        let mut elements: Vec<Option<Element>> = Vec::new();
        proof {
            assert(elements@ =~= text_cells(str@.take(0), background, foreground));
        }
        for character in it: str.chars()
            invariant
                it.seq() == str@,
                elements@ == text_cells(str@.take(it.index()), background, foreground),
        {
            let ghost before = elements@;
            elements.push(Some(Element::new(character, background, foreground)));
            proof {
                let taken = str@.take(it.index());
                let taken_now = str@.take(it.index() + 1);
                assert(taken_now =~= taken.push(character));
                assert(elements@ =~= text_cells(taken_now, background, foreground));
            }
        }
        proof {
            assert(str@.take(str@.len() as int) =~= str@);
            lemma_steps_push(grid, dimensions, Seq::empty(), step);
            assert(seq![step] =~= Seq::<DrawStep>::empty().push(step));
            lemma_step_keeps_shape(grid, dimensions, step);
        }
        let result = match self.layout.draw_element_array(elements, &start_position) {
            Ok(_) => Ok(()),
            Err(error) => Err(error),
        };
        proof {
            if old(self).layout.is_rectangular() {
                lemma_same_shape_is_rectangular(old(self).layout, self.layout);
            }
        }
        result
    }

    /// Draws the shape of an entity where the entity is, and tells whether
    /// any of it is shown. The drawing stops, and the call fails, at the
    /// first cell that the layout lacks; on a rectangular layout there is
    /// none.
    pub fn draw_drawable(&mut self, drawable_state: &DrawableState) -> (result: DisplayControllerResult<
        (&mut Self, bool),
    >)
        requires
            old(self).can_place(*drawable_state),
        ensures
            match result {
                Ok((ret, shown)) => {
                    &&& shown == old(self).is_shown(*drawable_state)
                    &&& old(self).drew(*ret, seq![old(self).drawable_step(*drawable_state)], true)
                    &&& old(self).layout.is_rectangular() ==> ret.layout.is_rectangular()
                    &&& *final(self) == *final(ret)
                },
                Err(error) => {
                    &&& old(self).drew(
                        *final(self),
                        seq![old(self).drawable_step(*drawable_state)],
                        false,
                    )
                    &&& error is PositionOutOfRange
                },
            },
            old(self).layout.is_rectangular() ==> result is Ok,
    {
        let ghost grid = self.layout.grid();
        let ghost dimensions = self.layout.dimensions;
        let ghost step = self.drawable_step(*drawable_state);
        let base_location = drawable_state.location + self.entity_drawable_offset;
        let offset = self.entity_drawable_offset;
        proof {
            lemma_steps_push(grid, dimensions, Seq::empty(), step);
            assert(seq![step] =~= Seq::<DrawStep>::empty().push(step));
        }
        let has_drawn_drawable = match self.layout.draw_map(
            &drawable_state.layout.map,
            base_location,
            &offset,
        ) {
            Ok(has_drawn) => has_drawn,
            Err(error) => {
                return Err(error);
            },
        };
        Ok((self, has_drawn_drawable))
    }
}

/// The steps of a frame around the entities: the lives, then the score.
pub open spec fn game_state_steps(lives: u32, score: u32, screen_width: i64) -> Seq<DrawStep> {
    lives_steps(lives) + score_steps(score, screen_width)
}

/// Whether the score and its box have a place on a screen of the given
/// width.
pub open spec fn score_fits(score: u32, screen_width: i64) -> bool {
    &&& fits_i64(screen_width - GAME_DETAILS_BOX_WIDTH)
    &&& fits_i64(score_box_start(screen_width) + GAME_DETAILS_BOX_WIDTH - 1)
    &&& fits_i64(score_box_start(screen_width) + 19)
    &&& fits_i64(
        score_box_start(screen_width) + 5 + DIGIT_SPACING * digits_of(score as nat).len(),
    )
}

/// The part of a score that is shown: what is left of it when it is cut to
/// 32 bits.
pub open spec fn shown_score(score: u64) -> u32 {
    (score % 0x1_0000_0000) as u32
}

impl DisplayController {
    /// What is drawn in two runs is drawn by the two runs in turn.
    pub proof fn lemma_drew_in_turn(
        self,
        between: Self,
        after: Self,
        done: Seq<DrawStep>,
        more: Seq<DrawStep>,
        complete: bool,
    )
        requires
            self.drew(between, done, true),
            between.drew(after, more, complete),
        ensures
            self.drew(after, done + more, complete),
    {
        self.lemma_drew_more(between, after, done, more, complete);
    }

    /// A run that has failed is not changed by the steps that would follow.
    pub proof fn lemma_drew_whole(self, after: Self, done: Seq<DrawStep>, rest: Seq<DrawStep>)
        requires
            self.drew(after, done, false),
        ensures
            self.drew(after, done + rest, false),
    {
        self.lemma_drew_all(after, done, rest);
    }

    /// One more run of steps has been drawn after `done`.
    proof fn lemma_drew_more(
        self,
        between: Self,
        after: Self,
        done: Seq<DrawStep>,
        more: Seq<DrawStep>,
        complete: bool,
    )
        requires
            self.drew(between, done, true),
            between.drew(after, more, complete),
        ensures
            self.drew(after, done + more, complete),
    {
        lemma_steps_add(self.layout.grid(), self.layout.dimensions, done, more);
    }

    /// A run that has failed is the whole run.
    proof fn lemma_drew_all(self, after: Self, done: Seq<DrawStep>, rest: Seq<DrawStep>)
        requires
            self.drew(after, done, false),
        ensures
            self.drew(after, done + rest, false),
    {
        lemma_steps_stop(self.layout.grid(), self.layout.dimensions, done, rest);
    }

    /// Draws the outline of a rectangle on the layout.
    fn draw_box(&mut self, start: Point, extent: Point, element: Element) -> (result:
        DisplayControllerResult<()>)
        requires
            fits_i64(extent.height - 1),
            fits_i64(extent.width - 1),
            fits_i64(start.height + extent.height - 1),
            fits_i64(start.width + extent.width - 1),
        ensures
            old(self).drew(*final(self), seq![DrawStep::Rect { start, extent, element }], result is Ok),
            result matches Err(error) ==> error is PositionOutOfRange,
            old(self).layout.is_rectangular() ==> final(self).layout.is_rectangular(),
    {
        let ghost grid = self.layout.grid();
        let ghost dimensions = self.layout.dimensions;
        let ghost step = DrawStep::Rect { start, extent, element };
        proof {
            lemma_steps_push(grid, dimensions, Seq::empty(), step);
            assert(seq![step] =~= Seq::<DrawStep>::empty().push(step));
            lemma_step_keeps_shape(grid, dimensions, step);
        }
        let result = match self.layout.draw_rect(&start, &extent, element) {
            Ok(_) => Ok(()),
            Err(error) => Err(error),
        };
        proof {
            if old(self).layout.is_rectangular() {
                lemma_same_shape_is_rectangular(old(self).layout, self.layout);
            }
        }
        result
    }

    /// Draws a drawing in text on the layout.
    fn draw_art(&mut self, art: &str, color: Color, location: Point) -> (result:
        DisplayControllerResult<()>)
        ensures
            old(self).drew(
                *final(self),
                seq![
                    DrawStep::Shape {
                        source: ascii_cells(art@, color),
                        location,
                        offset: Point { width: 0, height: 0 },
                    },
                ],
                result is Ok,
            ),
            result matches Err(error) ==> error is PositionOutOfRange,
            old(self).layout.is_rectangular() ==> result is Ok && final(self).layout.is_rectangular(),
    {
        let ghost grid = self.layout.grid();
        let ghost dimensions = self.layout.dimensions;
        let ghost step = DrawStep::Shape {
            source: ascii_cells(art@, color),
            location,
            offset: Point { width: 0, height: 0 },
        };
        proof {
            lemma_steps_push(grid, dimensions, Seq::empty(), step);
            assert(seq![step] =~= Seq::<DrawStep>::empty().push(step));
        }
        let art_map = map_from_str(art, color);
        match self.layout.draw_map(&art_map, location, &Point::default()) {
            Ok(_) => Ok(()),
            Err(error) => Err(error),
        }
    }

    fn draw_lives(&mut self, lives: u32) -> (result: DisplayControllerResult<()>)
        ensures
            old(self).drew(*final(self), lives_steps(lives), result is Ok),
            result matches Err(error) ==> error is PositionOutOfRange,
            old(self).layout.is_rectangular() ==> final(self).layout.is_rectangular(),
    {
        let ghost start = *self;
        let ghost frame = seq![
            DrawStep::Rect {
                start: Point { width: BOX_PADDING as i64, height: 0 },
                extent: Point { width: GAME_DETAILS_BOX_WIDTH as i64, height: 8 },
                element: Element {
                    value: '\u{2764}',
                    background: DEFAULT_BACKGROUND,
                    foreground: Color::Red,
                },
            },
        ];
        let ghost heart = seq![
            DrawStep::Shape {
                source: ascii_cells(HEART@, Color::Red),
                location: Point { width: 5, height: 2 },
                offset: Point { width: 0, height: 0 },
            },
        ];
        let ghost cross = seq![
            DrawStep::Shape {
                source: ascii_cells(X@, Color::Black),
                location: Point { width: 19, height: 3 },
                offset: Point { width: 0, height: 0 },
            },
        ];
        let ghost number = number_steps(lives as nat, Point { width: 27, height: 2 });
        let ghost caption = seq![
            DrawStep::Cells {
                cells: text_cells("Lives"@, DEFAULT_BACKGROUND, Color::Red),
                start: Point { width: 19, height: 1 },
            },
        ];
        proof {
            assert(lives_steps(lives) =~= frame + heart + cross + number + caption);
            assert(lives_steps(lives) =~= frame + (heart + cross + number + caption));
            assert(lives_steps(lives) =~= frame + heart + (cross + number + caption));
            assert(lives_steps(lives) =~= frame + heart + cross + (number + caption));
            lemma_digits_are_few(lives as nat);
        }
        match self.draw_box(
            Point::new(BOX_PADDING as i64, 0),
            Point::new(GAME_DETAILS_BOX_WIDTH as i64, 8),
            Element::new('\u{2764}', DEFAULT_BACKGROUND, Color::Red),
        ) {
            Ok(_) => {},
            Err(error) => {
                proof {
                    start.lemma_drew_all(*self, frame, heart + cross + number + caption);
                }
                return Err(error);
            },
        }
        let ghost after_frame = *self;
        let hearted = self.draw_art(HEART, Color::Red, Point::new(5, 2));
        let ghost after_heart = *self;
        proof {
            start.lemma_drew_more(after_frame, after_heart, frame, heart, hearted is Ok);
        }
        match hearted {
            Ok(_) => {},
            Err(error) => {
                proof {
                    start.lemma_drew_all(*self, frame + heart, cross + number + caption);
                }
                return Err(error);
            },
        }
        let crossed = self.draw_art(X, Color::Black, Point::new(19, 3));
        let ghost after_cross = *self;
        proof {
            start.lemma_drew_more(after_heart, after_cross, frame + heart, cross, crossed is Ok);
        }
        match crossed {
            Ok(_) => {},
            Err(error) => {
                proof {
                    start.lemma_drew_all(*self, frame + heart + cross, number + caption);
                }
                return Err(error);
            },
        }
        let numbered = self.draw_u32(lives, Point::new(27, 2));
        let ghost after_number = *self;
        proof {
            start.lemma_drew_more(
                after_cross,
                after_number,
                frame + heart + cross,
                number,
                numbered is Ok,
            );
        }
        match numbered {
            Ok(_) => {},
            Err(error) => {
                proof {
                    start.lemma_drew_all(*self, frame + heart + cross + number, caption);
                }
                return Err(error);
            },
        }
        let result = self.draw_str("Lives", DEFAULT_BACKGROUND, Color::Red, Point::new(19, 1));
        proof {
            start.lemma_drew_more(
                after_number,
                *self,
                frame + heart + cross + number,
                caption,
                result is Ok,
            );
        }
        result
    }

    fn draw_score(&mut self, score: u64) -> (result: DisplayControllerResult<()>)
        requires
            score_fits(shown_score(score), old(self).screen_size.width),
        ensures
            old(self).drew(
                *final(self),
                score_steps(shown_score(score), old(self).screen_size.width),
                result is Ok,
            ),
            result matches Err(error) ==> error is PositionOutOfRange,
            old(self).layout.is_rectangular() ==> final(self).layout.is_rectangular(),
    {
        let ghost start = *self;
        let shown: u32 = (score % 0x1_0000_0000) as u32;
        let start_position = Point {
            height: 0,
            width: self.screen_size.width - GAME_DETAILS_BOX_WIDTH as i64,
        };
        let ghost frame = seq![
            DrawStep::Rect {
                start: start_position,
                extent: Point { width: GAME_DETAILS_BOX_WIDTH as i64, height: 8 },
                element: Element {
                    value: '\u{29BF}',
                    background: DEFAULT_BACKGROUND,
                    foreground: Color::Cyan,
                },
            },
        ];
        let ghost number = number_steps(
            shown as nat,
            Point { width: (start_position.width + 5) as i64, height: 2 },
        );
        let ghost caption = seq![
            DrawStep::Cells {
                cells: text_cells("Score"@, DEFAULT_BACKGROUND, Color::Cyan),
                start: Point { width: (start_position.width + 19) as i64, height: 1 },
            },
        ];
        proof {
            assert(score_steps(shown, self.screen_size.width) =~= frame + number + caption);
            assert(frame + number + caption =~= frame + (number + caption));
        }
        match self.draw_box(
            start_position,
            Point::new(GAME_DETAILS_BOX_WIDTH as i64, 8),
            Element::new('\u{29BF}', DEFAULT_BACKGROUND, Color::Cyan),
        ) {
            Ok(_) => {},
            Err(error) => {
                proof {
                    start.lemma_drew_all(*self, frame, number + caption);
                }
                return Err(error);
            },
        }
        let ghost after_frame = *self;
        let numbered = self.draw_u32(shown, Point::new(start_position.width + 5, 2));
        let ghost after_number = *self;
        proof {
            start.lemma_drew_more(after_frame, after_number, frame, number, numbered is Ok);
        }
        match numbered {
            Ok(_) => {},
            Err(error) => {
                proof {
                    start.lemma_drew_all(*self, frame + number, caption);
                }
                return Err(error);
            },
        }
        let result = self.draw_str(
            "Score",
            DEFAULT_BACKGROUND,
            Color::Cyan,
            Point::new(start_position.width + 19, 1),
        );
        proof {
            start.lemma_drew_more(after_number, *self, frame + number, caption, result is Ok);
        }
        result
    }

    /// Draws what frames the entities: the lives that are left and the score.
    /// The drawing stops, and the call fails, at the first part that has no
    /// place on the layout; what was drawn before stays.
    pub fn draw_game_state(&mut self, game_state: &GameState, lives: u32) -> (result:
        DisplayControllerResult<&mut Self>)
        requires
            score_fits(shown_score(game_state.score), old(self).screen_size.width),
        ensures
            match result {
                Ok(ret) => old(self).drew(
                    *ret,
                    game_state_steps(
                        lives,
                        shown_score(game_state.score),
                        old(self).screen_size.width,
                    ),
                    true,
                ) && (old(self).layout.is_rectangular() ==> ret.layout.is_rectangular())
                    && *final(self) == *final(ret),
                Err(error) => old(self).drew(
                    *final(self),
                    game_state_steps(
                        lives,
                        shown_score(game_state.score),
                        old(self).screen_size.width,
                    ),
                    false,
                ) && error is PositionOutOfRange && (old(self).layout.is_rectangular()
                    ==> final(self).layout.is_rectangular()),
            },
    {
        let ghost start = *self;
        let ghost lives_part = lives_steps(lives);
        let ghost score_part = score_steps(shown_score(game_state.score), self.screen_size.width);
        match self.draw_lives(lives) {
            Ok(_) => {},
            Err(error) => {
                proof {
                    start.lemma_drew_all(*self, lives_part, score_part);
                }
                return Err(error);
            },
        }
        let ghost after_lives = *self;
        match self.draw_score(game_state.score) {
            Ok(_) => {
                proof {
                    start.lemma_drew_more(after_lives, *self, lives_part, score_part, true);
                }
            },
            Err(error) => {
                proof {
                    start.lemma_drew_more(after_lives, *self, lives_part, score_part, false);
                }
                return Err(error);
            },
        }
        Ok(self)
    }
}

/// A number of 32 bits has at most ten digits.
pub proof fn lemma_digits_are_few(number: nat)
    requires
        number <= u32::MAX,
    ensures
        digits_of(number).len() <= 10,
{
    reveal_with_fuel(digits_from_last, 11);
}

/// The steps that draw the entities under `keys`, in that order.
pub open spec fn entity_steps<T: Drawable>(
    controller: DisplayController,
    entities: Map<Identity, T>,
    keys: Seq<Identity>,
) -> Seq<DrawStep> {
    keys.map_values(|key: Identity| controller.drawable_step(entities[key].drawable_state()))
}

/// The identities that the states of the entities of which nothing is shown
/// carry.
pub open spec fn hidden_identities<T: Drawable>(
    controller: DisplayController,
    entities: Map<Identity, T>,
) -> Set<Identity> {
    Set::new(
        |uuid: Identity|
            exists|key: Identity|
                entities.contains_key(key) && (#[trigger] entities[key]).drawable_state().uuid
                    == uuid && !controller.is_shown(entities[key].drawable_state()),
    )
}

impl DisplayController {
    /// Draws the entities of a population, in no particular order, and
    /// removes from the population what has left the visible area for good:
    /// every entity under the identity of a state of which nothing is shown.
    pub fn draw_entity_controller_items<T: Drawable + Health>(
        &mut self,
        entity_controller: &mut EntityController<T>,
    ) -> (ret: &mut Self)
        requires
            old(self).layout.is_rectangular(),
            forall|uuid: Identity| #[trigger]
                old(entity_controller)@.contains_key(uuid) ==> old(self).can_place(
                    old(entity_controller)@[uuid].drawable_state(),
                ),
        ensures
            exists|keys: Seq<Identity>|
                keys.no_duplicates() && keys.to_set() == old(entity_controller)@.dom() && old(
                    self,
                ).drew(*ret, #[trigger] entity_steps(*old(self), old(entity_controller)@, keys), true),
            final(entity_controller)@ == old(entity_controller)@.remove_keys(
                hidden_identities(*old(self), old(entity_controller)@),
            ),
            ret.layout.is_rectangular(),
            *final(self) == *final(ret),
    {
        let ghost start = *self;
        let ghost entities = entity_controller@;
        let mut delete_uuids: Vec<Identity> = Vec::new();
        let states = entity_controller.get_all_drawable_states();
        let ghost keys = choose|keys: Seq<Identity>| lists_states_of(states@, entities, keys);
        let ghost steps = entity_steps(start, entities, keys);
        let mut index: usize = 0;
        proof {
            assert(steps.take(0) =~= Seq::<DrawStep>::empty());
        }
        while index < states.len()
            invariant
                index <= states.len(),
                lists_states_of(states@, entities, keys),
                steps == entity_steps(start, entities, keys),
                start.layout.is_rectangular(),
                forall|uuid: Identity| #[trigger]
                    entities.contains_key(uuid) ==> start.can_place(entities[uuid].drawable_state()),
                self.layout.is_rectangular(),
                start.drew(*self, steps.take(index as int), true),
                forall|uuid: Identity|
                    delete_uuids@.contains(uuid) <==> exists|place: int|
                        0 <= place < index && (#[trigger] states[place]).uuid == uuid
                            && !start.is_shown(*states[place]),
            decreases states.len() - index,
        {
            let state = states[index];
            let ghost before = *self;
            let ghost deleted = delete_uuids@;
            proof {
                assert(keys.to_set().contains(keys[index as int]));
                assert(*state == entities[keys[index as int]].drawable_state());
                assert(steps[index as int] == start.drawable_step(*state));
                assert(steps.take(index + 1) =~= steps.take(index as int) + seq![
                    steps[index as int],
                ]);
            }
            let did_draw = match self.draw_drawable(state) {
                Ok((_, did_draw)) => did_draw,
                Err(_) => vstd::pervasive::unreached(),
            };
            proof {
                start.lemma_drew_more(
                    before,
                    *self,
                    steps.take(index as int),
                    seq![steps[index as int]],
                    true,
                );
            }
            if !did_draw {
                delete_uuids.push(state.uuid);
            }
            proof {
                assert forall|uuid: Identity|
                    delete_uuids@.contains(uuid) <==> exists|place: int|
                        0 <= place < index + 1 && (#[trigger] states[place]).uuid == uuid
                            && !start.is_shown(*states[place]) by {
                    if delete_uuids@.contains(uuid) {
                        let at = choose|at: int|
                            0 <= at < delete_uuids@.len() && delete_uuids@[at] == uuid;
                        if at < deleted.len() {
                            assert(deleted[at] == uuid);
                            assert(deleted.contains(uuid));
                        } else {
                            assert(states[index as int].uuid == uuid);
                        }
                    }
                    if exists|place: int|
                        0 <= place < index + 1 && (#[trigger] states[place]).uuid == uuid
                            && !start.is_shown(*states[place]) {
                        let place = choose|place: int|
                            0 <= place < index + 1 && (#[trigger] states[place]).uuid == uuid
                                && !start.is_shown(*states[place]);
                        if place < index {
                            assert(deleted.contains(uuid));
                            let at = choose|at: int| 0 <= at < deleted.len() && deleted[at] == uuid;
                            assert(delete_uuids@[at] == uuid);
                        } else {
                            assert(delete_uuids@[delete_uuids@.len() - 1] == uuid);
                        }
                    }
                }
            }
            index = index + 1;
        }
        proof {
            assert(steps.take(states.len() as int) =~= steps);
            assert(delete_uuids@.to_set() =~= hidden_identities(start, entities)) by {
                assert forall|uuid: Identity|
                    delete_uuids@.to_set().contains(uuid) <==> hidden_identities(
                        start,
                        entities,
                    ).contains(uuid) by {
                    if delete_uuids@.contains(uuid) {
                        let place = choose|place: int|
                            0 <= place < states.len() && (#[trigger] states[place]).uuid == uuid
                                && !start.is_shown(*states[place]);
                        assert(keys.to_set().contains(keys[place]));
                        assert(entities[keys[place]].drawable_state().uuid == uuid);
                    }
                    if hidden_identities(start, entities).contains(uuid) {
                        let key = choose|key: Identity|
                            entities.contains_key(key) && (
                            #[trigger] entities[key]).drawable_state().uuid == uuid
                                && !start.is_shown(entities[key].drawable_state());
                        assert(keys.to_set().contains(key));
                        let place = choose|place: int| 0 <= place < keys.len() && keys[place] == key;
                        assert(states[place].uuid == uuid);
                    }
                }
            }
        }
        let mut deleted_count: usize = 0;
        proof {
            assert(delete_uuids@.take(0).to_set() =~= Set::<Identity>::empty());
            assert(entities.remove_keys(Set::<Identity>::empty()) =~= entities);
        }
        while deleted_count < delete_uuids.len()
            invariant
                deleted_count <= delete_uuids.len(),
                entity_controller@ == entities.remove_keys(
                    delete_uuids@.take(deleted_count as int).to_set(),
                ),
            decreases delete_uuids.len() - deleted_count,
        {
            let uuid = delete_uuids[deleted_count];
            entity_controller.delete_entity(uuid);
            proof {
                let gone = delete_uuids@.take(deleted_count as int);
                let gone_now = delete_uuids@.take(deleted_count + 1);
                assert(gone_now =~= gone.push(uuid));
                assert(gone_now.to_set() =~= gone.to_set().insert(uuid)) by {
                    assert forall|other: Identity|
                        gone_now.to_set().contains(other) <==> gone.to_set().insert(uuid).contains(
                            other,
                        ) by {
                        if gone_now.contains(other) {
                            let at = choose|at: int| 0 <= at < gone_now.len() && gone_now[at] == other;
                            if at < gone.len() {
                                assert(gone[at] == other);
                            }
                        }
                        if gone.contains(other) {
                            let at = choose|at: int| 0 <= at < gone.len() && gone[at] == other;
                            assert(gone_now[at] == other);
                        }
                        if other == uuid {
                            assert(gone_now[deleted_count as int] == other);
                        }
                    }
                }
                assert(entity_controller@ =~= entities.remove_keys(gone_now.to_set()));
            }
            deleted_count = deleted_count + 1;
        }
        proof {
            assert(delete_uuids@.take(delete_uuids@.len() as int) =~= delete_uuids@);
        }
        self
    }
}

} // verus!
