use super::app::InitialGameState;
use super::app_errors::{AppError, AppResult};
use crate::components::drawable::Drawable;
use crate::display::display_controller::{
    digits_from_last, digits_of, lemma_digits_are_few, lemma_steps_push, number_steps,
    shown_score, text_cells, DisplayController, DisplayControllerResult, DrawStep,
    MINIMUM_SCREEN_WIDTH,
};
use crate::display::element::{Color, DEFAULT_BACKGROUND};
use crate::display::layout::{ascii_cells, filled_grid, map_from_str};
use crate::display::point::{fits_i64, truncated_div, Point};
use crate::entities::borders::Borders;
use crate::entities::controller::Key;
use crate::user_display::consts::GAME_OVER_TEXT;
use vstd::prelude::*;

verus! {

/// How long a frame waits for a key, in milliseconds.
pub const GAME_LOOP_DELAY: u64 = 75;

/// What a game starts with: three lives.
pub fn initial_game_state() -> (state: InitialGameState)
    ensures
        state.player_health == 3,
{
    InitialGameState { player_health: 3 }
}

/// Tells whether a screen of the given dimensions is wide enough for the
/// game, and fails with the width it has and the width it needs where it is
/// not.
pub fn check_screen_width(dimensions: &Point) -> (result: AppResult<()>)
    ensures
        dimensions.width >= MINIMUM_SCREEN_WIDTH ==> result is Ok,
        dimensions.width < MINIMUM_SCREEN_WIDTH ==> result == Err::<(), AppError>(
            AppError::ScreenWidthTooSmall(dimensions.width as u64, MINIMUM_SCREEN_WIDTH),
        ),
{
    if dimensions.width < MINIMUM_SCREEN_WIDTH as i64 {
        return Err(AppError::ScreenWidthTooSmall(dimensions.width as u64, MINIMUM_SCREEN_WIDTH));
    }
    Ok(())
}

/// What the user wants once the game is over.
#[derive(Debug, Clone, Copy, PartialEq, Eq, Structural)]
pub enum GameOverChoice {
    /// Nothing yet: the screen stays.
    Stay,
    /// To leave.
    Close,
    /// Another game.
    NewGame,
}

/// What a key means once the game is over: the escape key leaves, the enter
/// key starts a new game, and nothing else has a meaning.
pub fn get_game_over_choice(event: Option<Key>) -> (choice: GameOverChoice)
    ensures
        choice == (match event {
            Some(Key::Esc) => GameOverChoice::Close,
            Some(Key::Enter) => GameOverChoice::NewGame,
            _ => GameOverChoice::Stay,
        }),
{
    match event {
        Some(Key::Esc) => GameOverChoice::Close,
        Some(Key::Enter) => GameOverChoice::NewGame,
        _ => GameOverChoice::Stay,
    }
}

/// The row at which the screen that ends a game begins.
pub open spec fn game_over_top(dimensions: Point) -> int {
    truncated_div(dimensions.height as int, 2) - 10
}

/// The column in the middle of the screen.
pub open spec fn middle_column(dimensions: Point) -> int {
    truncated_div(dimensions.width as int, 2)
}

/// The steps that draw the screen that ends a game: the border, the
/// heading, the score with its caption, and what the keys do.
pub open spec fn game_over_steps(
    controller: DisplayController,
    border: Borders,
    dimensions: Point,
    score: u64,
) -> Seq<DrawStep> {
    let top = game_over_top(dimensions);
    let middle = middle_column(dimensions);
    seq![
        controller.drawable_step(border.drawable),
        DrawStep::Shape {
            source: ascii_cells(GAME_OVER_TEXT@, Color::Green),
            location: Point { width: (middle - 47) as i64, height: top as i64 },
            offset: Point { width: 0, height: 0 },
        },
        DrawStep::Cells {
            cells: text_cells("Score:"@, DEFAULT_BACKGROUND, Color::Red),
            start: Point { width: (middle - 5) as i64, height: (top + 10) as i64 },
        },
    ] + number_steps(
        shown_score(score) as nat,
        Point {
            width: (middle - (2 + digits_of(score as nat).len() * 3)) as i64,
            height: (top + 12) as i64,
        },
    ) + seq![
        DrawStep::Cells {
            cells: text_cells("Press ENTER for new game"@, DEFAULT_BACKGROUND, Color::Green),
            start: Point { width: (middle - 13) as i64, height: (dimensions.height - 4) as i64 },
        },
        DrawStep::Cells {
            cells: text_cells("or ESC to close"@, DEFAULT_BACKGROUND, Color::Red),
            start: Point { width: (middle - 9) as i64, height: (dimensions.height - 3) as i64 },
        },
    ]
}

/// How many decimal digits a number has.
fn count_digits(number: u64) -> (count: usize)
    ensures
        count == digits_of(number as nat).len(),
        1 <= count <= 20,
{
    let mut count: usize = 1;
    let mut rest = number;
    let ghost mut bound: int = 0xFFFF_FFFF_FFFF_FFFF;
    while rest >= 10
        invariant
            1 <= count,
            digits_from_last(number as nat).len() == count - 1 + digits_from_last(rest as nat).len(),
            rest <= bound,
            count == 1 ==> bound == 18446744073709551615,
            count == 2 ==> bound == 1844674407370955161,
            count == 3 ==> bound == 184467440737095516,
            count == 4 ==> bound == 18446744073709551,
            count == 5 ==> bound == 1844674407370955,
            count == 6 ==> bound == 184467440737095,
            count == 7 ==> bound == 18446744073709,
            count == 8 ==> bound == 1844674407370,
            count == 9 ==> bound == 184467440737,
            count == 10 ==> bound == 18446744073,
            count == 11 ==> bound == 1844674407,
            count == 12 ==> bound == 184467440,
            count == 13 ==> bound == 18446744,
            count == 14 ==> bound == 1844674,
            count == 15 ==> bound == 184467,
            count == 16 ==> bound == 18446,
            count == 17 ==> bound == 1844,
            count == 18 ==> bound == 184,
            count == 19 ==> bound == 18,
            count == 20 ==> bound == 1,
            count <= 20,
        decreases rest,
    {
        rest = rest / 10;
        count = count + 1;
        proof {
            bound = bound / 10;
        }
    }
    count
}

/// Draws the screen that ends a game on a cleared layout. The drawing
/// stops, and the call fails, at the first text that has no place on the
/// layout; what was drawn before stays.
pub fn draw_game_over(
    display_controller: &mut DisplayController,
    border: &Borders,
    dimensions: &Point,
    score: u64,
) -> (result: DisplayControllerResult<()>)
    requires
        0 <= old(display_controller).layout.dimensions.width <= usize::MAX,
        0 <= old(display_controller).layout.dimensions.height <= usize::MAX,
        old(display_controller).can_place(border.drawable),
        fits_i64(dimensions.height - 4),
    ensures
        exists|cleared: DisplayController| #[trigger]
            is_cleared(*old(display_controller), cleared) && cleared.drew(
                *final(display_controller),
                game_over_steps(cleared, *border, *dimensions, score),
                result is Ok,
            ),
        result matches Err(error) ==> error is PositionOutOfRange,
        final(display_controller).layout.is_rectangular(),
{
    display_controller.layout.reset();
    let ghost cleared = *display_controller;
    let ghost top = game_over_top(*dimensions);
    let ghost middle = middle_column(*dimensions);
    let score_items = count_digits(score);
    let shown = (score % 0x1_0000_0000) as u32;
    let ghost frame = seq![cleared.drawable_step(border.drawable)];
    let ghost heading = seq![
        DrawStep::Shape {
            source: ascii_cells(GAME_OVER_TEXT@, Color::Green),
            location: Point { width: (middle - 47) as i64, height: top as i64 },
            offset: Point { width: 0, height: 0 },
        },
    ];
    let ghost caption = seq![
        DrawStep::Cells {
            cells: text_cells("Score:"@, DEFAULT_BACKGROUND, Color::Red),
            start: Point { width: (middle - 5) as i64, height: (top + 10) as i64 },
        },
    ];
    let ghost number = number_steps(
        shown as nat,
        Point { width: (middle - (2 + score_items * 3)) as i64, height: (top + 12) as i64 },
    );
    let ghost enter = seq![
        DrawStep::Cells {
            cells: text_cells("Press ENTER for new game"@, DEFAULT_BACKGROUND, Color::Green),
            start: Point { width: (middle - 13) as i64, height: (dimensions.height - 4) as i64 },
        },
    ];
    let ghost escape = seq![
        DrawStep::Cells {
            cells: text_cells("or ESC to close"@, DEFAULT_BACKGROUND, Color::Red),
            start: Point { width: (middle - 9) as i64, height: (dimensions.height - 3) as i64 },
        },
    ];
    proof {
        assert(is_cleared(*old(display_controller), cleared));
        assert(game_over_steps(cleared, *border, *dimensions, score) =~= frame + heading + caption
            + number + enter + escape);
        lemma_digits_are_few(shown as nat);
    }
    let draw_start_height = dimensions.height / 2 - 10;
    let middle_width = dimensions.width / 2;
    match display_controller.draw_drawable(border.get_drawable_state()) {
        Ok(_) => {},
        Err(error) => {
            return Err(error);
        },
    }
    let ghost after_frame = *display_controller;
    let heading_map = map_from_str(GAME_OVER_TEXT, Color::Green);
    match display_controller.layout.draw_map(
        &heading_map,
        Point { height: draw_start_height, width: middle_width - 47 },
        &Point::default(),
    ) {
        Ok(_) => {},
        Err(error) => {
            return Err(error);
        },
    }
    let ghost after_heading = *display_controller;
    proof {
        assert(after_frame.drew(after_heading, heading, true)) by {
            lemma_steps_push(
                after_frame.layout.grid(),
                after_frame.layout.dimensions,
                Seq::empty(),
                heading[0],
            );
            assert(heading =~= Seq::<DrawStep>::empty().push(heading[0]));
        }
        cleared.lemma_drew_in_turn(after_frame, after_heading, frame, heading, true);
    }
    let captioned = display_controller.draw_str(
        "Score:",
        DEFAULT_BACKGROUND,
        Color::Red,
        Point { height: draw_start_height + 10, width: middle_width - 5 },
    );
    let ghost after_caption = *display_controller;
    proof {
        cleared.lemma_drew_in_turn(
            after_heading,
            after_caption,
            frame + heading,
            caption,
            captioned is Ok,
        );
    }
    match captioned {
        Ok(_) => {},
        Err(error) => {
            proof {
                cleared.lemma_drew_whole(
                    after_caption,
                    frame + heading + caption,
                    number + enter + escape,
                );
                assert(frame + heading + caption + (number + enter + escape) =~= frame + heading
                    + caption + number + enter + escape);
            }
            return Err(error);
        },
    }
    match display_controller.draw_u32(
        shown,
        Point {
            height: draw_start_height + 12,
            width: middle_width - (2 + score_items as i64 * 3),
        },
    ) {
        Ok(_) => {},
        Err(error) => {
            return Err(error);
        },
    }
    let ghost after_number = *display_controller;
    proof {
        cleared.lemma_drew_in_turn(
            after_caption,
            after_number,
            frame + heading + caption,
            number,
            true,
        );
    }
    let entered = display_controller.draw_str(
        "Press ENTER for new game",
        DEFAULT_BACKGROUND,
        Color::Green,
        Point { height: dimensions.height - 4, width: middle_width - 13 },
    );
    let ghost after_enter = *display_controller;
    proof {
        cleared.lemma_drew_in_turn(
            after_number,
            after_enter,
            frame + heading + caption + number,
            enter,
            entered is Ok,
        );
    }
    match entered {
        Ok(_) => {},
        Err(error) => {
            proof {
                cleared.lemma_drew_whole(
                    after_enter,
                    frame + heading + caption + number + enter,
                    escape,
                );
            }
            return Err(error);
        },
    }
    let escaped = display_controller.draw_str(
        "or ESC to close",
        DEFAULT_BACKGROUND,
        Color::Red,
        Point { height: dimensions.height - 3, width: middle_width - 9 },
    );
    proof {
        cleared.lemma_drew_in_turn(
            after_enter,
            *display_controller,
            frame + heading + caption + number + enter,
            escape,
            escaped is Ok,
        );
    }
    escaped
}

/// Whether `cleared` is `controller` with its layout cleared.
pub open spec fn is_cleared(controller: DisplayController, cleared: DisplayController) -> bool {
    &&& cleared.entity_drawable_offset == controller.entity_drawable_offset
    &&& cleared.screen_size == controller.screen_size
    &&& cleared.layout.dimensions == controller.layout.dimensions
    &&& cleared.layout.default_element == controller.layout.default_element
    &&& cleared.layout.is_rectangular()
    &&& cleared.layout.grid() == filled_grid(
        controller.layout.dimensions.width as int,
        controller.layout.dimensions.height as int,
        controller.layout.default_element,
    )
}

} // verus!
