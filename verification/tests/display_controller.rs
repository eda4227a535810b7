use asteroid_game::components::{Drawable, DrawableState, DrawableType};
use asteroid_game::display::{
    Color, DisplayController, DisplayControllerError, Element, Layout, Point, DEFAULT_BACKGROUND,
    MINIMUM_SCREEN_WIDTH,
};
use asteroid_game::entities::{Asteroid, Bullet};
use asteroid_game::game::GameState;
use asteroid_game::systems::EntityController;

struct MockDrawble {
    drawable_state: DrawableState,
}

impl MockDrawble {
    pub fn new() -> Self {
        Self {
            drawable_state: DrawableState::new(
                Layout::new(&Point::new(2, 2), Some(Element::default())),
                Point::new(-5, -5),
                DrawableType::Player,
                None,
            ),
        }
    }

}

impl Drawable for MockDrawble {
    fn drawable_state(&self) -> DrawableState {
        unreachable!()
    }

    fn with_position(self, _position: Point) -> Self {
        unreachable!()
    }

    fn set_position(&mut self, _updated_position: Point) -> &mut Self {
        unreachable!()
    }

    fn get_drawable_state(&self) -> &DrawableState {
        &self.drawable_state
    }
}

const SCREEN: Point = Point {
    width: 100,
    height: 40,
};

fn controller() -> DisplayController {
    DisplayController::new(SCREEN, Point::new(0, 10), SCREEN).unwrap()
}

fn shown(controller: &DisplayController) -> Vec<(i64, i64, char)> {
    let mut cells = Vec::new();

    for (row, line) in controller.layout.map.iter().enumerate() {
        for (column, cell) in line.iter().enumerate() {
            if let Some(element) = cell {
                cells.push((column as i64, row as i64, element.value));
            }
        }
    }

    cells
}

#[test]
fn it_can_handle_drawable_outside_dimensions() {
    let mut display_controller = DisplayController::new(SCREEN, Default::default(), SCREEN).unwrap();

    let result = display_controller.draw_drawable(&MockDrawble::new().get_drawable_state());

    assert!(result.err().is_none());
}

#[test]
fn the_screen_must_hold_both_boxes() {
    assert_eq!(MINIMUM_SCREEN_WIDTH, 88);
}

#[test]
fn a_new_controller_shows_nothing() {
    let controller = controller();

    assert_eq!(controller.layout.dimensions, SCREEN);
    assert_eq!(controller.layout.map.len(), 40);
    assert_eq!(controller.layout.map[39].len(), 100);
    assert_eq!(controller.entity_drawable_offset, Point::new(0, 10));
    assert_eq!(controller.screen_size, SCREEN);
    assert!(shown(&controller).is_empty());
}

#[test]
fn entities_are_drawn_below_the_offset() {
    let mut controller = controller();
    let bullet = Bullet::build_basic_bullet(Point::new(7, 3));

    let (_, did_draw) = controller.draw_drawable(bullet.get_drawable_state()).unwrap();

    assert!(did_draw);
    assert_eq!(shown(&controller), vec![(7, 13, '|')]);
}

#[test]
fn what_is_above_the_offset_is_not_drawn() {
    let mut controller = controller();
    // two rows of asteroid: one above the arena, one in its first row
    let asteroid = Asteroid::new(Point::new(0, -1), Point::new(1, 1));

    let (_, did_draw) = controller.draw_drawable(asteroid.get_drawable_state()).unwrap();

    assert!(did_draw);
    assert_eq!(
        shown(&controller),
        vec![(0, 10, '\\'), (1, 10, '#'), (2, 10, '#'), (3, 10, '/')]
    );

    let gone = Asteroid::new(Point::new(0, -2), Point::new(1, 1));
    let (_, did_draw) = controller.draw_drawable(gone.get_drawable_state()).unwrap();

    assert!(!did_draw);
}

#[test]
fn entities_that_are_not_shown_are_removed() {
    let mut controller = controller();
    let mut bullets: EntityController<Bullet> = EntityController::new();
    let inside = Bullet::build_basic_bullet(Point::new(3, 3));
    let above = Bullet::build_basic_bullet(Point::new(3, -1));
    let beside = Bullet::build_basic_bullet(Point::new(100, 3));
    let below = Bullet::build_basic_bullet(Point::new(3, 30));
    let inside_uuid = inside.drawable.uuid;

    bullets
        .spawn_entity(inside)
        .spawn_entity(above)
        .spawn_entity(beside)
        .spawn_entity(below);

    controller.draw_entity_controller_items(&mut bullets);

    assert_eq!(bullets.get_all_drawable_states().len(), 1);
    assert!(bullets.has_entity(inside_uuid));
    assert_eq!(shown(&controller), vec![(3, 13, '|')]);
}

#[test]
fn numbers_are_drawn_digit_by_digit() {
    let mut controller = controller();

    controller.draw_u32(40, Point::new(2, 1)).unwrap();

    let cells = shown(&controller);

    // a four, seven columns on a zero
    assert!(cells.contains(&(2, 1, '4')));
    assert!(cells.contains(&(7, 3, '4')));
    assert!(!cells.contains(&(4, 1, '4')));
    assert!(cells.contains(&(9, 1, '0')));
    assert!(cells.contains(&(14, 5, '0')));
    assert!(!cells.contains(&(11, 2, '0')));
    assert_eq!(cells.iter().filter(|cell| cell.2 == '4').count(), 18);
    assert_eq!(cells.iter().filter(|cell| cell.2 == '0').count(), 24);
    assert_eq!(cells.len(), 42);

    let mut controller = self::controller();

    controller.draw_u32(0, Point::new(0, 0)).unwrap();

    assert_eq!(shown(&controller).len(), 24);
}

#[test]
fn text_is_drawn_with_its_blanks() {
    let mut controller = controller();

    controller
        .draw_str("a b", Color::Green, Color::Red, Point::new(1, 1))
        .unwrap();

    assert_eq!(
        controller.layout.map[1][1..4],
        [
            Some(Element::new('a', Color::Green, Color::Red)),
            Some(Element::new(' ', Color::Green, Color::Red)),
            Some(Element::new('b', Color::Green, Color::Red)),
        ]
    );

    let result = controller.draw_str("ab", DEFAULT_BACKGROUND, Color::Red, Point::new(99, 0));

    assert!(matches!(
        result,
        Err(DisplayControllerError::PositionOutOfRange)
    ));
    assert_eq!(
        controller.layout.map[0][99],
        Some(Element::new('a', DEFAULT_BACKGROUND, Color::Red))
    );
}

#[test]
fn the_frame_shows_lives_and_score() {
    let mut controller = controller();
    let mut game_state = GameState::new();

    game_state.score = 120;
    controller.draw_game_state(&game_state, 3).unwrap();

    let cells = shown(&controller);

    // the box of the lives with its caption and number
    assert!(cells.contains(&(1, 0, '\u{2764}')));
    assert!(cells.contains(&(43, 7, '\u{2764}')));
    assert!(cells.contains(&(19, 1, 'L')));
    assert!(cells.contains(&(23, 1, 's')));
    assert!(cells.contains(&(27, 2, '3')));
    assert!(cells.contains(&(19, 3, 'x')));
    // the box of the score at the right end of the screen
    assert!(cells.contains(&(57, 0, '\u{29BF}')));
    assert!(cells.contains(&(99, 7, '\u{29BF}')));
    assert!(cells.contains(&(76, 1, 'S')));
    assert!(cells.contains(&(62, 2, '1')));
    assert!(cells.contains(&(69, 2, '2')));
    assert!(cells.contains(&(76, 2, '0')));
}

#[test]
fn a_screen_too_small_for_the_frame_fails() {
    let small = Point::new(30, 20);
    let mut controller = DisplayController::new(small, Point::new(0, 10), small).unwrap();

    let result = controller.draw_game_state(&GameState::new(), 3);

    assert!(matches!(
        result,
        Err(DisplayControllerError::PositionOutOfRange)
    ));
    // the top line of the first box was drawn as far as the screen goes
    assert_eq!(
        controller.layout.map[0][29],
        Some(Element::new('\u{2764}', DEFAULT_BACKGROUND, Color::Red))
    );
    assert_eq!(controller.layout.map[1][19], None);
}

#[test]
fn an_error_of_the_terminal_is_a_failed_write() {
    let failure = || std::io::Error::new(std::io::ErrorKind::BrokenPipe, "gone");

    assert!(matches!(
        DisplayControllerError::from_crossterm_error(failure()),
        DisplayControllerError::CrossTermWriteError
    ));
    assert!(matches!(
        DisplayControllerError::from(failure()),
        DisplayControllerError::CrossTermWriteError
    ));
    assert!(matches!(
        DisplayControllerError::from(std::fmt::Error),
        DisplayControllerError::CasteError(std::fmt::Error)
    ));
    assert!(matches!(
        asteroid_game::game::AppError::from(failure()),
        asteroid_game::game::AppError::DisplayControllerError(
            DisplayControllerError::CrossTermWriteError
        )
    ));
    assert!(matches!(
        asteroid_game::game::AppError::from(DisplayControllerError::Shutdown),
        asteroid_game::game::AppError::DisplayControllerError(DisplayControllerError::Shutdown)
    ));
}

#[test]
fn drawing_fails_on_a_layout_that_lacks_cells() {
    let mut controller = controller();

    controller.layout.map[12].truncate(5);

    let bullet = Bullet::build_basic_bullet(Point::new(7, 2));

    assert!(matches!(
        controller.draw_drawable(bullet.get_drawable_state()),
        Err(DisplayControllerError::PositionOutOfRange)
    ));
    assert!(matches!(
        controller.draw_u32(8, Point::new(2, 10)),
        Err(DisplayControllerError::PositionOutOfRange)
    ));
    // the rows of the eight above the short row were drawn
    assert_eq!(controller.layout.map[11][2].unwrap().value, '8');
    assert_eq!(controller.layout.map[13][2], None);
}
