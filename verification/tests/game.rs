use asteroid_game::components::{DrawableType, Health};
use asteroid_game::display::{DisplayController, DisplayControllerError, Point};
use asteroid_game::entities::{Asteroid, Borders, Bullet, Controller, Key};
use asteroid_game::game::{
    check_screen_width, draw_game_over, get_game_over_choice, initial_game_state, App, AppError,
    GameOverChoice, GameState, InitialGameState, ASTEROID_DESTROYED_POINTS, HUD_HEIGHT,
};
use asteroid_game::systems::{CollisionSummary, Summary};
use std::collections::HashMap;

const SCREEN: Point = Point {
    width: 100,
    height: 40,
};

fn app() -> App {
    App::new(SCREEN, InitialGameState { player_health: 3 }, SCREEN).unwrap()
}

fn running() -> GameState {
    let mut game_state = GameState::new();

    game_state.start_game();

    game_state
}

fn characters(app: &App) -> Vec<char> {
    app.display_controller
        .layout
        .map
        .iter()
        .flatten()
        .flatten()
        .map(|element| element.value)
        .collect()
}

#[test]
fn the_state_of_a_game_follows_its_course() {
    let mut game_state = GameState::new();

    assert!(!game_state.is_running());
    assert!(!game_state.game_over);
    assert_eq!(game_state.score, 0);
    assert_eq!(game_state.keyboard_event, None);

    game_state.score = 7;
    game_state.keyboard_event = Some(Key::Up);
    game_state.start_game();

    assert!(game_state.is_running());
    assert_eq!(game_state.score, 0);
    assert_eq!(game_state.keyboard_event, None);

    game_state.score = 9;
    game_state.handle_game_over();

    assert!(!game_state.is_running());
    assert!(game_state.game_over);
    assert_eq!(game_state.score, 9);

    game_state.start_game().stop_game();

    assert!(!game_state.is_running());
    assert!(!game_state.game_over);
}

#[test]
fn the_escape_key_stops_the_game() {
    let mut game_state = running();

    game_state.handle_keyboard(Some(Key::Left));

    assert_eq!(game_state.keyboard_event, Some(Key::Left));
    assert!(game_state.is_running());

    game_state.handle_keyboard(Some(Key::Esc));

    assert!(!game_state.is_running());
    assert_eq!(game_state.keyboard_event, Some(Key::Left));

    game_state.handle_keyboard(None);

    assert_eq!(game_state.keyboard_event, None);
}

#[test]
fn a_new_game_has_a_player_and_no_asteroids() {
    let app = app();

    assert_eq!(app.dimensions, SCREEN);
    assert_eq!(app.player.health, 3);
    assert_eq!(app.player.drawable.location, Point::new(5, 5));
    assert_eq!(app.borders.drawable.layout.dimensions, Point::new(100, 30));
    assert_eq!(app.asteroid_controller.dimensions, Point::new(100, 30));
    assert_eq!(app.asteroid_controller.spawn_rate, 100);
    assert_eq!(app.display_controller.entity_drawable_offset, Point::new(0, HUD_HEIGHT));
    assert_eq!(app.get_all_drawable_states().len(), 1);
    assert!(characters(&app).is_empty());
}

#[test]
fn a_screen_that_is_all_frame_has_no_room_for_a_border() {
    let screen = Point::new(100, 10);
    let result = App::new(screen, InitialGameState { player_health: 3 }, screen);

    assert!(matches!(
        result,
        Err(AppError::DisplayControllerError(
            DisplayControllerError::PositionOutOfRange
        ))
    ));
}

#[test]
fn the_states_of_all_entities_start_with_the_player() {
    let mut app = app();

    app.asteroid_controller
        .spawn_asteroid(Point::new(3, 3), Point::new(1, 1));
    app.player.handle_event(&Key::Char(' '));

    let states = app.get_all_drawable_states();

    assert_eq!(states.len(), 3);
    assert_eq!(states[0].drawable_type, DrawableType::Player);
    assert_eq!(states[1].drawable_type, DrawableType::Enemy(1));
    assert_eq!(states[2].drawable_type, DrawableType::Ammunition(1));
}

#[test]
fn everything_moves_and_only_the_player_is_held_back() {
    let mut app = app();

    app.asteroid_controller
        .spawn_asteroid(Point::new(3, -3), Point::new(-20, 30));
    app.player
        .bullet_entity_controller
        .spawn_entity(Bullet::build_basic_bullet(Point::new(10, 1)));
    app.player.drawable.velocity = Point::new(-33, -20);

    app.update_positions(1000);

    assert_eq!(app.player.drawable.location, Point::new(1, 1));
    assert_eq!(
        app.asteroid_controller.get_all_drawable_states()[0].location,
        Point::new(-17, 27)
    );
    assert_eq!(
        app.player.bullet_entity_controller.get_all_drawable_states()[0].location,
        Point::new(10, -19)
    );
}

#[test]
fn damage_is_applied_to_whom_it_is_for() {
    let mut app = app();
    let mut game_state = running();
    let strong = Bullet::build_spread_bullet(Point::new(1, 1));
    let weak = Bullet::build_basic_bullet(Point::new(1, 1));
    let hit = Asteroid::new(Point::new(1, 1), Point::new(1, 1));
    let spared = Asteroid::new(Point::new(1, 1), Point::new(1, 1));
    let (strong_uuid, weak_uuid) = (strong.drawable.uuid, weak.drawable.uuid);
    let (hit_uuid, spared_uuid) = (hit.drawable.uuid, spared.drawable.uuid);
    let player_uuid = app.player.drawable.uuid;

    app.player
        .bullet_entity_controller
        .spawn_entity(strong)
        .spawn_entity(weak);
    app.asteroid_controller
        .entity_controller
        .spawn_entity(hit)
        .spawn_entity(spared);

    let mut summary: CollisionSummary = HashMap::new();

    for (uuid, damage) in [
        (strong_uuid, 2),
        (weak_uuid, 1),
        (hit_uuid, 101),
        (player_uuid, 2),
    ] {
        summary.insert(uuid, Summary { uuid, damage });
    }

    app.apply_collision_summary(&summary, &mut game_state);

    assert!(app.player.bullet_entity_controller.has_entity(strong_uuid));
    assert!(!app.player.bullet_entity_controller.has_entity(weak_uuid));
    assert!(!app.asteroid_controller.entity_controller.has_entity(hit_uuid));
    assert!(app.asteroid_controller.entity_controller.has_entity(spared_uuid));
    assert_eq!(app.player.health, 1);
    assert_eq!(game_state.score, ASTEROID_DESTROYED_POINTS);
    assert!(game_state.is_running());
    assert!(!game_state.game_over);

    // three of the five units of health are left
    assert!(!app.player.bullet_entity_controller.apply_entity_damage(strong_uuid, 2));
    assert!(app.player.bullet_entity_controller.apply_entity_damage(strong_uuid, 1));
}

#[test]
fn a_player_without_health_ends_the_game() {
    let mut app = app();
    let mut game_state = running();
    let player_uuid = app.player.drawable.uuid;
    let mut summary: CollisionSummary = HashMap::new();

    summary.insert(
        player_uuid,
        Summary {
            uuid: player_uuid,
            damage: 3,
        },
    );

    app.apply_collision_summary(&summary, &mut game_state);

    assert_eq!(app.player.health, 0);
    assert!(game_state.game_over);
    assert!(!game_state.is_running());
    assert_eq!(game_state.score, 0);
}

#[test]
fn the_player_destroys_the_asteroid_it_runs_into() {
    let mut app = app();
    let mut game_state = running();

    app.asteroid_controller
        .spawn_asteroid(Point::new(5, 6), Point::new(1, 1));
    app.asteroid_controller
        .spawn_asteroid(Point::new(50, 20), Point::new(1, 1));

    app.handle_collisions(&mut game_state).unwrap();

    assert_eq!(app.player.health, 2);
    assert_eq!(game_state.score, ASTEROID_DESTROYED_POINTS);
    assert!(game_state.is_running());

    let asteroids = app.asteroid_controller.get_all_drawable_states();

    assert_eq!(asteroids.len(), 1);
    assert_eq!(asteroids[0].location, Point::new(50, 20));
}

#[test]
fn a_bullet_and_an_asteroid_destroy_each_other() {
    let mut app = app();
    let mut game_state = running();

    app.asteroid_controller
        .spawn_asteroid(Point::new(40, 20), Point::new(1, 1));
    app.player
        .bullet_entity_controller
        .spawn_entity(Bullet::build_basic_bullet(Point::new(42, 21)));
    app.player
        .bullet_entity_controller
        .spawn_entity(Bullet::build_spread_bullet(Point::new(60, 20)));

    app.handle_collisions(&mut game_state).unwrap();

    assert_eq!(app.player.health, 3);
    assert_eq!(game_state.score, ASTEROID_DESTROYED_POINTS);
    assert!(app.asteroid_controller.get_all_drawable_states().is_empty());

    let bullets = app.player.bullet_entity_controller.get_all_drawable_states();

    assert_eq!(bullets.len(), 1);
    assert_eq!(bullets[0].location, Point::new(60, 20));
}

#[test]
fn a_frame_is_drawn_with_all_that_is_in_it() {
    let mut app = app();
    let mut game_state = running();

    app.asteroid_controller
        .spawn_asteroid(Point::new(40, 20), Point::new(1, 1));
    app.asteroid_controller
        .spawn_asteroid(Point::new(40, -5), Point::new(1, 1));
    app.player.handle_event(&Key::Char(' '));

    app.draw_all_entities(&mut game_state).unwrap();

    let shown = characters(&app);

    assert!(shown.contains(&'^'));
    assert!(shown.contains(&'|'));
    // four cells of asteroid, three of ship, and the heart
    assert_eq!(shown.iter().filter(|value| **value == '#').count(), 4 + 3 + 43);
    assert!(shown.contains(&'L'));
    assert!(shown.contains(&'S'));
    // the asteroid far above the arena is gone
    assert_eq!(app.asteroid_controller.get_all_drawable_states().len(), 1);
    // the border runs around the arena, below the frame
    assert_eq!(app.display_controller.layout.map[10][0].unwrap().value, ' ');
    assert_eq!(app.display_controller.layout.map[39][99].unwrap().value, ' ');
    assert_eq!(app.display_controller.layout.map[20][1], None);

    app.reset();

    assert!(characters(&app).is_empty());
}

#[test]
fn a_frame_runs_from_the_key_to_the_picture() {
    let mut app = app();
    let mut game_state = running();

    game_state.keyboard_event = Some(Key::Right);
    app.run_next_game_frame(&mut game_state, 75).unwrap();

    // 33 cells a second for 75 ms
    assert_eq!(app.player.drawable.location, Point::new(7, 5));
    assert_eq!(app.player.drawable.velocity, Point::new(33, 0));
    assert_eq!(app.asteroid_controller.time_elapsed_since_spawn, 75);
    assert!(characters(&app).contains(&'^'));

    // no key: the player keeps its velocity, and the first asteroid is due
    game_state.keyboard_event = None;
    app.run_next_game_frame(&mut game_state, 75).unwrap();

    assert_eq!(app.player.drawable.location, Point::new(9, 5));
    assert_eq!(app.asteroid_controller.time_elapsed_since_spawn, 0);
    assert!(game_state.is_running());
    assert_eq!(app.player.health, 3);

    game_state.keyboard_event = Some(Key::Char(' '));
    app.run_next_game_frame(&mut game_state, 75).unwrap();

    let bullets = app.player.bullet_entity_controller.get_all_drawable_states();

    assert_eq!(bullets.len(), 1);
    // fired below the middle of the ship at column 9, then moved up by one cell
    assert_eq!(bullets[0].location, Point::new(13, 5));
    assert_eq!(app.player.drawable.location, Point::new(11, 5));
}

#[test]
fn frames_go_on_until_the_player_is_destroyed() {
    let mut app = App::new(SCREEN, InitialGameState { player_health: 1 }, SCREEN).unwrap();
    let mut game_state = running();

    app.asteroid_controller
        .spawn_asteroid(Point::new(5, 3), Point::new(0, 20));

    let mut frames = 0;

    while game_state.is_running() && frames < 50 {
        app.run_next_game_frame(&mut game_state, 50).unwrap();
        frames += 1;
    }

    assert!(game_state.game_over);
    assert_eq!(app.player.get_health(), 0);
    assert!(frames < 50);
    assert!(game_state.score >= ASTEROID_DESTROYED_POINTS);
}

#[test]
fn a_narrow_screen_is_refused_with_both_widths() {
    assert!(check_screen_width(&Point::new(88, 1)).is_ok());
    assert!(check_screen_width(&Point::new(500, -3)).is_ok());
    assert!(matches!(
        check_screen_width(&Point::new(87, 40)),
        Err(AppError::ScreenWidthTooSmall(87, 88))
    ));
    assert!(matches!(
        check_screen_width(&Point::new(0, 40)),
        Err(AppError::ScreenWidthTooSmall(0, 88))
    ));
}

#[test]
fn the_keys_of_the_last_screen() {
    assert_eq!(get_game_over_choice(Some(Key::Esc)), GameOverChoice::Close);
    assert_eq!(get_game_over_choice(Some(Key::Enter)), GameOverChoice::NewGame);
    assert_eq!(get_game_over_choice(Some(Key::Up)), GameOverChoice::Stay);
    assert_eq!(get_game_over_choice(Some(Key::Char(' '))), GameOverChoice::Stay);
    assert_eq!(get_game_over_choice(None), GameOverChoice::Stay);
    assert_eq!(initial_game_state().player_health, 3);
}

#[test]
fn the_last_screen_shows_the_score() {
    let mut controller = DisplayController::new(SCREEN, Point::default(), SCREEN).unwrap();
    let border = Borders::new(&SCREEN).unwrap();

    controller.draw_u32(7, Point::new(0, 30)).unwrap();
    draw_game_over(&mut controller, &border, &SCREEN, 120).unwrap();

    let line = |row: usize, from: usize, to: usize| -> String {
        controller.layout.map[row][from..to]
            .iter()
            .map(|cell| cell.map_or('.', |element| element.value))
            .collect()
    };

    // what was on the layout before is gone
    assert_eq!(controller.layout.map[30][1], None);
    // the heading begins ten rows above the middle, 47 columns left of it
    assert_eq!(line(10, 3, 13), ".#######..");
    assert_eq!(line(20, 45, 51), "Score:");
    // three digits, beginning eleven columns left of the middle
    assert_eq!(line(22, 39, 45), "1111..");
    assert_eq!(line(22, 46, 52), "222222");
    assert_eq!(line(22, 53, 59), "000000");
    assert_eq!(line(36, 37, 61), "Press ENTER for new game");
    assert_eq!(line(37, 41, 56), "or ESC to close");
    assert_eq!(controller.layout.map[0][0].unwrap().value, ' ');
}

#[test]
fn the_last_screen_fails_where_it_has_no_room() {
    let small = Point::new(20, 20);
    let mut controller = DisplayController::new(small, Point::default(), small).unwrap();
    let border = Borders::new(&small).unwrap();

    let result = draw_game_over(&mut controller, &border, &small, 5);

    assert!(matches!(
        result,
        Err(DisplayControllerError::PositionOutOfRange)
    ));
    // "Score:" fits, the line about the enter key does not
    assert_eq!(controller.layout.map[10][5].unwrap().value, 'S');
    assert_eq!(controller.layout.map[17][1], None);
}

#[test]
fn a_frame_with_moderate_numbers_can_be_run() {
    let mut app = app();
    let mut game_state = running();

    assert!(app.is_frame_moderate(&game_state, 75));
    assert!(app.is_frame_moderate(&game_state, 0x1_0000_0000));
    assert!(!app.is_frame_moderate(&game_state, 0x1_0000_0001));

    game_state.score = u64::MAX - 10;
    assert!(app.is_frame_moderate(&game_state, 75));
    game_state.score = u64::MAX - 9;
    assert!(!app.is_frame_moderate(&game_state, 75));
    game_state.score = 0;

    app.asteroid_controller
        .spawn_asteroid(Point::new(0x100_0000_0000, -3), Point::new(1, 1));
    assert!(app.is_frame_moderate(&game_state, 75));

    app.asteroid_controller
        .spawn_asteroid(Point::new(0x100_0000_0001, -3), Point::new(1, 1));
    assert!(!app.is_frame_moderate(&game_state, 75));
}
