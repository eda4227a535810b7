use asteroid_game::components::{Drawable, DrawableType, Health};
use asteroid_game::display::{Color, Element, Point, DEFAULT_BACKGROUND};
use asteroid_game::entities::{Asteroid, Borders, Bullet, Controller, Key, Player};

#[test]
fn points_add_up_by_component() {
    let point = Point::new(3, -7);

    assert_eq!(point.add_width(4), Point::new(7, -7));
    assert_eq!(point.sub_width(4), Point::new(-1, -7));
    assert_eq!(point.add_height(4), Point::new(3, -3));
    assert_eq!(point.sub_height(4), Point::new(3, -11));
    assert_eq!(Point::default(), Point::new(0, 0));
    assert_eq!(point + Point::new(2, 2), Point::new(5, -5));
    assert_eq!(point - Point::new(2, 2), Point::new(1, -9));
    assert_eq!(point * Point::new(2, -2), Point::new(6, 14));
    assert_eq!(point / Point::new(2, 2), Point::new(1, -3));
}

#[test]
fn a_new_player_waits_at_its_default_position() {
    let player = Player::new(None);

    assert_eq!(player.drawable.location, Point::new(5, 5));
    assert_eq!(player.drawable.velocity, Point::new(0, 0));
    assert_eq!(player.drawable.drawable_type, DrawableType::Player);
    assert_eq!(player.get_health(), 1);
    assert!(player.bullet_entity_controller.get_all_drawable_states().is_empty());
    assert_eq!(
        player.drawable.layout.map[0][4],
        Some(Element::new('^', DEFAULT_BACKGROUND, Color::Cyan))
    );
    assert_eq!(player.drawable.layout.map[0][0], None);
}

#[test]
fn the_direction_keys_set_the_velocity() {
    let mut player = Player::new(None);

    player.handle_event(&Key::Up);
    assert_eq!(player.drawable.velocity, Point::new(0, -20));

    player.handle_event(&Key::Down);
    assert_eq!(player.drawable.velocity, Point::new(0, 20));

    player.handle_event(&Key::Left);
    assert_eq!(player.drawable.velocity, Point::new(-33, 0));

    player.handle_event(&Key::Right);
    assert_eq!(player.drawable.velocity, Point::new(33, 0));

    // any other key leaves the velocity as it was
    player.handle_event(&Key::Other);
    player.handle_event(&Key::Esc);
    player.handle_event(&Key::Char('x'));

    assert_eq!(player.drawable.velocity, Point::new(33, 0));
    assert_eq!(player.drawable.location, Point::new(5, 5));
    assert!(player.bullet_entity_controller.get_all_drawable_states().is_empty());
}

#[test]
fn the_space_bar_fires_a_basic_bullet() {
    let mut player = Player::new(Some(Point::new(10, 20)));

    player.handle_event(&Key::Char(' '));

    let bullets = player.bullet_entity_controller.get_all_drawable_states();

    assert_eq!(bullets.len(), 1);
    // the ship is nine cells wide
    assert_eq!(bullets[0].location, Point::new(14, 21));
    assert_eq!(bullets[0].velocity, Point::new(0, -20));
    assert_eq!(bullets[0].drawable_type, DrawableType::Ammunition(1));
    assert_eq!(bullets[0].layout.dimensions, Point::new(1, 1));
}

#[test]
fn the_enter_key_fires_a_spread_bullet() {
    let mut player = Player::new(Some(Point::new(10, 20)));

    player.handle_event(&Key::Enter);
    player.additional_event_logic(&Key::Enter);

    let bullets = player.bullet_entity_controller.get_all_drawable_states();

    assert_eq!(bullets.len(), 2);
    assert_eq!(bullets[0].location, Point::new(10, 20));
    assert_eq!(bullets[0].layout.dimensions, Point::new(9, 1));

    let uuid = bullets[0].uuid;

    // a spread bullet lasts for five hits
    assert!(!player.bullet_entity_controller.apply_entity_damage(uuid, 4));
    assert!(player.bullet_entity_controller.apply_entity_damage(uuid, 1));
}

#[test]
fn new_entities_come_with_their_kind_and_health() {
    let asteroid = Asteroid::new(Point::new(2, 3), Point::new(-1, 4));

    assert_eq!(asteroid.get_health(), 1);
    assert_eq!(asteroid.drawable.location, Point::new(2, 3));
    assert_eq!(asteroid.drawable.velocity, Point::new(-1, 4));
    assert_eq!(asteroid.drawable.drawable_type, DrawableType::Enemy(1));
    assert_eq!(
        asteroid.drawable.layout.map[1][3],
        Some(Element::new('/', DEFAULT_BACKGROUND, Color::Yellow))
    );

    let bullet = Bullet::build_basic_bullet(Point::new(8, 9));

    assert_eq!(bullet.get_health(), 1);
    assert_eq!(bullet.get_drawable_state().location, Point::new(8, 9));
    assert_eq!(bullet.drawable.velocity, Point::new(0, -20));
    assert_eq!(
        bullet.drawable.layout.map,
        vec![vec![Some(Element::new('|', DEFAULT_BACKGROUND, Color::White))]]
    );
}

#[test]
fn the_player_takes_damage() {
    let mut player = Player::new(None);

    player.health = 3;
    player.apply_damage(2);

    assert_eq!(player.get_health(), 1);

    player.apply_damage(7);

    assert_eq!(player.get_health(), 0);
}

#[test]
fn the_border_runs_along_the_edge_of_the_arena() {
    let borders = Borders::new(&Point::new(6, 4)).unwrap();
    let edge = Some(Element::new(' ', Color::Red, Color::Red));

    assert_eq!(borders.drawable.drawable_type, DrawableType::Border);
    assert_eq!(borders.get_drawable_state().location, Point::new(0, 0));
    assert_eq!(
        borders.drawable.layout.map,
        vec![
            vec![edge; 6],
            vec![edge, None, None, None, None, edge],
            vec![edge, None, None, None, None, edge],
            vec![edge; 6],
        ]
    );
}

#[test]
fn a_border_needs_an_arena_with_cells() {
    assert!(Borders::new(&Point::new(6, 0)).is_err());
    assert!(Borders::new(&Point::new(0, 6)).is_err());
    assert!(Borders::new(&Point::new(0, 0)).is_ok());
    assert!(Borders::new(&Point::new(1, 1)).is_ok());
}
