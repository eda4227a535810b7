use asteroid_game::components::drawable::update_position_for_drawable_vec;
use asteroid_game::components::{get_rated_velocity, Drawable, DrawableType};
use asteroid_game::display::Point;
use asteroid_game::entities::{Asteroid, Bullet, Player};

const ARENA: Point = Point {
    width: 40,
    height: 30,
};

#[test]
fn velocity_is_scaled_to_the_frame() {
    assert_eq!(
        get_rated_velocity(Point::new(33, -20), 75),
        Point::new(2, -1)
    );
    assert_eq!(
        get_rated_velocity(Point::new(2000, -3000), 1500),
        Point::new(3000, -4500)
    );
    assert_eq!(
        get_rated_velocity(Point::new(1999, -1999), 1),
        Point::new(1, -1)
    );
}

#[test]
fn a_moving_axis_never_rests() {
    for duration in [0, 1, 2, 16, 75, 999, 1000, 1001] {
        for velocity in [1, 2, 19, 20, 33, 500, 999] {
            let rated = get_rated_velocity(Point::new(velocity, -velocity), duration);

            assert!(rated.width >= 1, "{velocity} for {duration} ms");
            assert!(rated.height <= -1, "{velocity} for {duration} ms");
        }
    }

    assert_eq!(get_rated_velocity(Point::new(1, -1), 1), Point::new(1, -1));
    assert_eq!(get_rated_velocity(Point::new(20, -20), 0), Point::new(1, -1));
}

#[test]
fn a_resting_axis_never_moves() {
    for duration in [0, 1, 75, 1000, 1_000_000, u128::MAX] {
        assert_eq!(
            get_rated_velocity(Point::new(0, 0), duration),
            Point::new(0, 0)
        );
        assert_eq!(get_rated_velocity(Point::new(0, 7), duration.min(1000)).width, 0);
        assert_eq!(get_rated_velocity(Point::new(-7, 0), duration.min(1000)).height, 0);
    }
}

#[test]
fn rounding_goes_toward_zero() {
    assert_eq!(get_rated_velocity(Point::new(-1500, 1500), 1000), Point::new(-1500, 1500));
    assert_eq!(get_rated_velocity(Point::new(-3, 3), 500), Point::new(-1, 1));
    assert_eq!(get_rated_velocity(Point::new(-5, 5), 500), Point::new(-2, 2));
}

#[test]
fn the_largest_values_are_scaled_without_overflow() {
    assert_eq!(
        get_rated_velocity(Point::new(i64::MAX, i64::MIN), 1000),
        Point::new(i64::MAX, i64::MIN)
    );
    assert_eq!(
        get_rated_velocity(Point::new(1, -1), 9_000_000_000_000_000_000_000),
        Point::new(9_000_000_000_000_000_000, -9_000_000_000_000_000_000)
    );
}

#[test]
fn entities_move_by_their_rated_velocity() {
    let mut asteroid = Asteroid::new(Point::new(3, -3), Point::new(-20, 39));

    asteroid.update_position(None, 100);

    assert_eq!(asteroid.drawable.location, Point::new(1, 0));
    assert_eq!(asteroid.drawable.velocity, Point::new(-20, 39));
    assert_eq!(asteroid.health, 1);

    let mut bullet = Bullet::build_basic_bullet(Point::new(10, 0));

    bullet.update_position(None, 75);
    bullet.update_position(Some(&ARENA), 75);

    // anything but the player may leave the arena
    assert_eq!(bullet.drawable.location, Point::new(10, -2));
}

#[test]
fn set_position_moves_nothing_else() {
    let mut asteroid = Asteroid::new(Point::new(3, 3), Point::new(1, 1));
    let uuid = asteroid.drawable.uuid;

    asteroid.set_position(Point::new(-8, 12)).set_position(Point::new(9, 9));

    assert_eq!(asteroid.get_drawable_state().location, Point::new(9, 9));
    assert_eq!(asteroid.drawable.uuid, uuid);
    assert_eq!(asteroid.drawable.drawable_type, DrawableType::Enemy(1));
}

#[test]
fn the_player_stays_inside_the_arena() {
    let shape = Player::new(None).drawable.layout.dimensions;

    assert_eq!(shape, Point::new(9, 3));

    for (velocity, start) in [
        (Point::new(-33, -20), Point::new(5, 5)),
        (Point::new(33, 20), Point::new(20, 20)),
        (Point::new(-100_000, 100_000), Point::new(1, 1)),
        (Point::new(100_000, -100_000), Point::new(30, 26)),
        (Point::new(0, 0), Point::new(-50, 500)),
    ] {
        for duration in [0, 1, 75, 1000, 60_000] {
            let mut player = Player::new(Some(start));
            player.drawable.velocity = velocity;

            player.update_position(Some(&ARENA), duration);

            let location = player.drawable.location;

            assert!(location.width >= 1 && location.height >= 1);
            assert!(location.width + shape.width <= ARENA.width - 1);
            assert!(location.height + shape.height <= ARENA.height - 1);
        }
    }
}

#[test]
fn the_player_is_clamped_to_the_exact_edge() {
    let mut player = Player::new(Some(Point::new(5, 5)));

    player.drawable.velocity = Point::new(1000, 1000);
    player.update_position(Some(&ARENA), 1000);

    assert_eq!(player.drawable.location, Point::new(30, 26));

    player.drawable.velocity = Point::new(-1000, -1000);
    player.update_position(Some(&ARENA), 1000);

    assert_eq!(player.drawable.location, Point::new(1, 1));

    player.drawable.velocity = Point::new(3, 4);
    player.update_position(Some(&ARENA), 1000);

    assert_eq!(player.drawable.location, Point::new(4, 5));
}

#[test]
fn an_arena_too_small_for_the_player_puts_it_at_the_far_edge() {
    let mut player = Player::new(Some(Point::new(5, 5)));

    player.update_position(Some(&Point::new(5, 30)), 75);

    // 5 columns of arena, 9 of ship, 1 of padding
    assert_eq!(player.drawable.location, Point::new(-5, 5));
}

#[test]
fn a_vector_of_entities_moves_as_one() {
    let mut asteroids = vec![
        Asteroid::new(Point::new(0, 0), Point::new(10, 10)),
        Asteroid::new(Point::new(5, 5), Point::new(-10, 20)),
    ];

    update_position_for_drawable_vec(&mut asteroids, 500);

    assert_eq!(asteroids[0].drawable.location, Point::new(5, 5));
    assert_eq!(asteroids[1].drawable.location, Point::new(0, 15));
}
