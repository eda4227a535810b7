use asteroid_game::components::{DrawableState, DrawableType};
use asteroid_game::display::{Layout, Point};
use asteroid_game::entities::ASTEROID_DAMAGE;
use asteroid_game::systems::{
    get_asteroid_spawn_location, get_asteroid_velocity, AsteroidController,
};

const ARENA: Point = Point {
    width: 40,
    height: 30,
};

#[test]
fn spawn_locations_are_just_above_the_arena() {
    let mut columns = std::collections::HashSet::new();

    for _ in 0..500 {
        let location = get_asteroid_spawn_location(&ARENA);

        assert_eq!(location.height, -3);
        assert!((0..40).contains(&location.width));

        columns.insert(location.width);
    }

    // the column is picked anew each time
    assert!(columns.len() > 1);

    assert_eq!(get_asteroid_spawn_location(&Point::new(1, 1)), Point::new(0, -3));
}

#[test]
fn spawn_velocities_always_point_into_the_arena() {
    let mut velocities = std::collections::HashSet::new();

    for _ in 0..500 {
        let velocity = get_asteroid_velocity();

        assert!((-20..20).contains(&velocity.width));
        assert!((1..40).contains(&velocity.height));

        velocities.insert((velocity.width, velocity.height));
    }

    assert!(velocities.len() > 1);
}

#[test]
fn an_asteroid_is_spawned_once_the_spawn_rate_is_exceeded() {
    let mut controller = AsteroidController::new(100, ARENA);

    controller.handle_game_loop(60);

    assert_eq!(controller.time_elapsed_since_spawn, 60);
    assert!(controller.get_all_drawable_states().is_empty());

    // exactly the spawn rate is not yet more than it
    controller.handle_game_loop(40);

    assert_eq!(controller.time_elapsed_since_spawn, 100);
    assert!(controller.get_all_drawable_states().is_empty());

    controller.handle_game_loop(1);

    assert_eq!(controller.time_elapsed_since_spawn, 0);

    let states = controller.get_all_drawable_states();

    assert_eq!(states.len(), 1);
    assert_eq!(states[0].drawable_type, DrawableType::Enemy(ASTEROID_DAMAGE));
    assert_eq!(states[0].location.height, -3);
    assert!((0..40).contains(&states[0].location.width));
    assert!((-20..20).contains(&states[0].velocity.width));
    assert!((1..40).contains(&states[0].velocity.height));
    assert_eq!(states[0].layout.dimensions, Point::new(4, 2));
}

#[test]
fn each_frame_above_the_spawn_rate_spawns_one_asteroid() {
    let mut controller = AsteroidController::new(10, ARENA);

    for _ in 0..7 {
        controller.handle_game_loop(11);
    }

    assert_eq!(controller.get_all_drawable_states().len(), 7);
    assert_eq!(controller.time_elapsed_since_spawn, 0);
}

#[test]
fn the_timer_and_the_spawn_can_be_driven_apart() {
    let mut controller = AsteroidController::new(50, ARENA);

    assert!(!controller.advance_spawn_timer(50));
    assert!(controller.advance_spawn_timer(1));
    assert_eq!(controller.time_elapsed_since_spawn, 0);

    controller.spawn_asteroid(Point::new(12, -3), Point::new(-4, 9));

    let states = controller.get_all_drawable_states();

    assert_eq!(states.len(), 1);
    assert_eq!(states[0].location, Point::new(12, -3));
    assert_eq!(states[0].velocity, Point::new(-4, 9));
}

#[test]
fn asteroids_are_destroyed_by_damage() {
    let mut controller = AsteroidController::new(50, ARENA);

    controller.spawn_asteroid(Point::new(12, -3), Point::new(-4, 9));

    let uuid = controller.get_all_drawable_states()[0].uuid;

    controller.apply_asteroid_damage(uuid.wrapping_add(1), 5);

    assert_eq!(controller.get_all_drawable_states().len(), 1);

    controller.apply_asteroid_damage(uuid, 0);

    assert_eq!(controller.get_all_drawable_states().len(), 1);

    controller.apply_asteroid_damage(uuid, 1);

    assert!(controller.get_all_drawable_states().is_empty());
}

#[test]
fn every_state_gets_an_identity_of_its_own() {
    let mut identities = std::collections::HashSet::new();

    for _ in 0..100 {
        let state = DrawableState::new(
            Layout::new(&Point::new(1, 1), None),
            Point::default(),
            DrawableType::Border,
            Some(Point::new(2, 3)),
        );

        assert_eq!(state.velocity, Point::new(2, 3));

        identities.insert(state.uuid);
    }

    assert_eq!(identities.len(), 100);
}
