use asteroid_game::components::{Drawable, DrawableState, DrawableType};
use asteroid_game::display::{Element, Layout, Point};
use asteroid_game::entities::{Asteroid, Bullet, Player, ASTEROID_DAMAGE, BULLET_DAMAGE};
use asteroid_game::systems::{
    apply_damage_to_uuid, get_capped_collision_summary, get_collision_summary, get_positions_with_overlaps,
    run_collision_detection, CollisionOutcome, CollisionResults, CollisionSummary,
    MinimalDrawableDetails, Summary, PLAYER_ENEMY_COLLISION_DAMAGE,
};
use std::collections::HashMap;

const POSITION: Point = Point {
    width: 5,
    height: 5,
};

const ARENA: Point = Point {
    width: 30,
    height: 30,
};

fn get_asteroid_mock() -> Asteroid {
    Asteroid::new(
        POSITION,
        Point {
            width: 1,
            height: 1,
        },
    )
}

/// An entity whose shape is a filled rectangle.
fn block(width: i64, height: i64, location: Point, drawable_type: DrawableType) -> DrawableState {
    DrawableState::new(
        Layout::new(&Point::new(width, height), Some(Element::default())),
        location,
        drawable_type,
        None,
    )
}

#[test]
fn it_should_return_no_collisions_when_providing_multiple_asteroids() {
    let asteroid = get_asteroid_mock();
    let drawable_states = vec![asteroid.get_drawable_state(); 10];

    let collisions = run_collision_detection(
        drawable_states,
        &Point {
            width: 30,
            height: 30,
        },
    );

    assert_eq!(collisions.len(), 0);
}

#[test]
fn it_should_return_no_collisions_when_providing_player_and_ammunition() {
    let player = Player::new(Some(POSITION));
    let ammunition = Bullet::build_basic_bullet(POSITION);

    let drawable_states = vec![player.get_drawable_state(), ammunition.get_drawable_state()];

    let collisions = run_collision_detection(
        drawable_states,
        &Point {
            width: 30,
            height: 30,
        },
    );

    assert_eq!(collisions.len(), 0);
}

#[test]
fn it_should_return_a_collision_for_a_player_and_asteroid() {
    let player = Player::new(Some(POSITION));

    let asteroid = get_asteroid_mock();

    let drawable_states = vec![asteroid.get_drawable_state(), player.get_drawable_state()];

    let collisions = run_collision_detection(
        drawable_states,
        &Point {
            width: 30,
            height: 30,
        },
    );

    assert_eq!(collisions.len(), 1);

    let player_collisions = collisions.get(&player.drawable.uuid).unwrap();

    assert_eq!(player_collisions.len(), 1);

    let player_asteroid_collision = player_collisions.get(&asteroid.drawable.uuid).unwrap();

    // Expect that the player took damage
    assert_eq!(player_asteroid_collision.affected_damage, 1);

    // Expect that the asteroid took damage
    assert_eq!(
        player_asteroid_collision.enemy_damage,
        PLAYER_ENEMY_COLLISION_DAMAGE
    );
}

#[test]
fn it_should_return_a_collision_for_a_asteroid_and_ammunition() {
    let ammunition = Bullet::build_basic_bullet(POSITION);

    let asteroid = get_asteroid_mock();

    let drawable_states = vec![
        asteroid.get_drawable_state(),
        ammunition.get_drawable_state(),
    ];

    let collisions = run_collision_detection(
        drawable_states,
        &Point {
            width: 30,
            height: 30,
        },
    );

    assert_eq!(collisions.len(), 1);

    let ammunition_collisions = collisions.get(&ammunition.drawable.uuid).unwrap();

    assert_eq!(ammunition_collisions.len(), 1);

    let ammunition_asteroid_collision =
        ammunition_collisions.get(&asteroid.drawable.uuid).unwrap();

    // Expect that the bullet took damange
    assert_eq!(
        ammunition_asteroid_collision.affected_damage,
        ASTEROID_DAMAGE
    );

    // Expect that the asteroid took damage equal to the bullets damage
    assert_eq!(ammunition_asteroid_collision.enemy_damage, BULLET_DAMAGE);
}

#[test]
fn it_should_return_a_single_collision_for_player_and_multiple_occurrences_of_asteroid() {
    let player = Player::new(Some(POSITION));

    let mut drawable_states = vec![player.get_drawable_state()];

    let asteroid = get_asteroid_mock();
    // Create multiple asteroids and append them to the drawable states vector
    let mut asteroids = vec![asteroid.get_drawable_state(); 10];
    drawable_states.append(&mut asteroids);

    let collisions = run_collision_detection(
        drawable_states,
        &Point {
            width: 30,
            height: 30,
        },
    );

    assert_eq!(collisions.len(), 1);

    let player_collisions = collisions.get(&player.drawable.uuid).unwrap();

    assert_eq!(player_collisions.len(), 1);
}

#[test]
fn it_should_return_collisions_and_summarize_for_a_player_ammunition_and_multiple_asteroids() {
    let player = Player::new(Some(POSITION));
    let asteroid1 = get_asteroid_mock();
    let asteroid2 = get_asteroid_mock();
    let ammunition = Bullet::build_basic_bullet(POSITION);

    let drawable_states = vec![
        player.get_drawable_state(),
        asteroid1.get_drawable_state(),
        asteroid2.get_drawable_state(),
        ammunition.get_drawable_state(),
    ];

    let collisions = run_collision_detection(
        drawable_states,
        &Point {
            width: 30,
            height: 30,
        },
    );

    let collision_summary = get_collision_summary(collisions);

    assert_eq!(collision_summary.len(), 4);

    for (_, collision) in collision_summary {
        if collision.uuid == player.drawable.uuid || collision.uuid == ammunition.drawable.uuid
        {
            assert_eq!(collision.damage, ASTEROID_DAMAGE * 2);
        } else if collision.uuid == asteroid1.drawable.uuid
            || collision.uuid == asteroid2.drawable.uuid
        {
            assert_eq!(
                collision.damage,
                BULLET_DAMAGE + PLAYER_ENEMY_COLLISION_DAMAGE
            );
        } else {
            // Ensure all items are tested
            panic!("No test case for element in collision summary")
        }
    }
}

#[test]
fn a_player_under_an_enemy_takes_its_damage_and_destroys_it() {
    let player = block(1, 1, POSITION, DrawableType::Player);
    let enemy = block(1, 1, POSITION, DrawableType::Enemy(1));

    let summary = get_collision_summary(run_collision_detection(vec![&player, &enemy], &ARENA));

    assert_eq!(summary.len(), 2);
    assert_eq!(
        summary[&player.uuid],
        Summary {
            uuid: player.uuid,
            damage: 1
        }
    );
    assert_eq!(
        summary[&enemy.uuid],
        Summary {
            uuid: enemy.uuid,
            damage: 100
        }
    );
}

#[test]
fn ammunition_and_an_enemy_damage_each_other() {
    let ammunition = block(1, 1, POSITION, DrawableType::Ammunition(1));
    let enemy = block(1, 1, POSITION, DrawableType::Enemy(1));

    let summary =
        get_collision_summary(run_collision_detection(vec![&ammunition, &enemy], &ARENA));

    assert_eq!(summary.len(), 2);
    assert_eq!(summary[&ammunition.uuid].damage, 1);
    assert_eq!(summary[&enemy.uuid].damage, 1);
}

#[test]
fn each_side_takes_the_damage_that_the_other_states() {
    let ammunition = block(1, 1, POSITION, DrawableType::Ammunition(7));
    let enemy = block(1, 1, POSITION, DrawableType::Enemy(3));
    let player = block(1, 1, POSITION, DrawableType::Player);

    let collisions = run_collision_detection(vec![&enemy, &ammunition, &player], &ARENA);

    assert_eq!(
        collisions[&ammunition.uuid][&enemy.uuid],
        CollisionOutcome {
            affected_damage: 3,
            enemy_damage: 7,
            asteroid_uuid: enemy.uuid
        }
    );
    assert_eq!(
        collisions[&player.uuid][&enemy.uuid],
        CollisionOutcome {
            affected_damage: 3,
            enemy_damage: PLAYER_ENEMY_COLLISION_DAMAGE,
            asteroid_uuid: enemy.uuid
        }
    );
    assert!(!collisions.contains_key(&enemy.uuid));

    let summary = get_collision_summary(collisions);

    assert_eq!(summary[&enemy.uuid].damage, 107);
    assert_eq!(summary[&player.uuid].damage, 3);
    assert_eq!(summary[&ammunition.uuid].damage, 3);
}

#[test]
fn ten_enemies_in_one_place_do_not_collide() {
    let enemies: Vec<DrawableState> = (0..10)
        .map(|_| block(2, 2, POSITION, DrawableType::Enemy(1)))
        .collect();

    let collisions = run_collision_detection(enemies.iter().collect(), &ARENA);

    assert_eq!(collisions.len(), 0);
    assert_eq!(get_collision_summary(collisions).len(), 0);
}

#[test]
fn a_pair_that_shares_many_cells_has_one_outcome() {
    let player = block(3, 3, POSITION, DrawableType::Player);
    let enemy = block(3, 3, Point::new(6, 6), DrawableType::Enemy(4));

    let states = vec![&player, &enemy];
    let overlaps = get_positions_with_overlaps(states.clone(), &ARENA);

    // the two squares share four cells
    assert_eq!(overlaps.len(), 4);

    let collisions = run_collision_detection(states, &ARENA);

    assert_eq!(collisions.len(), 1);
    assert_eq!(collisions[&player.uuid].len(), 1);

    let summary = get_collision_summary(collisions);

    assert_eq!(summary[&player.uuid].damage, 4);
    assert_eq!(summary[&enemy.uuid].damage, PLAYER_ENEMY_COLLISION_DAMAGE);
}

#[test]
fn shapes_that_share_no_cell_do_not_collide() {
    let player = block(2, 2, POSITION, DrawableType::Player);
    let beside = block(2, 2, Point::new(7, 5), DrawableType::Enemy(1));
    let below = block(2, 2, Point::new(5, 7), DrawableType::Enemy(1));

    let collisions = run_collision_detection(vec![&player, &beside, &below], &ARENA);

    assert_eq!(collisions.len(), 0);
}

#[test]
fn transparent_cells_do_not_collide() {
    let element = Some(Element::default());
    let player = DrawableState::new(
        Layout::from_map(vec![vec![element, None], vec![None, None]], None),
        POSITION,
        DrawableType::Player,
        None,
    );
    let enemy = DrawableState::new(
        Layout::from_map(vec![vec![None, element], vec![element, element]], None),
        POSITION,
        DrawableType::Enemy(1),
        None,
    );

    let collisions = run_collision_detection(vec![&player, &enemy], &ARENA);

    assert_eq!(collisions.len(), 0);
}

#[test]
fn a_player_and_ammunition_never_damage_each_other() {
    let player = block(2, 2, POSITION, DrawableType::Player);
    let ammunition = block(2, 2, POSITION, DrawableType::Ammunition(9));
    let enemy = block(2, 2, POSITION, DrawableType::Enemy(2));

    let collisions = run_collision_detection(vec![&player, &ammunition, &enemy], &ARENA);

    assert_eq!(collisions.len(), 2);
    assert!(!collisions[&player.uuid].contains_key(&ammunition.uuid));
    assert!(!collisions[&ammunition.uuid].contains_key(&player.uuid));
    assert_eq!(collisions[&player.uuid].len(), 1);
    assert_eq!(collisions[&ammunition.uuid].len(), 1);
}

#[test]
fn the_border_takes_no_part_in_collisions() {
    let border = block(30, 30, Point::default(), DrawableType::Border);
    let player = block(2, 2, POSITION, DrawableType::Player);
    let ammunition = block(1, 1, Point::new(8, 8), DrawableType::Ammunition(1));

    let collisions = run_collision_detection(vec![&border, &player, &ammunition], &ARENA);

    assert_eq!(collisions.len(), 0);
}

#[test]
fn cells_outside_the_arena_do_not_collide() {
    let player = block(2, 2, Point::new(-2, 3), DrawableType::Player);
    let enemy = block(2, 2, Point::new(-2, 3), DrawableType::Enemy(1));
    let low_player = block(1, 1, Point::new(3, 30), DrawableType::Player);
    let low_enemy = block(1, 1, Point::new(3, 30), DrawableType::Enemy(1));

    let states = vec![&player, &enemy, &low_player, &low_enemy];

    assert_eq!(get_positions_with_overlaps(states.clone(), &ARENA).len(), 0);
    assert_eq!(run_collision_detection(states, &ARENA).len(), 0);

    // on the edge the part inside still collides
    let edge_player = block(2, 2, Point::new(-1, -1), DrawableType::Player);
    let edge_enemy = block(2, 2, Point::new(-1, -1), DrawableType::Enemy(1));

    let collisions = run_collision_detection(vec![&edge_player, &edge_enemy], &ARENA);

    assert_eq!(collisions.len(), 1);
}

#[test]
fn an_arena_without_cells_has_no_collisions() {
    let player = block(2, 2, Point::default(), DrawableType::Player);
    let enemy = block(2, 2, Point::default(), DrawableType::Enemy(1));

    for arena in [Point::new(0, 10), Point::new(10, 0), Point::new(-3, -3)] {
        assert_eq!(
            run_collision_detection(vec![&player, &enemy], &arena).len(),
            0
        );
    }
}

#[test]
fn overlaps_come_row_by_row_with_their_occupants_in_order() {
    let first = block(2, 1, Point::new(1, 0), DrawableType::Player);
    let second = block(1, 2, Point::new(2, 0), DrawableType::Enemy(1));
    let third = block(3, 1, Point::new(0, 1), DrawableType::Ammunition(2));

    let overlaps = get_positions_with_overlaps(vec![&first, &second, &third], &Point::new(4, 3));

    let details = |state: &DrawableState| MinimalDrawableDetails {
        uuid: state.uuid,
        drawable_type: state.drawable_type,
    };

    assert_eq!(
        overlaps,
        vec![
            vec![details(&first), details(&second)],
            vec![details(&second), details(&third)],
        ]
    );
}

#[test]
fn an_entity_listed_twice_is_no_overlap() {
    let player = block(2, 2, POSITION, DrawableType::Player);

    assert_eq!(
        get_positions_with_overlaps(vec![&player, &player], &ARENA).len(),
        0
    );
}

#[test]
fn damage_adds_up_for_each_identity() {
    let mut summary: CollisionSummary = HashMap::new();

    apply_damage_to_uuid(&mut summary, 7, 3);
    apply_damage_to_uuid(&mut summary, 8, 0);
    apply_damage_to_uuid(&mut summary, 7, 4);

    assert_eq!(summary.len(), 2);
    assert_eq!(summary[&7], Summary { uuid: 7, damage: 7 });
    assert_eq!(summary[&8], Summary { uuid: 8, damage: 0 });
}

#[test]
fn the_summary_follows_the_enemy_that_an_outcome_names() {
    let mut collisions: CollisionResults = HashMap::new();
    let mut of_one: HashMap<u128, CollisionOutcome> = HashMap::new();
    let mut of_two: HashMap<u128, CollisionOutcome> = HashMap::new();

    of_one.insert(
        10,
        CollisionOutcome {
            affected_damage: 2,
            enemy_damage: 5,
            asteroid_uuid: 10,
        },
    );
    of_one.insert(
        11,
        CollisionOutcome {
            affected_damage: 3,
            enemy_damage: 6,
            asteroid_uuid: 11,
        },
    );
    of_two.insert(
        10,
        CollisionOutcome {
            affected_damage: 4,
            enemy_damage: 7,
            asteroid_uuid: 10,
        },
    );
    collisions.insert(1, of_one);
    collisions.insert(2, of_two);

    let summary = get_collision_summary(collisions);

    assert_eq!(summary.len(), 4);
    assert_eq!(summary[&1].damage, 5);
    assert_eq!(summary[&2].damage, 4);
    assert_eq!(summary[&10].damage, 12);
    assert_eq!(summary[&11].damage, 6);
}

#[test]
fn capped_damage_stops_at_the_largest_number() {

    let mut collisions: CollisionResults = HashMap::new();

    for affected in [1u128, 2, 3] {
        let mut inner: HashMap<u128, CollisionOutcome> = HashMap::new();

        inner.insert(
            9,
            CollisionOutcome {
                affected_damage: 5,
                enemy_damage: u32::MAX / 2,
                asteroid_uuid: 9,
            },
        );
        collisions.insert(affected, inner);
    }

    let summary = get_capped_collision_summary(&collisions);

    assert_eq!(summary.len(), 4);
    assert_eq!(summary[&9].damage, u32::MAX);
    assert_eq!(summary[&1].damage, 5);

    // without an overflow the capped summary is the summary
    collisions.remove(&3);

    let capped = get_capped_collision_summary(&collisions);
    let exact = get_collision_summary(collisions);

    assert_eq!(capped, exact);
    assert_eq!(exact[&9].damage, u32::MAX - 1);
}
