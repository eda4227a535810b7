use asteroid_game::components::{get_updated_health, Drawable, Health};
use asteroid_game::display::Point;
use asteroid_game::entities::{Asteroid, Bullet};
use asteroid_game::systems::EntityController;

fn spread_bullet() -> Bullet {
    Bullet::build_spread_bullet(Point::new(4, 4))
}

#[test]
fn health_never_goes_below_zero() {
    assert_eq!(get_updated_health(5, 3), 2);
    assert_eq!(get_updated_health(5, 5), 0);
    assert_eq!(get_updated_health(5, 6), 0);
    assert_eq!(get_updated_health(0, 0), 0);
    assert_eq!(get_updated_health(u32::MAX, 1), u32::MAX - 1);
    assert_eq!(get_updated_health(1, u32::MAX), 0);
}

#[test]
fn entities_take_damage() {
    let mut bullet = spread_bullet();

    assert_eq!(bullet.get_health(), 5);

    bullet.apply_damage(2).apply_damage(1);

    assert_eq!(bullet.get_health(), 2);
    assert_eq!(bullet.drawable.location, Point::new(4, 4));

    bullet.apply_damage(100);

    assert_eq!(bullet.get_health(), 0);
}

#[test]
fn a_spawned_entity_is_found_under_its_identity() {
    let mut controller: EntityController<Bullet> = EntityController::new();
    let bullet = spread_bullet();
    let uuid = bullet.drawable.uuid;

    assert!(!controller.has_entity(uuid));

    controller.spawn_entity(bullet);

    assert!(controller.has_entity(uuid));
    assert!(!controller.has_entity(uuid.wrapping_add(1)));
    assert_eq!(controller.get_all_drawable_states().len(), 1);
    assert_eq!(controller.get_all_drawable_states()[0].uuid, uuid);
}

#[test]
fn damage_below_the_health_weakens_the_entity() {
    let mut controller: EntityController<Bullet> = EntityController::new();
    let bullet = spread_bullet();
    let uuid = bullet.drawable.uuid;

    controller.spawn_entity(bullet);

    assert!(!controller.apply_entity_damage(uuid, 4));
    assert!(controller.has_entity(uuid));

    // one unit of health was left
    assert!(!controller.apply_entity_damage(uuid, 0));
    assert!(controller.apply_entity_damage(uuid, 1));
    assert!(!controller.has_entity(uuid));
}

#[test]
fn damage_of_at_least_the_health_removes_the_entity() {
    for damage in [5, 6, u32::MAX] {
        let mut controller: EntityController<Bullet> = EntityController::new();
        let bullet = spread_bullet();
        let other = spread_bullet();
        let uuid = bullet.drawable.uuid;
        let other_uuid = other.drawable.uuid;

        controller.spawn_entity(bullet).spawn_entity(other);

        assert!(controller.apply_entity_damage(uuid, damage));
        assert!(!controller.has_entity(uuid));
        assert!(controller.has_entity(other_uuid));
        assert_eq!(controller.get_all_drawable_states().len(), 1);
    }
}

#[test]
fn damage_to_an_unknown_identity_changes_nothing() {
    let mut controller: EntityController<Bullet> = EntityController::new();
    let bullet = spread_bullet();
    let uuid = bullet.drawable.uuid;

    controller.spawn_entity(bullet);

    assert!(!controller.apply_entity_damage(uuid.wrapping_add(1), 100));
    assert!(controller.has_entity(uuid));

    // the bullet still has all of its health
    assert!(!controller.apply_entity_damage(uuid, 4));
    assert!(controller.apply_entity_damage(uuid, 1));
}

#[test]
fn a_deleted_entity_is_gone() {
    let mut controller: EntityController<Asteroid> = EntityController::new();
    let asteroid = Asteroid::new(Point::new(1, 1), Point::new(1, 1));
    let uuid = asteroid.drawable.uuid;

    controller.spawn_entity(asteroid);
    controller.delete_entity(uuid.wrapping_add(1));

    assert!(controller.has_entity(uuid));

    controller.delete_entity(uuid);

    assert!(!controller.has_entity(uuid));
    assert!(controller.get_all_drawable_states().is_empty());
}

#[test]
fn all_entities_move_with_the_frame() {
    let mut controller: EntityController<Asteroid> = EntityController::new();
    let first = Asteroid::new(Point::new(0, -3), Point::new(10, 20));
    let second = Asteroid::new(Point::new(7, 7), Point::new(-1, 1));
    let first_uuid = first.drawable.uuid;

    controller
        .spawn_entity(first)
        .spawn_entity(second)
        .update_entity_positions(100);

    let states = controller.get_all_drawable_states();

    assert_eq!(states.len(), 2);

    for state in states {
        if state.uuid == first_uuid {
            assert_eq!(state.location, Point::new(1, -1));
        } else {
            assert_eq!(state.location, Point::new(6, 8));
        }
    }
}
