use super::entity_controller::EntityController;
use crate::components::drawable::{DrawableState, Identity};
use crate::display::point::Point;
use crate::entities::asteroid::{is_new_asteroid, Asteroid};
use rand::Rng;
use vstd::prelude::*;

verus! {

/// Spawns an asteroid whenever more than `spawn_rate` milliseconds have
/// passed since the last one, and keeps the asteroids that are alive.
pub struct AsteroidController {
    pub entity_controller: EntityController<Asteroid>,
    pub spawn_rate: u128,
    /// The milliseconds that have passed since the last asteroid was spawned.
    pub time_elapsed_since_spawn: u128,
    /// The dimensions of the arena that the asteroids are spawned above.
    pub dimensions: Point,
}

/// Draws a number from `start` up to, but not including, `end` with
/// `rand::Rng::gen_range` on the generator that `rand::thread_rng` hands
/// out. `gen_range` panics on an empty range, so the range must not be
/// empty; what it returns lies in the range.
#[verifier::external_body]
fn get_random_in_range(start: i64, end: i64) -> (number: i64)
    requires
        start < end,
    ensures
        start <= number < end,
{
    let mut rng = rand::thread_rng();
    rng.gen_range(start..end)
}

/// Whether an asteroid may be spawned at `location` in an arena of the given
/// dimensions: three rows above the arena, in one of its columns.
pub open spec fn is_spawn_location(dimensions: Point, location: Point) -> bool {
    location.height == -3 && 0 <= location.width < dimensions.width
}

/// Whether a new asteroid may have `velocity`: it drifts downwards, and to
/// either side or to none.
pub open spec fn is_spawn_velocity(velocity: Point) -> bool {
    -20 <= velocity.width < 20 && 1 <= velocity.height < 40
}

/// A place just above the arena, in a column picked at random.
pub fn get_asteroid_spawn_location(dimensions: &Point) -> (location: Point)
    requires
        dimensions.width > 0,
    ensures
        is_spawn_location(*dimensions, location),
{
    Point { height: -3, width: get_random_in_range(0, dimensions.width) }
}

/// A velocity picked at random: sideways either way, and always downwards.
pub fn get_asteroid_velocity() -> (velocity: Point)
    ensures
        is_spawn_velocity(velocity),
{
    Point { width: get_random_in_range(-20, 20), height: get_random_in_range(1, 40) }
}

impl AsteroidController {
    /// Whether a frame of `game_loop_duration` milliseconds brings the time
    /// since the last asteroid above the spawn rate.
    pub open spec fn is_spawn_due(&self, game_loop_duration: u128) -> bool {
        self.time_elapsed_since_spawn + game_loop_duration > self.spawn_rate
    }

    /// Creates a controller without asteroids.
    ///
    /// * `spawn_rate` - the time between two asteroids in milliseconds
    pub fn new(spawn_rate: u128, dimensions: Point) -> (controller: Self)
        ensures
            controller.entity_controller@ == Map::<Identity, Asteroid>::empty(),
            controller.spawn_rate == spawn_rate,
            controller.time_elapsed_since_spawn == 0,
            controller.dimensions == dimensions,
    {
        Self {
            entity_controller: EntityController::new(),
            spawn_rate,
            time_elapsed_since_spawn: 0,
            dimensions,
        }
    }

    /// Counts a frame of `game_loop_duration` milliseconds and tells whether
    /// an asteroid is due. Where one is due the count starts anew.
    pub fn advance_spawn_timer(&mut self, game_loop_duration: u128) -> (due: bool)
        requires
            old(self).time_elapsed_since_spawn + game_loop_duration <= u128::MAX,
        ensures
            due == old(self).is_spawn_due(game_loop_duration),
            final(self).time_elapsed_since_spawn == if due {
                0
            } else {
                (old(self).time_elapsed_since_spawn + game_loop_duration) as u128
            },
            final(self).spawn_rate == old(self).spawn_rate,
            final(self).dimensions == old(self).dimensions,
            final(self).entity_controller == old(self).entity_controller,
    {
        self.time_elapsed_since_spawn = self.time_elapsed_since_spawn + game_loop_duration;
        if self.time_elapsed_since_spawn > self.spawn_rate {
            self.time_elapsed_since_spawn = 0;
            true
        } else {
            false
        }
    }

    /// Takes in a new asteroid at `location` that moves with `velocity`.
    pub fn spawn_asteroid(&mut self, location: Point, velocity: Point)
        ensures
            exists|asteroid: Asteroid| #[trigger]
                is_new_asteroid(asteroid, location, velocity) && final(self).entity_controller@
                    == old(self).entity_controller@.insert(asteroid.drawable.uuid, asteroid),
            final(self).time_elapsed_since_spawn == old(self).time_elapsed_since_spawn,
            final(self).spawn_rate == old(self).spawn_rate,
            final(self).dimensions == old(self).dimensions,
    {
        let asteroid = Asteroid::new(location, velocity);
        assert(is_new_asteroid(asteroid, location, velocity));
        self.entity_controller.spawn_entity(asteroid);
    }

    /// Counts a frame of `game_loop_duration` milliseconds. Once more than
    /// `spawn_rate` milliseconds have passed since the last asteroid, the
    /// count starts anew and one asteroid is spawned just above the arena, in
    /// a column and with a velocity picked at random.
    pub fn handle_game_loop(&mut self, game_loop_duration: u128) -> (ret: &mut Self)
        requires
            old(self).time_elapsed_since_spawn + game_loop_duration <= u128::MAX,
            old(self).is_spawn_due(game_loop_duration) ==> old(self).dimensions.width > 0,
        ensures
            ret.spawn_rate == old(self).spawn_rate,
            ret.dimensions == old(self).dimensions,
            !old(self).is_spawn_due(game_loop_duration) ==> ret.time_elapsed_since_spawn == old(self).time_elapsed_since_spawn
                + game_loop_duration && ret.entity_controller == old(self).entity_controller,
            old(self).is_spawn_due(game_loop_duration) ==> ret.time_elapsed_since_spawn == 0 && exists|
                asteroid: Asteroid,
            | #[trigger]
                is_spawned_asteroid(asteroid, old(self).dimensions) && ret.entity_controller@ == old(
                    self,
                ).entity_controller@.insert(asteroid.drawable.uuid, asteroid),
            *final(self) == *final(ret),
    {
        if self.advance_spawn_timer(game_loop_duration) {
            let location = get_asteroid_spawn_location(&self.dimensions);
            let velocity = get_asteroid_velocity();
            let ghost before = self.entity_controller@;
            self.spawn_asteroid(location, velocity);
            proof {
                let asteroid = choose|asteroid: Asteroid| #[trigger]
                    is_new_asteroid(asteroid, location, velocity) && self.entity_controller@
                        == before.insert(asteroid.drawable.uuid, asteroid);
                assert(is_spawned_asteroid(asteroid, self.dimensions));
            }
        }
        self
    }

    /// The state of every asteroid, in no particular order.
    pub fn get_all_drawable_states(&self) -> (states: Vec<&DrawableState>)
        ensures
            exists|keys: Seq<Identity>|
                super::entity_controller::lists_states_of(states@, self.entity_controller@, keys),
    {
        self.entity_controller.get_all_drawable_states()
    }

    /// Applies damage to the asteroid under `uuid`; an asteroid that is left
    /// without health is removed. An identity that is not here is passed over.
    pub fn apply_asteroid_damage(&mut self, uuid: Identity, damage: u32) -> (ret: &mut Self)
        ensures
            ret.time_elapsed_since_spawn == old(self).time_elapsed_since_spawn,
            ret.spawn_rate == old(self).spawn_rate,
            ret.dimensions == old(self).dimensions,
            !old(self).entity_controller@.contains_key(uuid) ==> ret.entity_controller@ == old(
                self,
            ).entity_controller@,
            old(self).entity_controller@.contains_key(uuid) ==> ret.entity_controller@
                == asteroids_after_damage(old(self).entity_controller@, uuid, damage),
            *final(self) == *final(ret),
    {
        self.entity_controller.apply_entity_damage(uuid, damage);
        self
    }
}

/// Whether `asteroid` is a new asteroid as the spawner makes them for an
/// arena of the given dimensions.
pub open spec fn is_spawned_asteroid(asteroid: Asteroid, dimensions: Point) -> bool {
    &&& is_new_asteroid(asteroid, asteroid.drawable.location, asteroid.drawable.velocity)
    &&& is_spawn_location(dimensions, asteroid.drawable.location)
    &&& is_spawn_velocity(asteroid.drawable.velocity)
}

/// The asteroids after the one under `uuid` has taken `damage`: it is gone
/// where that left it without health, and weaker otherwise.
pub open spec fn asteroids_after_damage(
    asteroids: Map<Identity, Asteroid>,
    uuid: Identity,
    damage: u32,
) -> Map<Identity, Asteroid> {
    let hit = crate::components::health::Health::damaged(asteroids[uuid], damage);
    if hit.health == 0 {
        asteroids.remove(uuid)
    } else {
        asteroids.insert(uuid, hit)
    }
}

} // verus!
