use super::consts::ASTEROID;
use crate::components::drawable::{Drawable, DrawableState, DrawableType};
use crate::components::health::{get_updated_health, updated_health, Health};
use crate::display::element::Color;
use crate::display::layout::{ascii_cells, Layout};
use crate::display::point::Point;
use vstd::prelude::*;

verus! {

pub const ASTEROID_DAMAGE: u32 = 1;

/// An obstacle that drifts through the arena.
pub struct Asteroid {
    pub drawable: DrawableState,
    pub health: u32,
}

/// Whether `asteroid` is a new asteroid at `location` that moves with
/// `velocity`.
pub open spec fn is_new_asteroid(asteroid: Asteroid, location: Point, velocity: Point) -> bool {
    &&& asteroid.health == 1
    &&& asteroid.drawable.location == location
    &&& asteroid.drawable.velocity == velocity
    &&& asteroid.drawable.drawable_type == DrawableType::Enemy(ASTEROID_DAMAGE)
    &&& asteroid.drawable.layout.grid() == ascii_cells(ASTEROID@, Color::Yellow)
}

impl Asteroid {
    pub fn new(location: Point, velocity: Point) -> (asteroid: Self)
        ensures
            is_new_asteroid(asteroid, location, velocity),
    {
        let map = Layout::from_ascii(ASTEROID, Color::Yellow);
        Self {
            drawable: DrawableState::new(
                map,
                location,
                DrawableType::Enemy(ASTEROID_DAMAGE),
                Some(velocity),
            ),
            health: 1,
        }
    }
}

impl Drawable for Asteroid {
    open spec fn drawable_state(&self) -> DrawableState {
        self.drawable
    }

    open spec fn with_position(self, position: Point) -> Self {
        Asteroid { drawable: DrawableState { location: position, ..self.drawable }, ..self }
    }

    fn set_position(&mut self, updated_position: Point) -> (ret: &mut Self) {
        self.drawable.location = updated_position;
        self
    }

    fn get_drawable_state(&self) -> (state: &DrawableState) {
        &self.drawable
    }
}

impl Health for Asteroid {
    open spec fn health(&self) -> u32 {
        self.health
    }

    open spec fn damaged(self, damage: u32) -> Self {
        Asteroid { health: updated_health(self.health, damage), ..self }
    }

    fn apply_damage(&mut self, damage: u32) -> (ret: &mut Self) {
        self.health = get_updated_health(self.health, damage);
        self
    }

    fn get_health(&self) -> (health: u32) {
        self.health
    }
}

} // verus!
