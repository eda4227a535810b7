use super::consts::{BASIC_BULLET, SPREAD_BULLET};
use crate::components::drawable::{Drawable, DrawableState, DrawableType};
use crate::components::health::{get_updated_health, updated_health, Health};
use crate::display::element::Color;
use crate::display::layout::{ascii_cells, Layout};
use crate::display::point::Point;
use vstd::prelude::*;

verus! {

/// What the player fires.
pub struct Bullet {
    pub drawable: DrawableState,
    pub health: u32,
}

pub const BULLET_DAMAGE: u32 = 1;

/// How fast a bullet flies: twenty cells per second, upwards.
pub open spec fn bullet_velocity() -> Point {
    Point { width: 0, height: (-20) as i64 }
}

/// Whether `bullet` is a new basic bullet at `location`.
pub open spec fn is_basic_bullet(bullet: Bullet, location: Point) -> bool {
    &&& bullet.health == 1
    &&& bullet.drawable.location == location
    &&& bullet.drawable.velocity == bullet_velocity()
    &&& bullet.drawable.drawable_type == DrawableType::Ammunition(BULLET_DAMAGE)
    &&& bullet.drawable.layout.grid() == ascii_cells(BASIC_BULLET@, Color::White)
}

/// Whether `bullet` is a new spread bullet at `location`.
pub open spec fn is_spread_bullet(bullet: Bullet, location: Point) -> bool {
    &&& bullet.health == 5
    &&& bullet.drawable.location == location
    &&& bullet.drawable.velocity == bullet_velocity()
    &&& bullet.drawable.drawable_type == DrawableType::Ammunition(BULLET_DAMAGE)
    &&& bullet.drawable.layout.grid() == ascii_cells(SPREAD_BULLET@, Color::White)
}

impl Bullet {
    pub fn build_basic_bullet(location: Point) -> (bullet: Self)
        ensures
            is_basic_bullet(bullet, location),
    {
        let map = Layout::from_ascii(BASIC_BULLET, Color::White);
        let velocity = Point { height: -20, width: 0 };
        Self {
            drawable: DrawableState::new(
                map,
                location,
                DrawableType::Ammunition(BULLET_DAMAGE),
                Some(velocity),
            ),
            health: 1,
        }
    }

    pub fn build_spread_bullet(location: Point) -> (bullet: Self)
        ensures
            is_spread_bullet(bullet, location),
    {
        let map = Layout::from_ascii(SPREAD_BULLET, Color::White);
        let velocity = Point { height: -20, width: 0 };
        Self {
            drawable: DrawableState::new(
                map,
                location,
                DrawableType::Ammunition(BULLET_DAMAGE),
                Some(velocity),
            ),
            health: 5,
        }
    }
}

impl Drawable for Bullet {
    open spec fn drawable_state(&self) -> DrawableState {
        self.drawable
    }

    open spec fn with_position(self, position: Point) -> Self {
        Bullet { drawable: DrawableState { location: position, ..self.drawable }, ..self }
    }

    fn set_position(&mut self, updated_position: Point) -> (ret: &mut Self) {
        self.drawable.location = updated_position;
        self
    }

    fn get_drawable_state(&self) -> (state: &DrawableState) {
        &self.drawable
    }
}

impl Health for Bullet {
    open spec fn health(&self) -> u32 {
        self.health
    }

    open spec fn damaged(self, damage: u32) -> Self {
        Bullet { health: updated_health(self.health, damage), ..self }
    }

    fn apply_damage(&mut self, damage: u32) -> (ret: &mut Self) {
        self.health = get_updated_health(self.health, damage);
        self
    }

    fn get_health(&self) -> (health: u32) {
        self.health
    }
}

} // verus!
