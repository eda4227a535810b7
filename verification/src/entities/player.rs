use super::bullet::{is_basic_bullet, is_spread_bullet, Bullet};
use super::consts::SPACE_SHIP;
use super::controller::{Controller, Key};
use crate::components::drawable::{Drawable, DrawableState, DrawableType};
use crate::components::health::{get_updated_health, updated_health, Health};
use crate::display::element::Color;
use crate::display::layout::{ascii_cells, Layout};
use crate::display::point::{fits_i64, truncated_div, Point};
use crate::systems::entity_controller::EntityController;
use vstd::prelude::*;

verus! {

/// The ship that the user steers, with the bullets it has fired.
pub struct Player {
    pub drawable: DrawableState,
    pub health: u32,
    pub bullet_entity_controller: EntityController<Bullet>,
}

pub const WIDTH_MAX_VELOCITY: i64 = 33;

pub const HEIGHT_MAX_VELOCITY: i64 = 20;

impl Player {
    /// The column at the middle of the ship, in the row of its top.
    pub open spec fn center_width(&self) -> int {
        self.drawable.location.width + truncated_div(self.drawable.layout.dimensions.width as int, 2)
    }

    /// This player with its velocity replaced.
    pub open spec fn with_velocity(self, velocity: Point) -> Self {
        Player { drawable: DrawableState { velocity, ..self.drawable }, ..self }
    }

    /// Where a basic bullet starts: one row below the middle of the ship's top.
    pub open spec fn basic_bullet_start(&self) -> Point {
        Point {
            width: self.center_width() as i64,
            height: (self.drawable.location.height + 1) as i64,
        }
    }

    /// Where a spread bullet starts: four columns left of the middle of the
    /// ship's top.
    pub open spec fn spread_bullet_start(&self) -> Point {
        Point { width: (self.center_width() - 4) as i64, height: self.drawable.location.height }
    }

    /// A player with one unit of health and no bullets, at the given position
    /// or else at column 5 of row 5.
    pub fn new(default_position: Option<Point>) -> (player: Self)
        ensures
            player.health == 1,
            player.drawable.location == (match default_position {
                Some(position) => position,
                None => Point { width: 5, height: 5 },
            }),
            player.drawable.velocity == (Point { width: 0, height: 0 }),
            player.drawable.drawable_type == DrawableType::Player,
            player.drawable.layout.grid() == ascii_cells(SPACE_SHIP@, Color::Cyan),
            player.bullet_entity_controller@ == Map::<u128, Bullet>::empty(),
    {
        let position = match default_position {
            Some(position) => position,
            None => Point { width: 5, height: 5 },
        };
        let layout = Layout::from_ascii(SPACE_SHIP, Color::Cyan);
        Self {
            drawable: DrawableState::new(layout, position, DrawableType::Player, None),
            health: 1,
            bullet_entity_controller: EntityController::new(),
        }
    }

    fn get_center_of_player(&self) -> (center: Point)
        requires
            fits_i64(self.center_width()),
        ensures
            center.width == self.center_width(),
            center.height == self.drawable.location.height,
    {
        self.drawable.location.add_width(self.drawable.layout.dimensions.width / 2)
    }
}

impl Drawable for Player {
    open spec fn drawable_state(&self) -> DrawableState {
        self.drawable
    }

    open spec fn with_position(self, position: Point) -> Self {
        Player { drawable: DrawableState { location: position, ..self.drawable }, ..self }
    }

    fn get_drawable_state(&self) -> (state: &DrawableState) {
        &self.drawable
    }

    fn set_position(&mut self, updated_position: Point) -> (ret: &mut Self) {
        self.drawable.location = updated_position;
        self
    }
}

impl Controller for Player {
    open spec fn moved_up(self) -> Self {
        self.with_velocity(Point { width: 0, height: (-HEIGHT_MAX_VELOCITY) as i64 })
    }

    open spec fn moved_down(self) -> Self {
        self.with_velocity(Point { width: 0, height: HEIGHT_MAX_VELOCITY })
    }

    open spec fn moved_left(self) -> Self {
        self.with_velocity(Point { width: (-WIDTH_MAX_VELOCITY) as i64, height: 0 })
    }

    open spec fn moved_right(self) -> Self {
        self.with_velocity(Point { width: WIDTH_MAX_VELOCITY, height: 0 })
    }

    /// The space bar and the enter key fire, so the place where the bullet
    /// starts must be representable.
    open spec fn can_handle_additional(&self, event: Key) -> bool {
        match event {
            Key::Char(' ') => fits_i64(self.center_width()) && fits_i64(
                self.drawable.location.height + 1,
            ),
            Key::Enter => fits_i64(self.center_width()) && fits_i64(self.center_width() - 4),
            _ => true,
        }
    }

    /// The space bar adds a basic bullet, the enter key a spread bullet, each
    /// under a fresh identity; no other key does anything.
    open spec fn handled_additional(self, event: Key, after: Self) -> bool {
        match event {
            Key::Char(' ') => {
                &&& after.drawable == self.drawable
                &&& after.health == self.health
                &&& exists|bullet: Bullet| #[trigger]
                    is_basic_bullet(bullet, self.basic_bullet_start())
                        && after.bullet_entity_controller@ == self.bullet_entity_controller@.insert(
                        bullet.drawable.uuid,
                        bullet,
                    )
            },
            Key::Enter => {
                &&& after.drawable == self.drawable
                &&& after.health == self.health
                &&& exists|bullet: Bullet| #[trigger]
                    is_spread_bullet(bullet, self.spread_bullet_start())
                        && after.bullet_entity_controller@ == self.bullet_entity_controller@.insert(
                        bullet.drawable.uuid,
                        bullet,
                    )
            },
            _ => after == self,
        }
    }

    fn up(&mut self) -> (ret: &mut Self) {
        self.drawable.velocity = Point::new(0, -HEIGHT_MAX_VELOCITY);
        self
    }

    fn down(&mut self) -> (ret: &mut Self) {
        self.drawable.velocity = Point::new(0, HEIGHT_MAX_VELOCITY);
        self
    }

    fn left(&mut self) -> (ret: &mut Self) {
        self.drawable.velocity = Point::new(-WIDTH_MAX_VELOCITY, 0);
        self
    }

    fn right(&mut self) -> (ret: &mut Self) {
        self.drawable.velocity = Point::new(WIDTH_MAX_VELOCITY, 0);
        self
    }

    fn additional_event_logic(&mut self, event: &Key) -> (ret: &mut Self) {
        match event {
            Key::Char(' ') => {
                let bullet = Bullet::build_basic_bullet(self.get_center_of_player().add_height(1));
                assert(is_basic_bullet(bullet, self.basic_bullet_start()));
                self.bullet_entity_controller.spawn_entity(bullet);
            },
            Key::Enter => {
                let bullet = Bullet::build_spread_bullet(self.get_center_of_player().sub_width(4));
                assert(is_spread_bullet(bullet, self.spread_bullet_start()));
                self.bullet_entity_controller.spawn_entity(bullet);
            },
            _ => {},
        }
        self
    }
}

impl Health for Player {
    open spec fn health(&self) -> u32 {
        self.health
    }

    open spec fn damaged(self, damage: u32) -> Self {
        Player { health: updated_health(self.health, damage), ..self }
    }

    fn apply_damage(&mut self, damage: u32) -> (ret: &mut Self) {
        self.health = get_updated_health(self.health, damage);
        self
    }

    fn get_health(&self) -> (health: u32) {
        self.health
    }
}

} // verus!
