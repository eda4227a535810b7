//! The things that the game simulates: the player, what it fires, what it
//! must avoid, and the border of the arena.

pub mod asteroid;
pub mod borders;
pub mod bullet;
pub mod consts;
pub mod controller;
pub mod player;

pub use asteroid::{Asteroid, ASTEROID_DAMAGE};
pub use borders::Borders;
pub use bullet::{Bullet, BULLET_DAMAGE};
pub use controller::{Controller, Key};
pub use player::Player;
