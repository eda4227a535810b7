//! Capabilities that entities are built from.

pub mod drawable;
pub mod health;
pub mod spawnable;

pub use drawable::{
    get_rated_velocity, update_position_for_drawable_vec, Drawable, DrawableState, DrawableType,
    Identity,
};
pub use health::{get_updated_health, Health};
pub use spawnable::Spawnable;
