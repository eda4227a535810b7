//! Simulation core of a terminal arcade shooter: grid geometry, entity state,
//! the time-scaled movement model, the entity lifecycle container, collision
//! detection with damage resolution, the obstacle spawner, and the frame that
//! ties them together.

pub mod components;
pub mod display;
pub mod entities;
pub mod game;
pub mod helpers;
pub mod systems;
pub mod user_display;
