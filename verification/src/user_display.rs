//! The drawings in text that the heads-up display is made of.

pub mod consts;

pub use consts::{number_art, GAME_OVER_TEXT, HEART, NUMBER_VECTOR, X};
