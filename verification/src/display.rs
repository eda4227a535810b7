//! Grid geometry: points, cells and the rectangular layouts built from them,
//! and the composition of what is shown.

pub mod display_controller;
pub mod display_controller_error;
pub mod element;
pub mod layout;
pub mod point;

pub use display_controller::{
    DisplayController, DisplayControllerResult, GAME_DETAILS_BOX_WIDTH, MINIMUM_SCREEN_WIDTH,
};
pub use display_controller_error::DisplayControllerError;
pub use element::{
    parse_str_to_element_array, Color, Element, DEFAULT_BACKGROUND, DEFAULT_FOREGROUND,
};
pub use layout::{
    collapse_twoDVec, create_map, map_from_str, CellMap, Direction, Layout, LayoutResult, TwoDVec,
};
pub use point::Point;
