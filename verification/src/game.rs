//! The state of a game and what happens in one frame of it.

pub mod app;
pub mod app_errors;
pub mod app_manager;
pub mod game_state;

pub use app::{App, InitialGameState, HUD_HEIGHT};
pub use app_errors::{AppError, AppResult};
pub use app_manager::{
    check_screen_width, draw_game_over, get_game_over_choice, initial_game_state, GameOverChoice,
    GAME_LOOP_DELAY,
};
pub use game_state::{GameState, ASTEROID_DESTROYED_POINTS};
