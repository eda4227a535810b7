use crate::display::display_controller_error::DisplayControllerError;
use vstd::prelude::*;

verus! {

/// What can stop the game.
#[derive(Debug)]
pub enum AppError {
    DisplayControllerError(DisplayControllerError),
    /// The screen is this wide, but must be at least that wide.
    ScreenWidthTooSmall(u64, u64),
}

impl vstd::std_specs::convert::FromSpecImpl<DisplayControllerError> for AppError {
    open spec fn obeys_from_spec() -> bool {
        true
    }

    open spec fn from_spec(error: DisplayControllerError) -> AppError {
        AppError::DisplayControllerError(error)
    }
}

impl From<DisplayControllerError> for AppError {
    fn from(error: DisplayControllerError) -> (app_error: Self) {
        Self::DisplayControllerError(error)
    }
}

impl vstd::std_specs::convert::FromSpecImpl<std::io::Error> for AppError {
    open spec fn obeys_from_spec() -> bool {
        true
    }

    open spec fn from_spec(error: std::io::Error) -> AppError {
        AppError::DisplayControllerError(DisplayControllerError::CrossTermWriteError)
    }
}

impl From<std::io::Error> for AppError {
    fn from(error: std::io::Error) -> (app_error: Self) {
        Self::DisplayControllerError(DisplayControllerError::CrossTermWriteError)
    }
}

pub type AppResult<T> = Result<T, AppError>;

} // verus!
