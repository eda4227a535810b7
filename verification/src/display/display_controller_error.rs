use vstd::prelude::*;

verus! {

/// `std::fmt::Error`, the error that formatting a text can end in. It is
/// carried as it is; nothing is said of what is in it.
#[verifier::external_type_specification]
#[verifier::external_body]
pub struct ExFmtError(std::fmt::Error);

/// `std::io::Error`, the error that writing to the terminal can end in. It
/// is taken in and dropped; nothing is said of what is in it.
#[verifier::external_type_specification]
#[verifier::external_body]
pub struct ExIoError(std::io::Error);

/// What can go wrong while composing or showing a frame.
#[derive(Debug, Clone, Copy)]
pub enum DisplayControllerError {
    DisplayTooSmallForDimensions,
    PositionOutOfRange,
    CrossTermWriteError,
    CasteError(std::fmt::Error),
    Shutdown,
}

impl DisplayControllerError {
    /// What an error of the terminal becomes: whatever it was, the write to
    /// the terminal has failed.
    pub fn from_crossterm_error(error: std::io::Error) -> (result: Self)
        ensures
            result is CrossTermWriteError,
    {
        Self::CrossTermWriteError
    }
}

impl vstd::std_specs::convert::FromSpecImpl<std::io::Error> for DisplayControllerError {
    open spec fn obeys_from_spec() -> bool {
        true
    }

    open spec fn from_spec(error: std::io::Error) -> DisplayControllerError {
        DisplayControllerError::CrossTermWriteError
    }
}

impl From<std::io::Error> for DisplayControllerError {
    fn from(error: std::io::Error) -> (result: Self) {
        Self::CrossTermWriteError
    }
}

impl vstd::std_specs::convert::FromSpecImpl<std::fmt::Error> for DisplayControllerError {
    open spec fn obeys_from_spec() -> bool {
        true
    }

    open spec fn from_spec(error: std::fmt::Error) -> DisplayControllerError {
        DisplayControllerError::CasteError(error)
    }
}

impl From<std::fmt::Error> for DisplayControllerError {
    fn from(error: std::fmt::Error) -> (result: Self) {
        Self::CasteError(error)
    }
}

} // verus!
