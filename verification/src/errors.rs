//! Recoverable errors reported by game and lobby operations.

use vstd::prelude::*;

verus! {

/// The kinds of recoverable failures a game or lobby operation can report.
#[derive(Clone, Copy, PartialEq, Eq, Structural, Debug)]
pub enum AppErrorType {
    /// A command was attempted while the match was not in progress.
    GameStateError,
    /// A third join was attempted on a match that already has two players.
    NumberOfPlayersError,
    /// An identifier was referenced that is absent from the player map.
    PlayerNotFoundError,
}

/// A recoverable failure: a text destined for clients, and its kind.
#[derive(Debug)]
pub struct AppError {
    pub message: String,
    pub error_type: AppErrorType,
}

impl AppError {
    /// An error of kind `error_type` carrying `message`.
    pub fn new(error_type: AppErrorType, message: &str) -> (e: AppError)
        ensures
            e.error_type == error_type,
            e.message@ == message@,
    {
        AppError { message: message.to_owned(), error_type }
    }
}

} // verus!
