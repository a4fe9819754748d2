//! The closed set of failure kinds used across the crate.

use vstd::prelude::*;

verus! {

/// Everything that can go wrong in the game.
///
/// `CellOccupied` and `GameEnded` are expected, data-driven rejections of a
/// placement; they leave the board unchanged. `Exit` is a sentinel that
/// unwinds the event loop for a clean shutdown. `IO` carries the text of a
/// terminal failure, and `Msg` a user-facing message (e.g. from argument
/// validation).
#[derive(Debug, PartialEq, Eq, Clone)]
pub enum Error {
    IO(String),
    CellOccupied,
    GameEnded,
    Exit,
    Msg(String),
}

impl Error {
    /// A user-facing description of the error.
    pub fn message(&self) -> (r: String)
        ensures
            r@ == self.spec_message(),
    {
        match self {
            Error::IO(e) => e.clone(),
            Error::CellOccupied => "Not empty cell".to_owned(),
            Error::GameEnded => "game ended".to_owned(),
            Error::Exit => "exit".to_owned(),
            Error::Msg(msg) => msg.clone(),
        }
    }

    /// What `message` returns.
    pub open spec fn spec_message(&self) -> Seq<char> {
        match self {
            Error::IO(e) => e@,
            Error::CellOccupied => "Not empty cell"@,
            Error::GameEnded => "game ended"@,
            Error::Exit => "exit"@,
            Error::Msg(msg) => msg@,
        }
    }
}

} // verus!
