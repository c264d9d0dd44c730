//! What a match can be in, and why a move can be turned down.
use crate::player::Player;
use vstd::prelude::*;

verus! {

/// Possible errors returned by `Game::set`.
#[derive(Debug, Clone, Copy, PartialEq, Eq, Structural)]
pub enum SetError {
    /// One of the coordinates of `position` was not below
    /// the `board_size` of the given game board.
    OutOfBounds,
    /// The desired position was already set in a previous
    /// turn.
    Occupied,
    /// The length of the `position` slice is not equal to
    /// the number of dimensions.
    InvalidDimension,
    /// The given player has placed a piece in the previous turn,
    /// expected the other player.
    WrongPlayer,
    /// The game is already terminated, no more pieces can be played.
    GameFinished,
}

/// The current state of a game.
#[derive(Debug, Clone, Copy, PartialEq, Eq, Structural)]
pub enum GameState {
    /// The game is not over yet.
    Ongoing,
    /// The game was won by the given player.
    Victory(Player),
    /// All spaces are occupied without
    /// any player winning.
    Draw,
}

} // verus!
