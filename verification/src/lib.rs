//! An engine for tic-tac-toe on a board of any number of dimensions.
//!
//! Two players, `X` first, take turns to mark a cell of a hypercubic board.
//! The player who first owns every cell of a line, along an axis or along a
//! diagonal of any number of axes, wins; if the board fills up before that,
//! the match is drawn.
//!
//! [`Game`] is the match as it is played. What it does is stated on
//! [`GameView`], the match as the rules see it; `laws` proves what follows
//! from the rules for every match.
pub mod direction;
pub mod game;
pub mod grid;
pub mod laws;
pub mod line;
pub mod outcome;
pub mod player;
pub mod rules;

pub use game::Game;
pub use outcome::{GameState, SetError};
pub use player::Player;
pub use rules::GameView;
