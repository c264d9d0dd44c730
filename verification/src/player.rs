//! The two players of a match.
use core::ops::Not;
use vstd::prelude::*;

verus! {

/// The two player symbols of *tic-tac-toe*.
#[derive(Debug, Clone, Copy, PartialEq, Eq, Structural)]
pub enum Player {
    /// The player which plays first.
    X,
    /// The second player symbol.
    O,
}

impl Player {
    /// The opponent of `self`.
    pub open spec fn other(self) -> Player {
        match self {
            Player::X => Player::O,
            Player::O => Player::X,
        }
    }
}

impl Not for Player {
    type Output = Player;

    /// Returns the opponent, so that `!player` is the player who moves next.
    fn not(self) -> (flipped: Player)
        ensures
            flipped == self.other(),
    {
        match self {
            Player::X => Player::O,
            Player::O => Player::X,
        }
    }
}

impl vstd::std_specs::ops::NotSpecImpl for Player {
    open spec fn obeys_not_spec() -> bool {
        true
    }

    open spec fn not_req(self) -> bool {
        true
    }

    open spec fn not_spec(self) -> Player {
        self.other()
    }
}

} // verus!
