//! The rules of a match, stated on its mathematical state.
use crate::grid::{cell_count, in_board, within_side};
use crate::line::{has_line, wins_through, Marks};
use crate::outcome::{GameState, SetError};
use crate::player::Player;
use vstd::prelude::*;

verus! {

/// A match as the rules see it: the board by cell, and the bookkeeping.
#[verifier::ext_equal]
pub struct GameView {
    /// The number of axes of the board.
    pub dimensions: nat,
    /// The number of cells along each axis.
    pub board_size: nat,
    /// The mark on each cell of the board.
    pub marks: Marks,
    /// The number of marks placed so far.
    pub turns: nat,
    /// The player whose mark comes next.
    pub active_player: Player,
    /// Whether the match goes on, and how it ended if it does not.
    pub game_state: GameState,
}

impl GameView {
    /// The match before the first move.
    pub open spec fn fresh(dimensions: nat, board_size: nat) -> GameView {
        GameView {
            dimensions,
            board_size,
            marks: Map::new(
                |cell: Seq<int>| in_board(cell, dimensions, board_size),
                |cell: Seq<int>| None::<Player>,
            ),
            turns: 0,
            active_player: Player::X,
            game_state: GameState::Ongoing,
        }
    }

    /// The number of cells of the board.
    pub open spec fn capacity(self) -> int {
        cell_count(self.dimensions, self.board_size)
    }

    /// The cells that carry a mark.
    pub open spec fn occupied(self) -> Set<Seq<int>> {
        Set::new(
            |cell: Seq<int>|
                in_board(cell, self.dimensions, self.board_size) && self.marks[cell] is Some,
        )
    }

    /// The player who places the mark that follows `turns` marks.
    pub open spec fn player_of_turn(turns: nat) -> Player {
        if turns % 2 == 0 {
            Player::X
        } else {
            Player::O
        }
    }

    /// Why a mark of `player` on `cell` is turned down, if it is. The first
    /// reason that applies is given: the match is over, it is the other
    /// player's turn, the number of coordinates is wrong, a coordinate is off
    /// the board, the cell is taken.
    pub open spec fn refusal(self, player: Player, cell: Seq<int>) -> Option<SetError> {
        if self.game_state != GameState::Ongoing {
            Some(SetError::GameFinished)
        } else if player != self.active_player {
            Some(SetError::WrongPlayer)
        } else if cell.len() != self.dimensions {
            Some(SetError::InvalidDimension)
        } else if !within_side(cell, self.board_size) {
            Some(SetError::OutOfBounds)
        } else if self.marks[cell] is Some {
            Some(SetError::Occupied)
        } else {
            None
        }
    }

    /// The state of a match in which `player` has just marked `seed`: won by
    /// `player` if a line in some direction through `seed` is all theirs, drawn
    /// if not and the board is full, ongoing otherwise.
    pub open spec fn judge(self, player: Player, seed: Seq<int>) -> GameState {
        if wins_through(self.marks, self.dimensions, self.board_size, seed, player) {
            GameState::Victory(player)
        } else if self.turns == self.capacity() {
            GameState::Draw
        } else {
            GameState::Ongoing
        }
    }

    /// The match with one more mark, of `player` on `cell`, not yet judged.
    pub open spec fn marked(self, player: Player, cell: Seq<int>) -> GameView {
        GameView { marks: self.marks.insert(cell, Some(player)), turns: self.turns + 1, ..self }
    }

    /// The match after a move that was accepted.
    pub open spec fn moved(self, player: Player, cell: Seq<int>) -> GameView {
        let marked = self.marked(player, cell);
        GameView {
            active_player: player.other(),
            game_state: marked.judge(player, cell),
            ..marked
        }
    }

    /// The match after `player` asked for `cell`: unchanged if the move was turned down.
    pub open spec fn set(self, player: Player, cell: Seq<int>) -> GameView {
        if self.refusal(player, cell) is None {
            self.moved(player, cell)
        } else {
            self
        }
    }

    /// What `player` is told on asking for `cell`.
    pub open spec fn set_result(self, player: Player, cell: Seq<int>) -> Result<
        GameState,
        SetError,
    > {
        match self.refusal(player, cell) {
            Some(error) => Err(error),
            None => Ok(self.moved(player, cell).game_state),
        }
    }

    /// Whether neither player owns a line.
    pub open spec fn no_lines(self) -> bool {
        &&& !has_line(self.marks, self.dimensions, self.board_size, Player::X)
        &&& !has_line(self.marks, self.dimensions, self.board_size, Player::O)
    }

    /// What holds of every match that was played by the rules.
    pub open spec fn inv(self) -> bool {
        &&& self.dimensions >= 1
        &&& self.board_size >= 1
        &&& self.marks.dom() =~= Set::new(
            |cell: Seq<int>| in_board(cell, self.dimensions, self.board_size),
        )
        &&& self.occupied().finite()
        &&& self.occupied().len() == self.turns
        &&& self.turns <= self.capacity()
        &&& self.active_player == Self::player_of_turn(self.turns)
        &&& match self.game_state {
            GameState::Ongoing => self.turns < self.capacity() && self.no_lines(),
            GameState::Victory(winner) => {
                &&& winner != self.active_player
                &&& has_line(self.marks, self.dimensions, self.board_size, winner)
                &&& !has_line(self.marks, self.dimensions, self.board_size, winner.other())
            },
            GameState::Draw => self.turns == self.capacity() && self.no_lines(),
        }
    }
}

} // verus!
