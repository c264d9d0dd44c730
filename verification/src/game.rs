//! A match as it is played: the stored board and the moves on it.
use crate::grid::{
    cell_count, coords, flat_index, in_board, lemma_flat_index_bound,
    lemma_flat_index_injective, lemma_flat_index_next, lemma_pow_step, within_side,
};
use crate::laws::{law_fresh_match, law_set_keeps_match_valid};
use crate::direction::{
    choice_count, direction_code, is_direction, lemma_direction_code_injective,
    lemma_direction_code_range, next_direction, AxisRole,
};
use crate::line::{line_cell, owns_line};
use crate::outcome::{GameState, SetError};
use crate::player::Player;
use crate::rules::GameView;
use core::ops::Not;
use vstd::arithmetic::power::{lemma1_pow, lemma_pow0, lemma_pow_increases};
use vstd::prelude::*;
use vstd::slice::slice_to_vec;

verus! {

/// A game of *tic-tac-toe* with a given dimension and board size.
#[derive(Debug, Clone, PartialEq, Eq)]
pub struct Game {
    dimensions: usize,
    board_size: usize,
    states: Vec<Option<Player>>,
    turns: usize,
    active_player: Player,
    game_state: GameState,
}

impl View for Game {
    type V = GameView;

    /// The match that the rules speak of: each cell's mark is the one stored
    /// at the cell's index.
    closed spec fn view(&self) -> GameView {
        GameView {
            dimensions: self.dimensions as nat,
            board_size: self.board_size as nat,
            marks: Map::new(
                |cell: Seq<int>| in_board(cell, self.dimensions as nat, self.board_size as nat),
                |cell: Seq<int>| self.states@[flat_index(cell, self.board_size as nat)],
            ),
            turns: self.turns as nat,
            active_player: self.active_player,
            game_state: self.game_state,
        }
    }
}

impl Game {
    /// Whether the board is stored with one entry for each of its cells.
    pub closed spec fn stored(&self) -> bool {
        &&& self.dimensions >= 1
        &&& self.board_size >= 1
        &&& self.states@.len() == cell_count(self.dimensions as nat, self.board_size as nat)
    }

    /// Whether this is a match that was played by the rules.
    pub open spec fn wf(&self) -> bool {
        self.stored() && self@.inv()
    }

    /// Creates a new game of *tic-tac-toe* with `dimensions` axes of
    /// `board_size` cells each. The board must have a number of cells that
    /// `usize` can hold.
    pub fn new(dimensions: usize, board_size: usize) -> (game: Game)
        requires
            dimensions >= 1,
            board_size >= 1,
            cell_count(dimensions as nat, board_size as nat) <= usize::MAX,
        ensures
            game.wf(),
            game@ == GameView::fresh(dimensions as nat, board_size as nat),
    {
        let state_count = count_cells(dimensions, board_size);
        let mut states: Vec<Option<Player>> = Vec::new();
        while states.len() < state_count
            invariant
                states@.len() <= state_count,
                forall|i: int| 0 <= i < states@.len() ==> states@[i] is None,
            decreases state_count - states@.len(),
        {
            states.push(None);
        }
        let game = Game {
            dimensions,
            board_size,
            states,
            turns: 0,
            active_player: Player::X,
            game_state: GameState::Ongoing,
        };
        proof {
            let fresh = GameView::fresh(dimensions as nat, board_size as nat);
            assert forall|cell: Seq<int>|
                in_board(cell, dimensions as nat, board_size as nat) implies game@.marks[cell]
                == fresh.marks[cell] by {
                lemma_flat_index_bound(cell, board_size as nat);
            }
            assert(game@.marks =~= fresh.marks);
            law_fresh_match(dimensions as nat, board_size as nat);
        }
        game
    }

    /// Returns the current state of the game.
    pub fn game_state(&self) -> (state: GameState)
        ensures
            state == self@.game_state,
    {
        self.game_state
    }

    /// Returns how many pieces were already placed
    /// on the board.
    pub fn turns(&self) -> (turns: usize)
        ensures
            turns == self@.turns,
    {
        self.turns
    }

    /// Returns the player which may set the next piece on the board.
    ///
    /// Once the game is over this is the player who did not place the last
    /// piece, which callers should not rely on.
    pub fn active_player(&self) -> (player: Player)
        ensures
            player == self@.active_player,
    {
        self.active_player
    }

    /// Puts a piece of `player` at the given `position`.
    ///
    /// The move is turned down, and the game left as it was, for the first of
    /// these reasons that applies: the game is over, it is not `player`'s turn,
    /// `position` has not one coordinate for each dimension, a coordinate is
    /// not below the board size, the cell is taken. Otherwise the piece is
    /// placed, the turn passes to the other player, and the state that the
    /// game is in now is returned.
    pub fn set(&mut self, player: Player, position: &[usize]) -> (result: Result<
        GameState,
        SetError,
    >)
        requires
            old(self).wf(),
        ensures
            final(self).wf(),
            final(self)@ == old(self)@.set(player, coords(position@)),
            result == old(self)@.set_result(player, coords(position@)),
            result is Err ==> *final(self) == *old(self),
    {
        if self.game_state != GameState::Ongoing {
            return Err(SetError::GameFinished);
        }
        if player != self.active_player {
            return Err(SetError::WrongPlayer);
        }
        if position.len() != self.dimensions {
            return Err(SetError::InvalidDimension);
        }
        if !all_below(position, self.board_size) {
            return Err(SetError::OutOfBounds);
        }
        let idx = self.idx(position);
        if self.states[idx].is_some() {
            return Err(SetError::Occupied);
        }
        let ghost cell = coords(position@);
        let ghost side = self.board_size as nat;
        assert(self.turns < self.states.len());

        self.states[idx] = Some(player);
        self.turns += 1;
        proof {
            let marked = old(self)@.marked(player, cell);
            assert forall|other: Seq<int>|
                in_board(other, self.dimensions as nat, side) implies self@.marks[other]
                == marked.marks[other] by {
                lemma_flat_index_bound(other, side);
                if flat_index(other, side) == flat_index(cell, side) {
                    lemma_flat_index_injective(other, cell, side);
                }
            }
            assert(self@.marks =~= marked.marks);
            assert(self@ == GameView { game_state: self.game_state, ..marked });
        }
        self.game_state = self.calculate_state(player, position);
        self.active_player = player.not();
        proof {
            law_set_keeps_match_valid(old(self)@, player, cell);
        }
        Ok(self.game_state)
    }

    /// The mark on the cell at `position`.
    fn at(&self, position: &[usize]) -> (mark: Option<Player>)
        requires
            self.stored(),
            in_board(coords(position@), self@.dimensions, self@.board_size),
        ensures
            mark == self@.marks[coords(position@)],
    {
        self.states[self.idx(position)]
    }

    /// The index at which the cell at `position` is stored.
    fn idx(&self, position: &[usize]) -> (index: usize)
        requires
            self.stored(),
            in_board(coords(position@), self@.dimensions, self@.board_size),
        ensures
            index == flat_index(coords(position@), self@.board_size),
            index < self.states@.len(),
    {
        let ghost cell = coords(position@);
        let ghost side = self.board_size as nat;
        let mut index: usize = 0;
        let mut weight: usize = 1;
        let mut axis: usize = 0;
        proof {
            lemma_pow0(side as int);
            assert(cell.take(0) =~= Seq::<int>::empty());
        }
        while axis < position.len()
            invariant
                self.stored(),
                side == self.board_size,
                cell == coords(position@),
                in_board(cell, self.dimensions as nat, side),
                axis <= position@.len(),
                weight == cell_count(axis as nat, side),
                index == flat_index(cell.take(axis as int), side),
                index < weight,
            decreases position@.len() - axis,
        {
            proof {
                let digit = cell[axis as int];
                let next = cell.take(axis + 1);
                assert(digit == position@[axis as int]);
                assert(within_side(next, side));
                lemma_flat_index_next(cell, side, axis as int);
                lemma_flat_index_bound(next, side);
                lemma_pow_step(side as int, axis as nat);
                lemma_pow_increases(side, (axis + 1) as nat, self.dimensions as nat);
                assert(0 <= digit * weight) by (nonlinear_arith)
                    requires
                        0 <= digit,
                        0 <= weight,
                ;
                assert(self.states@.len() == self.states.len());
            }
            index = index + position[axis] * weight;
            weight = self.board_size * weight;
            axis += 1;
        }
        proof {
            assert(cell.take(axis as int) =~= cell);
        }
        index
    }

    /// Whether `player` has a mark on every cell of the line that the axes,
    /// in the given roles, lay out from `position`.
    fn owns(&self, roles: &Vec<AxisRole>, player: Player, position: &[usize]) -> (owned: bool)
        requires
            self.stored(),
            roles@.len() == self@.dimensions,
            in_board(coords(position@), self@.dimensions, self@.board_size),
        ensures
            owned == owns_line(
                self@.marks,
                roles@,
                coords(position@),
                self@.board_size,
                player,
            ),
    {
        let ghost seed = coords(position@);
        let ghost side = self.board_size as nat;
        let mut pos = slice_to_vec(position);
        let mut i: usize = 0;
        while i < self.board_size
            invariant
                self.stored(),
                side == self.board_size,
                seed == coords(position@),
                roles@.len() == self.dimensions,
                in_board(seed, self.dimensions as nat, side),
                pos@.len() == position@.len(),
                i <= self.board_size,
                forall|step: int|
                    0 <= step < i ==> self@.marks[#[trigger] line_cell(roles@, seed, side, step)]
                        == Some(player),
            decreases self.board_size - i,
        {
            let mut axis: usize = 0;
            while axis < pos.len()
                invariant
                    side == self.board_size,
                    seed == coords(position@),
                    roles@.len() == self.dimensions,
                    in_board(seed, self.dimensions as nat, side),
                    pos@.len() == position@.len(),
                    i < self.board_size,
                    axis <= pos@.len(),
                    forall|k: int|
                        0 <= k < axis ==> pos@[k] == line_cell(roles@, seed, side, i as int)[k],
                decreases pos@.len() - axis,
            {
                pos[axis] = match roles[axis] {
                    AxisRole::Pinned => position[axis],
                    AxisRole::Forward => i,
                    AxisRole::Mirrored => self.board_size - 1 - i,
                };
                axis += 1;
            }
            proof {
                assert(coords(pos@) =~= line_cell(roles@, seed, side, i as int));
            }
            match self.at(pos.as_slice()) {
                Some(owner) => {
                    if owner != player {
                        return false;
                    }
                },
                None => {
                    return false;
                },
            }
            i += 1;
        }
        true
    }

    /// The state that the piece `player` has just placed at `position` leaves
    /// the game in. The directions are tried in turn from `position`, and the
    /// first line that is all `player`'s decides; the rest of the board is
    /// not looked at.
    fn calculate_state(&self, player: Player, position: &[usize]) -> (state: GameState)
        requires
            self.stored(),
            in_board(coords(position@), self@.dimensions, self@.board_size),
        ensures
            state == self@.judge(player, coords(position@)),
    {
        let ghost seed = coords(position@);
        let ghost dims = self.dimensions as nat;
        let ghost side = self.board_size as nat;
        let mut roles: Vec<AxisRole> = Vec::new();
        while roles.len() < self.dimensions
            invariant
                roles@.len() <= self.dimensions,
                forall|k: int| 0 <= k < roles@.len() ==> roles@[k] == AxisRole::Pinned,
            decreases self.dimensions - roles@.len(),
        {
            roles.push(AxisRole::Pinned);
        }
        let ghost pinned = roles@;
        let mut more = next_direction(&mut roles);
        proof {
            lemma_direction_code_range(pinned);
            assert(!is_direction(pinned, dims));
            assert forall|other: Seq<AxisRole>|
                is_direction(other, dims) && (more ==> direction_code(other) < direction_code(
                    roles@,
                )) implies !#[trigger] owns_line(self@.marks, other, seed, side, player) by {
                lemma_direction_code_range(other);
            }
        }
        while more
            invariant
                self.stored(),
                dims == self.dimensions,
                side == self.board_size,
                seed == coords(position@),
                in_board(seed, dims, side),
                roles@.len() == dims,
                more ==> direction_code(roles@) > 0,
                forall|other: Seq<AxisRole>|
                    is_direction(other, dims) && (more ==> direction_code(other) < direction_code(
                        roles@,
                    )) ==> !#[trigger] owns_line(self@.marks, other, seed, side, player),
            decreases
                    (if more {
                        choice_count(dims) - direction_code(roles@)
                    } else {
                        0
                    }),
        {
            proof {
                lemma_direction_code_range(roles@);
            }
            if self.owns(&roles, player, position) {
                assert(is_direction(roles@, dims));
                return GameState::Victory(player);
            }
            let ghost tried = roles@;
            more = next_direction(&mut roles);
            proof {
                assert forall|other: Seq<AxisRole>|
                    is_direction(other, dims) && (more ==> direction_code(other) < direction_code(
                        roles@,
                    )) implies !#[trigger] owns_line(self@.marks, other, seed, side, player) by {
                    lemma_direction_code_range(other);
                    if direction_code(other) == direction_code(tried) {
                        lemma_direction_code_injective(other, tried);
                    }
                }
            }
        }
        if self.turns == self.states.len() {
            GameState::Draw
        } else {
            GameState::Ongoing
        }
    }
}

/// The number of cells of a board: `board_size` to the power of `dimensions`.
fn count_cells(dimensions: usize, board_size: usize) -> (count: usize)
    requires
        board_size >= 1,
        cell_count(dimensions as nat, board_size as nat) <= usize::MAX,
    ensures
        count == cell_count(dimensions as nat, board_size as nat),
{
    if board_size == 1 {
        proof {
            lemma1_pow(dimensions as nat);
        }
        return 1;
    }
    let mut count: usize = 1;
    let mut axis: usize = 0;
    proof {
        lemma_pow0(board_size as int);
    }
    while axis < dimensions
        invariant
            axis <= dimensions,
            board_size >= 1,
            count == cell_count(axis as nat, board_size as nat),
            cell_count(dimensions as nat, board_size as nat) <= usize::MAX,
        decreases dimensions - axis,
    {
        proof {
            lemma_pow_step(board_size as int, axis as nat);
            lemma_pow_increases(board_size as nat, (axis + 1) as nat, dimensions as nat);
        }
        count = board_size * count;
        axis += 1;
    }
    count
}

/// Whether every coordinate of `position` lies below `bound`.
fn all_below(position: &[usize], bound: usize) -> (all: bool)
    ensures
        all == within_side(coords(position@), bound as nat),
{
    let mut axis: usize = 0;
    while axis < position.len()
        invariant
            axis <= position@.len(),
            forall|k: int| 0 <= k < axis ==> #[trigger] coords(position@)[k] < bound,
        decreases position@.len() - axis,
    {
        if position[axis] >= bound {
            assert(!(coords(position@)[axis as int] < bound));
            return false;
        }
        axis += 1;
    }
    true
}

} // verus!
