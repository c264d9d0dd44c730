//! What holds of every match, proved from the rules.
use crate::direction::{
    choice_count, digit_roles, directions, is_direction, role_digits, AxisRole,
};
use crate::grid::{cells, in_board, lemma_cells_count};
use crate::line::{
    has_line, lemma_line_cell_in_board, lemma_mark_gives_rival_no_line,
    lemma_new_line_passes_mark, line_cell, owns_line, wins_through,
};
use crate::outcome::{GameState, SetError};
use crate::player::Player;
use crate::rules::GameView;
use vstd::arithmetic::power::lemma_pow_positive;
use vstd::prelude::*;
use vstd::set_lib::{lemma_map_size, lemma_subset_equality};

verus! {

/// Each player is the other player's opponent, and nobody is their own.
pub proof fn law_other_player(player: Player)
    ensures
        player.other() != player,
        player.other().other() == player,
{
}

/// A match on any board with at least one axis and one cell per axis starts
/// valid: ongoing, with no mark placed, no cell taken, and `X` to move.
pub proof fn law_fresh_match(dimensions: nat, board_size: nat)
    requires
        dimensions >= 1,
        board_size >= 1,
    ensures
        GameView::fresh(dimensions, board_size).inv(),
        GameView::fresh(dimensions, board_size).game_state == GameState::Ongoing,
        GameView::fresh(dimensions, board_size).turns == 0,
        GameView::fresh(dimensions, board_size).active_player == Player::X,
        forall|cell: Seq<int>|
            in_board(cell, dimensions, board_size) ==> GameView::fresh(
                dimensions,
                board_size,
            ).marks[cell] is None,
{
    let fresh = GameView::fresh(dimensions, board_size);
    lemma_pow_positive(board_size as int, dimensions);
    assert(fresh.occupied() =~= Set::empty());
    lemma_no_mark_no_line(fresh, Player::X);
    lemma_no_mark_no_line(fresh, Player::O);
}

/// On a board without a mark nobody owns a line.
proof fn lemma_no_mark_no_line(game: GameView, player: Player)
    requires
        game.board_size >= 1,
        forall|cell: Seq<int>|
            in_board(cell, game.dimensions, game.board_size) ==> game.marks[cell] is None,
    ensures
        !has_line(game.marks, game.dimensions, game.board_size, player),
{
    if has_line(game.marks, game.dimensions, game.board_size, player) {
        let seed = choose|seed: Seq<int>|
            in_board(seed, game.dimensions, game.board_size) && #[trigger] wins_through(
                game.marks,
                game.dimensions,
                game.board_size,
                seed,
                player,
            );
        let roles = choose|roles: Seq<AxisRole>|
            is_direction(roles, game.dimensions) && #[trigger] owns_line(
                game.marks,
                roles,
                seed,
                game.board_size,
                player,
            );
        lemma_line_cell_in_board(roles, seed, game.dimensions, game.board_size, 0);
        assert(game.marks[line_cell(roles, seed, game.board_size, 0)] == Some(player));
    }
}

/// After an accepted move a line is owned, by anyone and anywhere on the
/// board, only if the player who moved owns one through the cell just marked:
/// to look through that cell alone misses nothing.
pub proof fn law_new_line_runs_through_last_mark(
    game: GameView,
    player: Player,
    cell: Seq<int>,
    owner: Player,
)
    requires
        game.inv(),
        game.refusal(player, cell) is None,
    ensures
        has_line(game.moved(player, cell).marks, game.dimensions, game.board_size, owner) <==> (
        owner == player && wins_through(
            game.moved(player, cell).marks,
            game.dimensions,
            game.board_size,
            cell,
            player,
        )),
{
    let marks = game.moved(player, cell).marks;
    if has_line(marks, game.dimensions, game.board_size, owner) {
        if owner == player {
            lemma_new_line_passes_mark(
                game.marks,
                game.dimensions,
                game.board_size,
                cell,
                player,
            );
        } else {
            lemma_mark_gives_rival_no_line(
                game.marks,
                game.dimensions,
                game.board_size,
                cell,
                player,
                owner,
            );
        }
    }
}

/// After an accepted move, a line that the player who moved owns from the
/// marked cell visits that cell: the move has completed it.
pub proof fn law_winning_line_visits_last_mark(
    game: GameView,
    player: Player,
    cell: Seq<int>,
    roles: Seq<AxisRole>,
)
    requires
        game.inv(),
        game.refusal(player, cell) is None,
        is_direction(roles, game.dimensions),
        owns_line(game.moved(player, cell).marks, roles, cell, game.board_size, player),
    ensures
        exists|step: int|
            0 <= step < game.board_size && #[trigger] line_cell(
                roles,
                cell,
                game.board_size,
                step,
            ) == cell,
{
    let side = game.board_size;
    let marks = game.moved(player, cell).marks;
    if forall|step: int| 0 <= step < side ==> #[trigger] line_cell(roles, cell, side, step) != cell {
        assert forall|step: int| 0 <= step < side implies game.marks[#[trigger] line_cell(
            roles,
            cell,
            side,
            step,
        )] == Some(player) by {
            assert(marks[line_cell(roles, cell, side, step)] == Some(player));
        }
        assert(owns_line(game.marks, roles, cell, side, player));
        assert(wins_through(game.marks, game.dimensions, side, cell, player));
        assert(has_line(game.marks, game.dimensions, side, player));
    }
}

/// Whatever is asked of a valid match, the match that results is valid.
pub proof fn law_set_keeps_match_valid(game: GameView, player: Player, cell: Seq<int>)
    requires
        game.inv(),
    ensures
        game.set(player, cell).inv(),
{
    if game.refusal(player, cell) is None {
        let next = game.moved(player, cell);
        assert(next.marks.dom() =~= game.marks.dom());
        assert(next.occupied() =~= game.occupied().insert(cell));
        law_new_line_runs_through_last_mark(game, player, cell, Player::X);
        law_new_line_runs_through_last_mark(game, player, cell, Player::O);
    }
}

/// A match that is over turns every move down with `GameFinished` and stays as it is.
pub proof fn law_finished_match_is_frozen(game: GameView, player: Player, cell: Seq<int>)
    requires
        game.game_state != GameState::Ongoing,
    ensures
        game.set_result(player, cell) == Err::<GameState, SetError>(SetError::GameFinished),
        game.set(player, cell) == game,
{
}

/// In an ongoing match, a move by the player whose turn it is not is turned
/// down with `WrongPlayer` and the match stays as it is.
pub proof fn law_out_of_turn_is_refused(game: GameView, player: Player, cell: Seq<int>)
    requires
        game.game_state == GameState::Ongoing,
        player != game.active_player,
    ensures
        game.set_result(player, cell) == Err::<GameState, SetError>(SetError::WrongPlayer),
        game.set(player, cell) == game,
{
}

/// In an ongoing match, a move by the active player with a number of
/// coordinates other than the board's dimensions is turned down with
/// `InvalidDimension`; with the right number, and one of them off the board,
/// with `OutOfBounds`. Either way the match stays as it is.
pub proof fn law_misplaced_move_is_refused(game: GameView, player: Player, cell: Seq<int>)
    requires
        game.game_state == GameState::Ongoing,
        player == game.active_player,
        !in_board(cell, game.dimensions, game.board_size),
    ensures
        cell.len() != game.dimensions ==> game.set_result(player, cell) == Err::<
            GameState,
            SetError,
        >(SetError::InvalidDimension),
        cell.len() == game.dimensions ==> game.set_result(player, cell) == Err::<
            GameState,
            SetError,
        >(SetError::OutOfBounds),
        game.set(player, cell) == game,
{
}

/// In an ongoing match, a move by the active player onto a cell that carries
/// a mark is turned down with `Occupied` and the match stays as it is.
pub proof fn law_occupied_cell_is_refused(game: GameView, player: Player, cell: Seq<int>)
    requires
        game.game_state == GameState::Ongoing,
        player == game.active_player,
        in_board(cell, game.dimensions, game.board_size),
        game.marks[cell] is Some,
    ensures
        game.set_result(player, cell) == Err::<GameState, SetError>(SetError::Occupied),
        game.set(player, cell) == game,
{
}

/// A move is accepted exactly when nothing speaks against it, and then the
/// cell carries the player's mark, every other cell is as before, and the
/// answer is the state the match is left in.
pub proof fn law_accepted_move_marks_one_cell(game: GameView, player: Player, cell: Seq<int>)
    ensures
        game.set_result(player, cell) is Ok <==> {
            &&& game.game_state == GameState::Ongoing
            &&& player == game.active_player
            &&& in_board(cell, game.dimensions, game.board_size)
            &&& game.marks[cell] is None
        },
        game.set_result(player, cell) is Ok ==> {
            &&& game.set(player, cell).marks[cell] == Some(player)
            &&& forall|other: Seq<int>|
                other != cell ==> game.set(player, cell).marks[other] == game.marks[other]
            &&& game.set_result(player, cell) == Ok::<GameState, SetError>(
                game.set(player, cell).game_state,
            )
        },
{
}

/// A mark, once placed, stays where it is whatever is asked of the match.
pub proof fn law_marks_stay(game: GameView, player: Player, cell: Seq<int>, marked: Seq<int>)
    requires
        game.marks[marked] is Some,
    ensures
        game.set(player, cell).marks[marked] == game.marks[marked],
{
}

/// Each accepted move adds one to the number of turns, which is the number of
/// marks on the board and never exceeds the number of cells.
pub proof fn law_turns_count_marks(game: GameView, player: Player, cell: Seq<int>)
    requires
        game.inv(),
    ensures
        game.turns == game.occupied().len(),
        game.turns <= game.capacity(),
        game.set_result(player, cell) is Ok ==> game.set(player, cell).turns == game.turns + 1,
        game.set_result(player, cell) is Err ==> game.set(player, cell).turns == game.turns,
        game.set(player, cell).turns <= game.capacity(),
{
    law_set_keeps_match_valid(game, player, cell);
}

/// The move that fills the board without completing a line through its cell
/// ends the match in a draw, and a match with a full board is never ongoing.
pub proof fn law_full_board_without_line_is_draw(game: GameView, player: Player, cell: Seq<int>)
    requires
        game.inv(),
    ensures
        game.turns == game.capacity() ==> game.game_state != GameState::Ongoing,
        game.set_result(player, cell) is Ok && game.turns + 1 == game.capacity() && !wins_through(
            game.set(player, cell).marks,
            game.dimensions,
            game.board_size,
            cell,
            player,
        ) ==> game.set_result(player, cell) == Ok::<GameState, SetError>(GameState::Draw)
            && game.set(player, cell).game_state == GameState::Draw,
{
}

/// The players take turns: `X` places the first mark and every mark after an
/// even number of marks, `O` the others; an accepted move is one by the active
/// player and hands the turn to the other.
pub proof fn law_players_alternate(game: GameView, player: Player, cell: Seq<int>)
    requires
        game.inv(),
    ensures
        game.active_player == (if game.turns % 2 == 0 {
            Player::X
        } else {
            Player::O
        }),
        game.set_result(player, cell) is Ok ==> player == game.active_player && game.set(
            player,
            cell,
        ).active_player == player.other(),
        game.set_result(player, cell) is Err ==> game.set(player, cell).active_player
            == game.active_player,
{
}

/// The state of a match tells who owns a line: the winner of a match that was
/// won does, and nobody else in any match.
pub proof fn law_state_tells_lines(game: GameView, player: Player)
    requires
        game.inv(),
    ensures
        game.game_state == GameState::Victory(player) ==> has_line(
            game.marks,
            game.dimensions,
            game.board_size,
            player,
        ),
        game.game_state != GameState::Victory(player) ==> !has_line(
            game.marks,
            game.dimensions,
            game.board_size,
            player,
        ),
{
}

/// The number of turns equals the number of cells exactly when every cell
/// carries a mark; so a drawn match has a full board.
pub proof fn law_last_turn_fills_board(game: GameView)
    requires
        game.inv(),
    ensures
        game.turns == game.capacity() <==> (forall|cell: Seq<int>|
            in_board(cell, game.dimensions, game.board_size) ==> game.marks[cell] is Some),
        game.game_state == GameState::Draw ==> game.turns == game.capacity(),
{
    let all = cells(game.dimensions, game.board_size);
    lemma_cells_count(game.dimensions, game.board_size);
    if game.turns == game.capacity() {
        lemma_subset_equality(game.occupied(), all);
        assert forall|cell: Seq<int>|
            in_board(cell, game.dimensions, game.board_size) implies game.marks[cell] is Some by {
            assert(all.contains(cell));
        }
    }
    if forall|cell: Seq<int>|
        in_board(cell, game.dimensions, game.board_size) ==> game.marks[cell] is Some {
        assert(game.occupied() =~= all);
    }
}

/// On a board with one cell along each axis the first move wins.
pub proof fn law_side_of_one_is_won_at_once(game: GameView, player: Player, cell: Seq<int>)
    requires
        game.inv(),
        game.board_size == 1,
        game.set_result(player, cell) is Ok,
    ensures
        game.set_result(player, cell) == Ok::<GameState, SetError>(GameState::Victory(player)),
{
    let marks = game.moved(player, cell).marks;
    let roles = Seq::new(game.dimensions, |k: int| AxisRole::Forward);
    assert(roles[0] != AxisRole::Pinned);
    assert(is_direction(roles, game.dimensions));
    assert forall|step: int| 0 <= step < 1 implies marks[#[trigger] line_cell(
        roles,
        cell,
        1,
        step,
    )] == Some(player) by {
        assert(line_cell(roles, cell, 1, step) =~= cell);
    }
    assert(owns_line(marks, roles, cell, 1, player));
}

/// A board with `dims` axes has `3^dims - 1` directions: each axis has one of
/// three roles, and one choice of roles moves no axis.
pub proof fn law_directions_count(dims: nat)
    ensures
        directions(dims).finite(),
        directions(dims).len() == choice_count(dims) - 1,
{
    let origin = Seq::new(dims, |k: int| 0int);
    let moving = cells(dims, 3).remove(origin);
    let roles_of = |digits: Seq<int>| digit_roles(digits);
    lemma_cells_count(dims, 3);
    assert(cells(dims, 3).contains(origin));
    assert forall|a: Seq<int>, b: Seq<int>|
        moving.contains(a) && moving.contains(b) && #[trigger] roles_of(a) == #[trigger] roles_of(
            b,
        ) implies a == b by {
        assert forall|k: int| 0 <= k < a.len() implies a[k] == b[k] by {
            assert(digit_roles(a)[k] == digit_roles(b)[k]);
        }
        assert(a =~= b);
    }
    assert forall|roles: Seq<AxisRole>| moving.map(roles_of).contains(roles) <==> directions(
        dims,
    ).contains(roles) by {
        if moving.map(roles_of).contains(roles) {
            let digits = choose|digits: Seq<int>|
                moving.contains(digits) && roles == roles_of(digits);
            if forall|k: int| 0 <= k < roles.len() ==> roles[k] == AxisRole::Pinned {
                assert forall|k: int| 0 <= k < digits.len() implies digits[k] == 0 by {
                    assert(roles[k] == AxisRole::Pinned);
                }
                assert(digits =~= origin);
            }
        }
        if is_direction(roles, dims) {
            let digits = role_digits(roles);
            let k = choose|k: int| 0 <= k < roles.len() && #[trigger] roles[k] != AxisRole::Pinned;
            assert(digits[k] != origin[k]);
            assert(digit_roles(digits) =~= roles);
            assert(moving.contains(digits) && roles == roles_of(digits));
        }
    }
    assert(moving.map(roles_of) =~= directions(dims));
    lemma_map_size(moving, directions(dims), roles_of);
}

} // verus!
