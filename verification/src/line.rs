//! The lines of a hypercubic board, and who owns them.
//!
//! A line is laid out from a seed cell by a direction. It visits one cell for
//! each step from `0` up to the side length: at each step an axis that moves
//! forward has the step as its coordinate, a mirrored axis the step counted
//! from the far end, and a pinned axis the coordinate of the seed. Every line
//! that contains a cell is laid out from that cell by some direction.
use crate::direction::{is_direction, AxisRole};
use crate::grid::in_board;
use crate::player::Player;
use vstd::prelude::*;

verus! {

/// The marks on a board, by cell.
pub type Marks = Map<Seq<int>, Option<Player>>;

/// The coordinate, at `step`, of an axis with the given role.
pub open spec fn line_coordinate(role: AxisRole, seed: int, side: nat, step: int) -> int {
    match role {
        AxisRole::Pinned => seed,
        AxisRole::Forward => step,
        AxisRole::Mirrored => side - 1 - step,
    }
}

/// The cell that the line through `seed` with the given roles visits at `step`.
pub open spec fn line_cell(roles: Seq<AxisRole>, seed: Seq<int>, side: nat, step: int) -> Seq<
    int,
> {
    Seq::new(seed.len(), |k: int| line_coordinate(roles[k], seed[k], side, step))
}

/// Whether `player` has a mark on each of the `side` cells of the line.
pub open spec fn owns_line(
    marks: Marks,
    roles: Seq<AxisRole>,
    seed: Seq<int>,
    side: nat,
    player: Player,
) -> bool {
    forall|step: int|
        0 <= step < side ==> marks[#[trigger] line_cell(roles, seed, side, step)] == Some(player)
}

/// Whether `player` owns a line, in some direction, that is laid through `seed`.
pub open spec fn wins_through(
    marks: Marks,
    dims: nat,
    side: nat,
    seed: Seq<int>,
    player: Player,
) -> bool {
    exists|roles: Seq<AxisRole>|
        is_direction(roles, dims) && #[trigger] owns_line(marks, roles, seed, side, player)
}

/// Whether `player` owns a line anywhere on the board.
pub open spec fn has_line(marks: Marks, dims: nat, side: nat, player: Player) -> bool {
    exists|seed: Seq<int>|
        in_board(seed, dims, side) && #[trigger] wins_through(marks, dims, side, seed, player)
}

/// A line through a cell of the board stays on the board.
pub proof fn lemma_line_cell_in_board(
    roles: Seq<AxisRole>,
    seed: Seq<int>,
    dims: nat,
    side: nat,
    step: int,
)
    requires
        in_board(seed, dims, side),
        0 <= step < side,
    ensures
        in_board(line_cell(roles, seed, side, step), dims, side),
{
}

/// A line that visits `cell` is the line of the same roles through `cell`.
pub proof fn lemma_line_through_its_cell(
    roles: Seq<AxisRole>,
    seed: Seq<int>,
    side: nat,
    at: int,
    step: int,
)
    ensures
        line_cell(roles, line_cell(roles, seed, side, at), side, step) == line_cell(
            roles,
            seed,
            side,
            step,
        ),
{
    let cell = line_cell(roles, seed, side, at);
    assert(line_cell(roles, cell, side, step) =~= line_cell(roles, seed, side, step));
}

/// A mark of one player completes no line of the other.
pub proof fn lemma_mark_gives_rival_no_line(
    marks: Marks,
    dims: nat,
    side: nat,
    cell: Seq<int>,
    player: Player,
    rival: Player,
)
    requires
        rival != player,
        has_line(marks.insert(cell, Some(player)), dims, side, rival),
    ensures
        has_line(marks, dims, side, rival),
{
    let marked = marks.insert(cell, Some(player));
    let seed = choose|seed: Seq<int>|
        in_board(seed, dims, side) && #[trigger] wins_through(marked, dims, side, seed, rival);
    let roles = choose|roles: Seq<AxisRole>|
        is_direction(roles, dims) && #[trigger] owns_line(marked, roles, seed, side, rival);
    assert forall|step: int| 0 <= step < side implies marks[#[trigger] line_cell(
        roles,
        seed,
        side,
        step,
    )] == Some(rival) by {
        assert(marked[line_cell(roles, seed, side, step)] == Some(rival));
    }
    assert(owns_line(marks, roles, seed, side, rival));
    assert(wins_through(marks, dims, side, seed, rival));
}

/// A line that a mark completes can be found by looking through the marked cell.
pub proof fn lemma_new_line_passes_mark(
    marks: Marks,
    dims: nat,
    side: nat,
    cell: Seq<int>,
    player: Player,
)
    requires
        !has_line(marks, dims, side, player),
        has_line(marks.insert(cell, Some(player)), dims, side, player),
    ensures
        wins_through(marks.insert(cell, Some(player)), dims, side, cell, player),
{
    let marked = marks.insert(cell, Some(player));
    let seed = choose|seed: Seq<int>|
        in_board(seed, dims, side) && #[trigger] wins_through(marked, dims, side, seed, player);
    let roles = choose|roles: Seq<AxisRole>|
        is_direction(roles, dims) && #[trigger] owns_line(marked, roles, seed, side, player);
    if exists|at: int| 0 <= at < side && #[trigger] line_cell(roles, seed, side, at) == cell {
        let at = choose|at: int| 0 <= at < side && #[trigger] line_cell(roles, seed, side, at) == cell;
        assert forall|step: int| 0 <= step < side implies marked[#[trigger] line_cell(
            roles,
            cell,
            side,
            step,
        )] == Some(player) by {
            lemma_line_through_its_cell(roles, seed, side, at, step);
            assert(marked[line_cell(roles, seed, side, step)] == Some(player));
        }
        assert(owns_line(marked, roles, cell, side, player));
    } else {
        assert forall|step: int| 0 <= step < side implies marks[#[trigger] line_cell(
            roles,
            seed,
            side,
            step,
        )] == Some(player) by {
            assert(marked[line_cell(roles, seed, side, step)] == Some(player));
        }
        assert(owns_line(marks, roles, seed, side, player));
        assert(wins_through(marks, dims, side, seed, player));
    }
}

} // verus!
