//! Cells of a hypercubic board and the order in which they are stored.
//!
//! A cell is a sequence of coordinates, one per dimension, each below the side
//! length of the board. Cells are stored in one contiguous sequence; the cell's
//! coordinates are the digits of its index, least significant first, in the
//! base given by the side length.
use vstd::arithmetic::div_mod::{lemma_fundamental_div_mod, lemma_mod_bound};
use vstd::arithmetic::power::{lemma_pow0, lemma_pow_positive, pow};
use vstd::prelude::*;
use vstd::set_lib::{lemma_int_range, lemma_map_size, set_int_range};

verus! {

/// The coordinates of a position, as mathematical integers.
pub open spec fn coords(position: Seq<usize>) -> Seq<int> {
    Seq::new(position.len(), |k: int| position[k] as int)
}

/// Whether every coordinate of `cell` lies in `[0, side)`.
pub open spec fn within_side(cell: Seq<int>, side: nat) -> bool {
    forall|k: int| 0 <= k < cell.len() ==> 0 <= #[trigger] cell[k] < side
}

/// Whether `cell` names a cell of the board with `dims` dimensions of length `side`.
pub open spec fn in_board(cell: Seq<int>, dims: nat, side: nat) -> bool {
    cell.len() == dims && within_side(cell, side)
}

/// The number of cells of the board: `side` to the power of `dims`.
pub open spec fn cell_count(dims: nat, side: nat) -> int {
    pow(side as int, dims)
}

/// The index at which `cell` is stored: the sum of `cell[i] * side^i`.
pub open spec fn flat_index(cell: Seq<int>, side: nat) -> int
    decreases cell.len(),
{
    if cell.len() == 0 {
        0
    } else {
        flat_index(cell.drop_last(), side) + cell.last() * pow(
            side as int,
            (cell.len() - 1) as nat,
        )
    }
}

/// One more factor: `b^(e+1)` is `b * b^e`.
pub proof fn lemma_pow_step(b: int, e: nat)
    ensures
        pow(b, e + 1) == b * pow(b, e),
{
    reveal(pow);
}

/// The index of a cell lies below the number of cells.
pub proof fn lemma_flat_index_bound(cell: Seq<int>, side: nat)
    requires
        within_side(cell, side),
    ensures
        0 <= flat_index(cell, side) < cell_count(cell.len(), side),
    decreases cell.len(),
{
    if cell.len() == 0 {
        lemma_pow0(side as int);
    } else {
        let init = cell.drop_last();
        let weight = pow(side as int, init.len());
        let digit = cell.last();
        lemma_flat_index_bound(init, side);
        lemma_pow_step(side as int, init.len());
        assert(0 <= digit * weight && digit * weight + weight <= side * weight)
            by (nonlinear_arith)
            requires
                0 <= digit < side,
                0 < weight,
        ;
    }
}

/// Two cells with the same index are the same cell.
pub proof fn lemma_flat_index_injective(a: Seq<int>, b: Seq<int>, side: nat)
    requires
        a.len() == b.len(),
        within_side(a, side),
        within_side(b, side),
        flat_index(a, side) == flat_index(b, side),
    ensures
        a == b,
    decreases a.len(),
{
    if a.len() == 0 {
        assert(a =~= b);
    } else {
        let a_init = a.drop_last();
        let b_init = b.drop_last();
        let weight = pow(side as int, a_init.len());
        let x = a.last();
        let y = b.last();
        lemma_flat_index_bound(a_init, side);
        lemma_flat_index_bound(b_init, side);
        assert(x < y ==> x * weight + weight <= y * weight) by (nonlinear_arith)
            requires
                0 < weight,
        ;
        assert(y < x ==> y * weight + weight <= x * weight) by (nonlinear_arith)
            requires
                0 < weight,
        ;
        lemma_flat_index_injective(a_init, b_init, side);
        assert(a =~= a_init.push(x));
        assert(b =~= b_init.push(y));
    }
}

/// The index of the first `k + 1` coordinates is that of the first `k` plus
/// the next coordinate at its weight.
pub proof fn lemma_flat_index_next(cell: Seq<int>, side: nat, k: int)
    requires
        0 <= k < cell.len(),
    ensures
        flat_index(cell.take(k + 1), side) == flat_index(cell.take(k), side) + cell[k] * pow(
            side as int,
            k as nat,
        ),
{
    assert(cell.take(k + 1).drop_last() =~= cell.take(k));
}

/// Cells that agree from axis `k` on differ in index as their first `k` coordinates do.
pub proof fn lemma_flat_index_common_tail(a: Seq<int>, b: Seq<int>, side: nat, k: int)
    requires
        a.len() == b.len(),
        0 <= k <= a.len(),
        forall|j: int| k <= j < a.len() ==> a[j] == b[j],
    ensures
        flat_index(a, side) - flat_index(b, side) == flat_index(a.take(k), side) - flat_index(
            b.take(k),
            side,
        ),
    decreases a.len() - k,
{
    if k == a.len() {
        assert(a.take(k) =~= a);
        assert(b.take(k) =~= b);
    } else {
        lemma_flat_index_common_tail(a.drop_last(), b.drop_last(), side, k);
        assert(a.drop_last().take(k) =~= a.take(k));
        assert(b.drop_last().take(k) =~= b.take(k));
    }
}

/// The cell with every coordinate `0` is stored first.
pub proof fn lemma_flat_index_of_origin(cell: Seq<int>, side: nat)
    requires
        forall|j: int| 0 <= j < cell.len() ==> cell[j] == 0,
    ensures
        flat_index(cell, side) == 0,
    decreases cell.len(),
{
    if cell.len() > 0 {
        lemma_flat_index_of_origin(cell.drop_last(), side);
    }
}

/// The cell with every coordinate `side - 1` is stored last.
pub proof fn lemma_flat_index_of_far_corner(cell: Seq<int>, side: nat)
    requires
        side >= 1,
        forall|j: int| 0 <= j < cell.len() ==> cell[j] == side - 1,
    ensures
        flat_index(cell, side) == cell_count(cell.len(), side) - 1,
    decreases cell.len(),
{
    if cell.len() == 0 {
        lemma_pow0(side as int);
    } else {
        let init = cell.drop_last();
        let weight = pow(side as int, init.len());
        lemma_flat_index_of_far_corner(init, side);
        lemma_pow_step(side as int, init.len());
        assert((side - 1) * weight == side * weight - weight) by (nonlinear_arith);
    }
}

/// Only the cell with every coordinate `0` is stored first.
pub proof fn lemma_flat_index_zero_is_origin(cell: Seq<int>, side: nat)
    requires
        within_side(cell, side),
        flat_index(cell, side) == 0,
    ensures
        forall|j: int| 0 <= j < cell.len() ==> cell[j] == 0,
{
    let origin = Seq::new(cell.len(), |j: int| 0int);
    lemma_flat_index_of_origin(origin, side);
    if cell.len() > 0 {
        assert(0 <= cell[0] < side);
        lemma_flat_index_injective(cell, origin, side);
    }
}

/// The cells of the board.
pub open spec fn cells(dims: nat, side: nat) -> Set<Seq<int>> {
    Set::new(|cell: Seq<int>| in_board(cell, dims, side))
}

/// The cell that is stored at `index`: its coordinates are the `dims` lowest
/// digits of `index` in base `side`.
pub open spec fn cell_at(index: int, dims: nat, side: nat) -> Seq<int>
    decreases dims,
{
    if dims == 0 {
        Seq::empty()
    } else {
        let weight = cell_count((dims - 1) as nat, side);
        cell_at(index % weight, (dims - 1) as nat, side).push(index / weight)
    }
}

/// Under each index below the number of cells one cell of the board is stored.
pub proof fn lemma_cell_at(index: int, dims: nat, side: nat)
    requires
        0 <= index < cell_count(dims, side),
    ensures
        in_board(cell_at(index, dims, side), dims, side),
        flat_index(cell_at(index, dims, side), side) == index,
    decreases dims,
{
    if dims == 0 {
        lemma_pow0(side as int);
    } else {
        let below = (dims - 1) as nat;
        let weight = cell_count(below, side);
        let init = cell_at(index % weight, below, side);
        let cell = cell_at(index, dims, side);
        lemma_pow_step(side as int, below);
        assert(0 < weight && 0 < side) by (nonlinear_arith)
            requires
                0 <= index < side * weight,
                0 <= side,
        ;
        lemma_fundamental_div_mod(index, weight);
        lemma_mod_bound(index, weight);
        assert(0 <= index / weight < side) by (nonlinear_arith)
            requires
                0 <= index < side * weight,
                0 < weight,
                index == weight * (index / weight) + index % weight,
                0 <= index % weight < weight,
        ;
        lemma_cell_at(index % weight, below, side);
        assert(cell.drop_last() =~= init);
        assert((index / weight) * weight == weight * (index / weight)) by (nonlinear_arith);
    }
}

/// The board has as many cells as its side length to the power of its dimensions.
pub proof fn lemma_cells_count(dims: nat, side: nat)
    requires
        side >= 1,
    ensures
        cells(dims, side).finite(),
        cells(dims, side).len() == cell_count(dims, side),
{
    let count = cell_count(dims, side);
    let indices = set_int_range(0, count);
    let cell_of = |index: int| cell_at(index, dims, side);
    lemma_pow_positive(side as int, dims);
    lemma_int_range(0, count);
    assert forall|i: int, j: int|
        indices.contains(i) && indices.contains(j) && #[trigger] cell_of(i) == #[trigger] cell_of(
            j,
        ) implies i == j by {
        lemma_cell_at(i, dims, side);
        lemma_cell_at(j, dims, side);
    }
    assert forall|cell: Seq<int>| indices.map(cell_of).contains(cell) <==> cells(
        dims,
        side,
    ).contains(cell) by {
        if indices.map(cell_of).contains(cell) {
            let i = choose|i: int| indices.contains(i) && cell == cell_of(i);
            lemma_cell_at(i, dims, side);
        }
        if in_board(cell, dims, side) {
            let i = flat_index(cell, side);
            lemma_flat_index_bound(cell, side);
            lemma_cell_at(i, dims, side);
            lemma_flat_index_injective(cell_at(i, dims, side), cell, side);
            assert(indices.contains(i) && cell == cell_of(i));
        }
    }
    assert(indices.map(cell_of) =~= cells(dims, side));
    lemma_map_size(indices, cells(dims, side), cell_of);
}

} // verus!
