//! Facts about the model that hold of every board.

use crate::grid::{
    lemma_index_bounds, lemma_position_is_cell, lemma_ring_bounds, lemma_step_cell, Grid,
};
use vstd::prelude::*;

verus! {

/// Two boards of the same dimensions agree when they agree cell by cell.
pub proof fn lemma_cellwise_equal(a: Grid, b: Grid)
    requires
        a.wf(),
        b.wf(),
        a.width == b.width,
        a.height == b.height,
        forall|row: int, column: int|
            a.in_bounds(row, column) ==> #[trigger] a.alive(row, column) == b.alive(row, column),
    ensures
        a == b,
{
    assert forall|i: int| 0 <= i < a.cells.len() implies a.cells[i] == b.cells[i] by {
        lemma_position_is_cell(a, i);
        let row = i / a.width as int;
        let column = i % a.width as int;
        assert(a.alive(row, column) == b.alive(row, column));
    }
    assert(a.cells =~= b.cells);
}

/// Any number of generations keeps a board well formed and of the same
/// dimensions.
pub proof fn lemma_after_keeps_shape(g: Grid, generations: nat)
    requires
        g.wf(),
    ensures
        g.after(generations).wf(),
        g.after(generations).width == g.width,
        g.after(generations).height == g.height,
    decreases generations,
{
    if generations > 0 {
        lemma_after_keeps_shape(g, (generations - 1) as nat);
    }
}

/// The generations of a board are determined by its cells: two boards that
/// start with the same dimensions and the same liveness in every cell hold
/// the same cells after any number of generations.
pub proof fn lemma_generations_determined(a: Grid, b: Grid, generations: nat)
    requires
        a.wf(),
        b.wf(),
        a.width == b.width,
        a.height == b.height,
        forall|row: int, column: int|
            a.in_bounds(row, column) ==> #[trigger] a.alive(row, column) == b.alive(row, column),
    ensures
        a.after(generations) == b.after(generations),
{
    lemma_cellwise_equal(a, b);
}

/// Running `first` generations and then `second` more is running
/// `first + second` generations.
pub proof fn lemma_after_adds(g: Grid, first: nat, second: nat)
    ensures
        g.after(first).after(second) == g.after(first + second),
    decreases second,
{
    if second > 0 {
        lemma_after_adds(g, first, (second - 1) as nat);
    }
}

/// The board wraps: the cell in the last row and last column is the
/// north-west neighbour of the cell in the first row and first column, and
/// is counted among its live neighbours when it is alive.
pub proof fn lemma_corner_wraps(g: Grid)
    requires
        g.wf(),
        g.width > 0,
        g.height > 0,
        g.alive(g.height - 1, g.width - 1),
    ensures
        g.live_neighbors(0, 0) >= 1,
{
}

/// On a board with at least three rows and three columns the eight
/// neighbours of the first cell are distinct, and a lone live cell in the
/// opposite corner is counted exactly once.
pub proof fn lemma_lone_corner_counts_once(g: Grid)
    requires
        g.wf(),
        g.width >= 3,
        g.height >= 3,
        forall|row: int, column: int|
            g.in_bounds(row, column) ==> (#[trigger] g.alive(row, column) <==> (row == g.height - 1
                && column == g.width - 1)),
    ensures
        g.live_neighbors(0, 0) == 1,
{
    let h = g.height as int;
    let w = g.width as int;
    assert(g.alive(h - 1, w - 1));
    assert(!g.alive(h - 1, 0));
    assert(!g.alive(h - 1, 1));
    assert(!g.alive(0, w - 1));
    assert(!g.alive(0, 1));
    assert(!g.alive(1, w - 1));
    assert(!g.alive(1, 0));
    assert(!g.alive(1, 1));
}

/// Every cell of a dead board is dead.
pub proof fn lemma_dead_board(width: nat, height: nat, row: int, column: int)
    requires
        Grid::dead(width, height).in_bounds(row, column),
    ensures
        Grid::dead(width, height).wf(),
        !Grid::dead(width, height).alive(row, column),
{
    lemma_index_bounds(Grid::dead(width, height), row, column);
}

/// Toggling a cell flips that cell and no other.
pub proof fn lemma_toggle_one_cell(g: Grid, row: int, column: int, other_row: int, other_column: int)
    requires
        g.wf(),
        g.in_bounds(row, column),
        g.in_bounds(other_row, other_column),
    ensures
        g.toggled(row, column).wf(),
        g.toggled(row, column).alive(row, column) == !g.alive(row, column),
        (other_row != row || other_column != column) ==> g.toggled(row, column).alive(
            other_row,
            other_column,
        ) == g.alive(other_row, other_column),
{
    lemma_index_bounds(g, row, column);
    lemma_index_bounds(g, other_row, other_column);
}

/// Toggling the same cell twice restores the board.
pub proof fn lemma_toggle_twice(g: Grid, row: int, column: int)
    requires
        g.wf(),
        g.in_bounds(row, column),
    ensures
        g.toggled(row, column).toggled(row, column) == g,
{
    lemma_index_bounds(g, row, column);
    assert(g.toggled(row, column).toggled(row, column).cells =~= g.cells);
}

/// After cells are set alive, a cell is alive exactly when it was alive
/// before or is one of those listed.
pub proof fn lemma_with_alive_cell(g: Grid, coordinates: Seq<(u32, u32)>, row: int, column: int)
    requires
        g.wf(),
        g.in_bounds(row, column),
    ensures
        g.with_alive(coordinates).wf(),
        g.with_alive(coordinates).alive(row, column) == (g.alive(row, column) || Grid::listed(
            coordinates,
            row,
            column,
        )),
{
    lemma_index_bounds(g, row, column);
}

/// The live cells of `g` are exactly the four of the two-by-two block whose
/// upper left cell is `(top, left)`.
pub open spec fn is_block(g: Grid, top: int, left: int) -> bool {
    forall|row: int, column: int|
        g.in_bounds(row, column) ==> (#[trigger] g.alive(row, column) <==> (top <= row <= top + 1
            && left <= column <= left + 1))
}

/// The live cells of `g` are exactly three in a row, centred on
/// `(row, column)`.
pub open spec fn is_bar_across(g: Grid, row: int, column: int) -> bool {
    forall|i: int, j: int|
        g.in_bounds(i, j) ==> (#[trigger] g.alive(i, j) <==> (i == row && column - 1 <= j <= column
            + 1))
}

/// The live cells of `g` are exactly three in a column, centred on
/// `(row, column)`.
pub open spec fn is_bar_down(g: Grid, row: int, column: int) -> bool {
    forall|i: int, j: int|
        g.in_bounds(i, j) ==> (#[trigger] g.alive(i, j) <==> (j == column && row - 1 <= i <= row
            + 1))
}

/// A two-by-two block away from the edges, on a board of at least four rows
/// and four columns, is the same after one generation.
pub proof fn lemma_block_steps_to_itself(g: Grid, top: int, left: int)
    requires
        g.wf(),
        g.width >= 4,
        g.height >= 4,
        0 <= top,
        top + 1 < g.height,
        0 <= left,
        left + 1 < g.width,
        is_block(g, top, left),
    ensures
        g.step() == g,
{
    let next = g.step();
    assert forall|row: int, column: int| next.in_bounds(row, column) implies #[trigger] next.alive(
        row,
        column,
    ) == g.alive(row, column) by {
        lemma_step_cell(g, row, column);
        lemma_ring_bounds(row, g.height as int);
        lemma_ring_bounds(column, g.width as int);
    }
    if g.cells.len() > 0 {
        lemma_step_cell(g, 0, 0);
    }
    lemma_cellwise_equal(next, g);
}

/// A two-by-two block is a still life: it is unchanged after any number of
/// generations.
pub proof fn lemma_block_is_still(g: Grid, top: int, left: int, generations: nat)
    requires
        g.wf(),
        g.width >= 4,
        g.height >= 4,
        0 <= top,
        top + 1 < g.height,
        0 <= left,
        left + 1 < g.width,
        is_block(g, top, left),
    ensures
        g.after(generations) == g,
    decreases generations,
{
    if generations > 0 {
        lemma_block_is_still(g, top, left, (generations - 1) as nat);
        lemma_block_steps_to_itself(g, top, left);
    }
}

/// A bar of three away from the edges, on a board of at least four rows and
/// four columns, turns by a quarter in one generation: a bar across becomes
/// a bar down with the same centre, and a bar down becomes a bar across.
pub proof fn lemma_bar_turns(g: Grid, row: int, column: int)
    requires
        g.wf(),
        g.width >= 4,
        g.height >= 4,
        1 <= row,
        row + 1 < g.height,
        1 <= column,
        column + 1 < g.width,
    ensures
        g.step().wf(),
        g.step().width == g.width,
        g.step().height == g.height,
        is_bar_across(g, row, column) ==> is_bar_down(g.step(), row, column),
        is_bar_down(g, row, column) ==> is_bar_across(g.step(), row, column),
{
    let next = g.step();
    lemma_step_cell(g, row, column);
    if is_bar_across(g, row, column) {
        assert forall|i: int, j: int| next.in_bounds(i, j) implies (#[trigger] next.alive(i, j) <==> (j
            == column && row - 1 <= i <= row + 1)) by {
            lemma_step_cell(g, i, j);
            lemma_ring_bounds(i, g.height as int);
            lemma_ring_bounds(j, g.width as int);
        }
    }
    if is_bar_down(g, row, column) {
        assert forall|i: int, j: int| next.in_bounds(i, j) implies (#[trigger] next.alive(i, j) <==> (i
            == row && column - 1 <= j <= column + 1)) by {
            lemma_step_cell(g, i, j);
            lemma_ring_bounds(i, g.height as int);
            lemma_ring_bounds(j, g.width as int);
        }
    }
}

/// A bar of three is an oscillator of period two: after two generations the
/// board is what it was.
pub proof fn lemma_bar_returns(g: Grid, row: int, column: int)
    requires
        g.wf(),
        g.width >= 4,
        g.height >= 4,
        1 <= row,
        row + 1 < g.height,
        1 <= column,
        column + 1 < g.width,
        is_bar_across(g, row, column) || is_bar_down(g, row, column),
    ensures
        g.after(2) == g,
        g.after(1) != g,
{
    reveal_with_fuel(Grid::after, 3);
    let once = g.step();
    let twice = once.step();
    lemma_bar_turns(g, row, column);
    lemma_bar_turns(once, row, column);
    assert(twice == g) by {
        assert forall|i: int, j: int| twice.in_bounds(i, j) implies #[trigger] twice.alive(i, j)
            == g.alive(i, j) by {}
        lemma_cellwise_equal(twice, g);
    }
    assert(once != g) by {
        assert(g.in_bounds(row, column + 1));
        assert(g.in_bounds(row + 1, column));
        assert(once.alive(row, column + 1) != g.alive(row, column + 1));
    }
}

} // verus!
