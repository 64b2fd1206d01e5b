//! The mathematical model of a board and of the update rule.

use vstd::arithmetic::div_mod::lemma_fundamental_div_mod_converse;
use vstd::prelude::*;

verus! {

/// A board as a value of pure mathematics: its dimensions and the liveness of
/// every cell in row-major order.
pub struct Grid {
    pub width: nat,
    pub height: nat,
    pub cells: Seq<bool>,
}

/// The coordinate before `i` on a ring of `n` places: `(i - 1) mod n`.
pub open spec fn ring_prev(i: int, n: int) -> int {
    if i == 0 {
        n - 1
    } else {
        i - 1
    }
}

/// The coordinate after `i` on a ring of `n` places: `(i + 1) mod n`.
pub open spec fn ring_next(i: int, n: int) -> int {
    if i == n - 1 {
        0
    } else {
        i + 1
    }
}

/// One for a live cell, zero for a dead one.
pub open spec fn population(alive: bool) -> nat {
    if alive {
        1
    } else {
        0
    }
}

/// The character that stands for a cell in a picture of the board.
pub open spec fn glyph(alive: bool) -> char {
    if alive {
        '\u{25FC}'
    } else {
        '\u{25FB}'
    }
}

/// The update rule for one cell: a live cell survives with two or three live
/// neighbours, a dead cell comes alive with exactly three.
pub open spec fn survives(alive: bool, live_neighbors: nat) -> bool {
    if alive {
        live_neighbors == 2 || live_neighbors == 3
    } else {
        live_neighbors == 3
    }
}

impl Grid {
    /// There is exactly one entry per cell.
    pub open spec fn wf(self) -> bool {
        self.cells.len() == self.width * self.height
    }

    /// Whether `(row, column)` names a cell of the board.
    pub open spec fn in_bounds(self, row: int, column: int) -> bool {
        0 <= row < self.height && 0 <= column < self.width
    }

    /// The row-major position of a cell.
    pub open spec fn index(self, row: int, column: int) -> int {
        row * self.width + column
    }

    /// Liveness of the cell at `(row, column)`.
    pub open spec fn alive(self, row: int, column: int) -> bool {
        self.cells[self.index(row, column)]
    }

    /// How many of the eight cells around `(row, column)` are alive. Rows and
    /// columns wrap at the edges, so on a narrow board one cell may be counted
    /// under several offsets.
    pub open spec fn live_neighbors(self, row: int, column: int) -> nat {
        let north = ring_prev(row, self.height as int);
        let south = ring_next(row, self.height as int);
        let west = ring_prev(column, self.width as int);
        let east = ring_next(column, self.width as int);
        population(self.alive(north, west)) + population(self.alive(north, column)) + population(
            self.alive(north, east),
        ) + population(self.alive(row, west)) + population(self.alive(row, east)) + population(
            self.alive(south, west),
        ) + population(self.alive(south, column)) + population(self.alive(south, east))
    }

    /// Liveness of the cell at `(row, column)` one generation later.
    pub open spec fn next_alive(self, row: int, column: int) -> bool {
        survives(self.alive(row, column), self.live_neighbors(row, column))
    }

    /// The board one generation later. Every cell is computed from this board.
    pub open spec fn step(self) -> Grid {
        Grid {
            width: self.width,
            height: self.height,
            cells: Seq::new(
                self.cells.len(),
                |i: int| self.next_alive(i / self.width as int, i % self.width as int),
            ),
        }
    }

    /// The board `generations` generations later.
    pub open spec fn after(self, generations: nat) -> Grid
        decreases generations,
    {
        if generations == 0 {
            self
        } else {
            self.after((generations - 1) as nat).step()
        }
    }

    /// The board with the cell at `(row, column)` flipped.
    pub open spec fn toggled(self, row: int, column: int) -> Grid {
        Grid {
            width: self.width,
            height: self.height,
            cells: self.cells.update(self.index(row, column), !self.alive(row, column)),
        }
    }

    /// The board of the given dimensions on which every cell is dead.
    pub open spec fn dead(width: nat, height: nat) -> Grid {
        Grid { width, height, cells: Seq::new(width * height, |i: int| false) }
    }

    /// Whether `coordinates` holds the pair `(row, column)`.
    pub open spec fn listed(coordinates: Seq<(u32, u32)>, row: int, column: int) -> bool {
        exists|k: int|
            0 <= k < coordinates.len() && (#[trigger] coordinates[k]).0 == row && coordinates[k].1
                == column
    }

    /// The board on which the listed cells are alive and every other cell is
    /// as it was.
    pub open spec fn with_alive(self, coordinates: Seq<(u32, u32)>) -> Grid {
        Grid {
            width: self.width,
            height: self.height,
            cells: Seq::new(
                self.cells.len(),
                |i: int|
                    self.cells[i] || Self::listed(
                        coordinates,
                        i / self.width as int,
                        i % self.width as int,
                    ),
            ),
        }
    }

    /// One line of the picture: a glyph per cell of the row, then a newline.
    pub open spec fn row_text(self, row: int) -> Seq<char> {
        Seq::new(self.width, |column: int| glyph(self.alive(row, column))).push('\n')
    }

    /// The lines of the first `rows` rows, top row first.
    pub open spec fn text(self, rows: nat) -> Seq<char>
        decreases rows,
    {
        if rows == 0 {
            Seq::empty()
        } else {
            self.text((rows - 1) as nat) + self.row_text(rows - 1)
        }
    }

    /// The picture of the whole board.
    pub open spec fn rendered(self) -> Seq<char> {
        self.text(self.height)
    }
}

/// A cell's row-major position lies inside the board and determines the cell.
pub proof fn lemma_index_bounds(g: Grid, row: int, column: int)
    requires
        g.wf(),
        g.in_bounds(row, column),
    ensures
        0 <= g.index(row, column) < g.cells.len(),
        g.index(row, column) / g.width as int == row,
        g.index(row, column) % g.width as int == column,
{
    let w = g.width as int;
    let h = g.height as int;
    assert(row * w + column < w * h) by (nonlinear_arith)
        requires
            0 <= row < h,
            0 <= column < w,
    ;
    assert(0 <= row * w) by (nonlinear_arith)
        requires
            0 <= row,
            0 <= w,
    ;
    lemma_fundamental_div_mod_converse(row * w + column, w, row, column);
}

/// Every position of the cell sequence is the position of exactly one cell.
pub proof fn lemma_position_is_cell(g: Grid, i: int)
    requires
        g.wf(),
        0 <= i < g.cells.len(),
    ensures
        g.in_bounds(i / g.width as int, i % g.width as int),
        g.index(i / g.width as int, i % g.width as int) == i,
{
    let w = g.width as int;
    let h = g.height as int;
    assert(w > 0) by (nonlinear_arith)
        requires
            0 <= i < w * h,
            0 <= w,
    ;
    assert(i == (i / w) * w + i % w && 0 <= i % w < w && 0 <= i / w < h) by (nonlinear_arith)
        requires
            0 <= i < w * h,
            w > 0,
    ;
}

/// The neighbours of a cell are cells of the board.
pub proof fn lemma_ring_bounds(i: int, n: int)
    requires
        0 <= i < n,
    ensures
        0 <= ring_prev(i, n) < n,
        0 <= ring_next(i, n) < n,
        ring_prev(i, n) == (i - 1) % n,
        ring_next(i, n) == (i + 1) % n,
{
    if i == 0 {
        lemma_fundamental_div_mod_converse(i - 1, n, -1, n - 1);
    } else {
        lemma_fundamental_div_mod_converse(i - 1, n, 0, i - 1);
    }
    if i == n - 1 {
        lemma_fundamental_div_mod_converse(i + 1, n, 1, 0);
    } else {
        lemma_fundamental_div_mod_converse(i + 1, n, 0, i + 1);
    }
}

/// One generation keeps the dimensions and applies the rule to every cell.
pub proof fn lemma_step_cell(g: Grid, row: int, column: int)
    requires
        g.wf(),
        g.in_bounds(row, column),
    ensures
        g.step().wf(),
        g.step().width == g.width,
        g.step().height == g.height,
        g.step().alive(row, column) == g.next_alive(row, column),
{
    lemma_index_bounds(g, row, column);
}

/// Listing one more cell changes the board at that cell alone, where it
/// makes the cell alive.
pub proof fn lemma_with_alive_grows(g: Grid, coordinates: Seq<(u32, u32)>, k: int)
    requires
        g.wf(),
        0 <= k < coordinates.len(),
        g.in_bounds(coordinates[k].0 as int, coordinates[k].1 as int),
    ensures
        g.with_alive(coordinates.take(k + 1)).cells == g.with_alive(coordinates.take(k)).cells.update(
            g.index(coordinates[k].0 as int, coordinates[k].1 as int),
            true,
        ),
{
    let row = coordinates[k].0 as int;
    let column = coordinates[k].1 as int;
    let w = g.width as int;
    let shorter = coordinates.take(k);
    let longer = coordinates.take(k + 1);
    lemma_index_bounds(g, row, column);
    assert forall|i: int| 0 <= i < g.cells.len() implies g.with_alive(longer).cells[i]
        == g.with_alive(shorter).cells.update(g.index(row, column), true)[i] by {
        lemma_position_is_cell(g, i);
        if i == g.index(row, column) {
            assert(longer[k].0 == row && longer[k].1 == column);
        } else {
            if Grid::listed(shorter, i / w, i % w) {
                let j = choose|j: int|
                    0 <= j < shorter.len() && (#[trigger] shorter[j]).0 == i / w && shorter[j].1
                        == i % w;
                assert(longer[j] == shorter[j]);
            }
            if Grid::listed(longer, i / w, i % w) {
                let j = choose|j: int|
                    0 <= j < longer.len() && (#[trigger] longer[j]).0 == i / w && longer[j].1 == i
                        % w;
                assert(j != k);
                assert(shorter[j] == longer[j]);
            }
        }
    }
    assert(g.with_alive(longer).cells =~= g.with_alive(shorter).cells.update(
        g.index(row, column),
        true,
    ));
}

} // verus!
