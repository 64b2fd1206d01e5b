//! The executable board.

use crate::bitset::{bits, packs};
use crate::grid::{glyph, lemma_index_bounds, lemma_ring_bounds, lemma_with_alive_grows, Grid};
use fixedbitset::FixedBitSet;
use vstd::prelude::*;

verus! {

/// How the cells of a new board start out.
pub enum Seed {
    /// Every cell starts dead.
    Dead,
    /// One entry per cell in row-major order, `true` for alive, as drawn from
    /// a fixed pattern or from a random source. Cells past the end of the
    /// list start dead; entries past the last cell are ignored.
    Pattern(Vec<bool>),
}

impl Seed {
    /// Liveness that the seed gives to the cell at row-major position `i`.
    pub open spec fn alive_at(self, i: int) -> bool {
        match self {
            Seed::Dead => false,
            Seed::Pattern(pattern) => 0 <= i < pattern@.len() && pattern@[i],
        }
    }

    /// The board of the given dimensions that the seed describes.
    pub open spec fn grid(self, width: nat, height: nat) -> Grid {
        Grid { width, height, cells: Seq::new(width * height, |i: int| self.alive_at(i)) }
    }
}

/// Why a board could not be made.
#[derive(Debug, Clone, Copy, PartialEq, Eq, Structural)]
pub enum GridError {
    /// The board would hold more than `u32::MAX` cells.
    TooLarge,
}

/// Whether a board of these dimensions has a 32-bit position for every cell.
pub open spec fn fits(width: nat, height: nat) -> bool {
    width * height <= u32::MAX
}

/// A toroidal board of cells, one bit per cell in row-major order.
///
/// A board never holds more than `u32::MAX` cells, so that every cell has a
/// 32-bit row-major position.
pub struct Universe {
    width: u32,
    height: u32,
    cells: FixedBitSet,
}

impl View for Universe {
    type V = Grid;

    closed spec fn view(&self) -> Grid {
        Grid { width: self.width as nat, height: self.height as nat, cells: bits(&self.cells) }
    }
}

impl Universe {
    /// The board holds one entry per cell and no more than `u32::MAX` cells.
    /// Every board made by [`Universe::new`] is well formed and stays so.
    pub open spec fn wf(&self) -> bool {
        &&& self@.wf()
        &&& fits(self@.width, self@.height)
    }

    /// Checks the dimensions and allocates the cells of a board, all dead.
    fn allocate(width: u32, height: u32) -> (made: Result<FixedBitSet, GridError>)
        ensures
            fits(width as nat, height as nat) ==> made is Ok,
            !fits(width as nat, height as nat) ==> made == Err::<FixedBitSet, GridError>(
                GridError::TooLarge,
            ),
            made matches Ok(cells) ==> bits(&cells) == Grid::dead(
                width as nat,
                height as nat,
            ).cells,
    {
        assert(width * height <= u32::MAX * u32::MAX) by (nonlinear_arith);
        let size: u64 = (width as u64) * (height as u64);
        if size > u32::MAX as u64 {
            return Err(GridError::TooLarge);
        }
        Ok(FixedBitSet::with_capacity(size as usize))
    }

    /// Makes a board of the given dimensions whose cells start as `seed` says.
    ///
    /// Fails only when the board would hold more than `u32::MAX` cells.
    pub fn new(width: u32, height: u32, seed: &Seed) -> (made: Result<Universe, GridError>)
        ensures
            fits(width as nat, height as nat) ==> made is Ok,
            !fits(width as nat, height as nat) ==> made is Err,
            made matches Ok(universe) ==> universe.wf() && universe@ == seed.grid(
                width as nat,
                height as nat,
            ),
            made matches Err(error) ==> error == GridError::TooLarge,
    {
        let mut cells = match Self::allocate(width, height) {
            Ok(cells) => cells,
            Err(error) => {
                return Err(error);
            },
        };
        match seed {
            Seed::Dead => {},
            Seed::Pattern(pattern) => {
                let size = cells.len();
                let mut i: usize = 0;
                while i < size && i < pattern.len()
                    invariant
                        *seed == Seed::Pattern(*pattern),
                        size == width * height,
                        bits(&cells).len() == size,
                        forall|k: int| 0 <= k < i ==> bits(&cells)[k] == seed.alive_at(k),
                        forall|k: int| i <= k < size ==> !bits(&cells)[k],
                    decreases size - i,
                {
                    cells.set(i, pattern[i]);
                    i += 1;
                }
            },
        }
        assert(bits(&cells) =~= seed.grid(width as nat, height as nat).cells);
        Ok(Universe { width, height, cells })
    }

    /// The number of columns.
    pub fn width(&self) -> (width: u32)
        ensures
            width == self@.width,
    {
        self.width
    }

    /// The number of rows.
    pub fn height(&self) -> (height: u32)
        ensures
            height == self@.height,
    {
        self.height
    }

    /// The row-major position of the cell at `(row, column)`.
    pub fn get_index(&self, row: u32, column: u32) -> (index: usize)
        requires
            self.wf(),
            self@.in_bounds(row as int, column as int),
        ensures
            index == self@.index(row as int, column as int),
            index < self@.cells.len(),
    {
        proof {
            lemma_index_bounds(self@, row as int, column as int);
        }
        (row * self.width + column) as usize
    }

    /// Whether the cell at `(row, column)` is alive.
    pub fn cell_at(&self, row: u32, column: u32) -> (alive: bool)
        requires
            self.wf(),
            self@.in_bounds(row as int, column as int),
        ensures
            alive == self@.alive(row as int, column as int),
    {
        let idx = self.get_index(row, column);
        self.cells.contains(idx)
    }

    /// Flips the cell at `(row, column)` and leaves every other cell alone.
    pub fn toggle_cell(&mut self, row: u32, column: u32)
        requires
            old(self).wf(),
            old(self)@.in_bounds(row as int, column as int),
        ensures
            final(self).wf(),
            final(self)@ == old(self)@.toggled(row as int, column as int),
    {
        let idx = self.get_index(row, column);
        let current = self.cells.contains(idx);
        self.cells.set(idx, !current);
    }

    /// Marks every listed cell alive and leaves every other cell as it was.
    /// Listing a cell twice is the same as listing it once.
    pub fn set_cells(&mut self, cells: &[(u32, u32)])
        requires
            old(self).wf(),
            forall|k: int|
                0 <= k < cells@.len() ==> old(self)@.in_bounds(
                    (#[trigger] cells@[k]).0 as int,
                    cells@[k].1 as int,
                ),
        ensures
            final(self).wf(),
            final(self)@ == old(self)@.with_alive(cells@),
    {
        let ghost before = self@;
        assert(self@.cells =~= before.with_alive(cells@.take(0)).cells);
        let mut k: usize = 0;
        while k < cells.len()
            invariant
                k <= cells@.len(),
                self.wf(),
                before.wf(),
                forall|j: int|
                    0 <= j < cells@.len() ==> before.in_bounds(
                        (#[trigger] cells@[j]).0 as int,
                        cells@[j].1 as int,
                    ),
                self@ == before.with_alive(cells@.take(k as int)),
            decreases cells@.len() - k,
        {
            let (row, col) = cells[k];
            let idx = self.get_index(row, col);
            self.cells.set(idx, true);
            proof {
                lemma_with_alive_grows(before, cells@, k as int);
                assert(self@.cells =~= before.with_alive(cells@.take(k + 1)).cells);
            }
            k += 1;
        }
        assert(cells@.take(cells@.len() as int) =~= cells@);
    }

    /// Changes the number of columns and starts over with every cell dead.
    ///
    /// Fails, and leaves the board as it was, when the resized board would
    /// hold more than `u32::MAX` cells.
    pub fn set_width(&mut self, width: u32) -> (done: Result<(), GridError>)
        requires
            old(self).wf(),
        ensures
            final(self).wf(),
            fits(width as nat, old(self)@.height) ==> done is Ok,
            !fits(width as nat, old(self)@.height) ==> done == Err::<(), GridError>(
                GridError::TooLarge,
            ),
            done is Ok ==> final(self)@ == Grid::dead(width as nat, old(self)@.height),
            done is Err ==> final(self)@ == old(self)@,
    {
        match Self::allocate(width, self.height) {
            Ok(cells) => {
                *self = Universe { width, height: self.height, cells };
                Ok(())
            },
            Err(error) => Err(error),
        }
    }

    /// Changes the number of rows and starts over with every cell dead.
    ///
    /// Fails, and leaves the board as it was, when the resized board would
    /// hold more than `u32::MAX` cells.
    pub fn set_height(&mut self, height: u32) -> (done: Result<(), GridError>)
        requires
            old(self).wf(),
        ensures
            final(self).wf(),
            fits(old(self)@.width, height as nat) ==> done is Ok,
            !fits(old(self)@.width, height as nat) ==> done == Err::<(), GridError>(
                GridError::TooLarge,
            ),
            done is Ok ==> final(self)@ == Grid::dead(old(self)@.width, height as nat),
            done is Err ==> final(self)@ == old(self)@,
    {
        match Self::allocate(self.width, height) {
            Ok(cells) => {
                *self = Universe { width: self.width, height, cells };
                Ok(())
            },
            Err(error) => Err(error),
        }
    }

    /// Counts the live cells among the eight around `(row, column)`, wrapping
    /// at the edges of the board.
    pub fn live_neighbor_count(&self, row: u32, column: u32) -> (count: u8)
        requires
            self.wf(),
            self@.in_bounds(row as int, column as int),
        ensures
            count == self@.live_neighbors(row as int, column as int),
    {
        proof {
            lemma_ring_bounds(row as int, self.height as int);
            lemma_ring_bounds(column as int, self.width as int);
        }
        let mut count: u8 = 0;

        let north = if row == 0 {
            self.height - 1
        } else {
            row - 1
        };

        let south = if row == self.height - 1 {
            0
        } else {
            row + 1
        };

        let west = if column == 0 {
            self.width - 1
        } else {
            column - 1
        };

        let east = if column == self.width - 1 {
            0
        } else {
            column + 1
        };

        let nw = self.get_index(north, west);
        if self.cells.contains(nw) {
            count += 1;
        }

        let n = self.get_index(north, column);
        if self.cells.contains(n) {
            count += 1;
        }

        let ne = self.get_index(north, east);
        if self.cells.contains(ne) {
            count += 1;
        }

        let w = self.get_index(row, west);
        if self.cells.contains(w) {
            count += 1;
        }

        let e = self.get_index(row, east);
        if self.cells.contains(e) {
            count += 1;
        }

        let sw = self.get_index(south, west);
        if self.cells.contains(sw) {
            count += 1;
        }

        let s = self.get_index(south, column);
        if self.cells.contains(s) {
            count += 1;
        }

        let se = self.get_index(south, east);
        if self.cells.contains(se) {
            count += 1;
        }

        count
    }

    /// Advances the board by one generation. Every cell of the new generation
    /// is computed from the old one: the result is built in a fresh buffer
    /// that replaces the cells once it is complete.
    pub fn tick(&mut self)
        requires
            old(self).wf(),
        ensures
            final(self).wf(),
            final(self)@ == old(self)@.step(),
    {
        let mut next = self.cells.clone();
        let ghost before = self@;

        let mut row: u32 = 0;
        while row < self.height
            invariant
                before == self@,
                self.wf(),
                row <= self.height,
                bits(&next).len() == before.cells.len(),
                forall|i: int|
                    0 <= i < row * self.width ==> bits(&next)[i] == before.step().cells[i],
            decreases self.height - row,
        {
            let mut col: u32 = 0;
            while col < self.width
                invariant
                    before == self@,
                    self.wf(),
                    row < self.height,
                    col <= self.width,
                    bits(&next).len() == before.cells.len(),
                    forall|i: int|
                        0 <= i < row * self.width + col ==> bits(&next)[i]
                            == before.step().cells[i],
                decreases self.width - col,
            {
                let idx = self.get_index(row, col);
                let cell = self.cells.contains(idx);
                let live_neighbors = self.live_neighbor_count(row, col);

                let next_cell = if cell {
                    live_neighbors == 2 || live_neighbors == 3
                } else {
                    live_neighbors == 3
                };

                proof {
                    lemma_index_bounds(before, row as int, col as int);
                }
                next.set(idx, next_cell);
                col += 1;
            }
            proof {
                assert((row + 1) * self.width == row * self.width + self.width)
                    by (nonlinear_arith);
            }
            row += 1;
        }

        proof {
            assert(bits(&next) =~= before.step().cells);
        }
        self.cells = next;
    }

    /// The liveness of every cell in row-major order.
    pub fn get_cells(&self) -> (snapshot: Vec<bool>)
        requires
            self.wf(),
        ensures
            snapshot@ == self@.cells,
    {
        let size = self.cells.len();
        let mut snapshot: Vec<bool> = Vec::new();
        let mut i: usize = 0;
        while i < size
            invariant
                i <= size,
                size == bits(&self.cells).len(),
                snapshot@ == bits(&self.cells).take(i as int),
            decreases size - i,
        {
            snapshot.push(self.cells.contains(i));
            assert(snapshot@ =~= bits(&self.cells).take(i + 1));
            i += 1;
        }
        assert(snapshot@ =~= bits(&self.cells));
        snapshot
    }

    /// The packed storage of the cells, borrowed read-only: 32 cells to a
    /// block in row-major order, lowest bit first.
    pub fn cells(&self) -> (blocks: &[u32])
        ensures
            packs(blocks@, self@.cells),
    {
        self.cells.as_slice()
    }

    /// Draws the board as text: one line per row, top row first, each line a
    /// glyph per cell (a filled square for a live cell, a hollow one for a
    /// dead cell) and a newline.
    pub fn render(&self) -> (text: String)
        requires
            self.wf(),
        ensures
            text@ == self@.rendered(),
    {
        let mut text = String::new();
        let mut row: u32 = 0;
        while row < self.height
            invariant
                self.wf(),
                row <= self.height,
                text@ == self@.text(row as nat),
            decreases self.height - row,
        {
            let ghost above = text@;
            let mut col: u32 = 0;
            while col < self.width
                invariant
                    self.wf(),
                    row < self.height,
                    col <= self.width,
                    text@ == above + Seq::new(
                        col as nat,
                        |column: int| glyph(self@.alive(row as int, column)),
                    ),
                decreases self.width - col,
            {
                proof {
                    reveal_strlit("\u{25FC}");
                    reveal_strlit("\u{25FB}");
                }
                let ghost line = text@;
                let idx = self.get_index(row, col);
                if self.cells.contains(idx) {
                    text.append("\u{25FC}");
                } else {
                    text.append("\u{25FB}");
                }
                assert(text@ =~= line.push(glyph(self@.alive(row as int, col as int))));
                col += 1;
                assert(text@ =~= above + Seq::new(
                    col as nat,
                    |column: int| glyph(self@.alive(row as int, column)),
                ));
            }
            proof {
                reveal_strlit("\n");
            }
            text.append("\n");
            row += 1;
            assert(text@ =~= above + self@.row_text(row - 1));
        }
        text
    }
}

} // verus!
