//! The universe: a grid of cells kept one per bit, with the operations that
//! step, edit, query and draw it.

use crate::bitset::{bit_at, bits_of, packs};
use crate::grid::{
    lemma_index_in_bounds, lemma_index_splits, lemma_text_at, lemma_wrapped_is_cell, seed_pattern,
    Grid,
};
use fixedbitset::FixedBitSet;
use vstd::arithmetic::mul::lemma_mul_is_commutative;
use vstd::prelude::*;

verus! {

/// A Game of Life universe on a torus.
pub struct Universe {
    width: u32,
    height: u32,
    cells: FixedBitSet,
}

impl View for Universe {
    type V = Grid;

    /// The grid that this universe holds.
    closed spec fn view(&self) -> Grid {
        Grid {
            width: self.width as nat,
            height: self.height as nat,
            cells: bits_of(self.cells),
        }
    }
}

/// The part of a band's neighbour count that the first `done` column offsets
/// make up.
spec fn band_so_far(g: Grid, row: int, col: int, dr: int, done: int) -> nat {
    (if done > 0 {
        g.neighbor(row, col, dr, g.width - 1)
    } else {
        0
    }) + (if done > 1 {
        g.neighbor(row, col, dr, 0)
    } else {
        0
    }) + (if done > 2 {
        g.neighbor(row, col, dr, 1)
    } else {
        0
    })
}

/// The part of a cell's neighbour count that the first `done` row offsets make
/// up.
spec fn bands_so_far(g: Grid, row: int, col: int, done: int) -> nat {
    (if done > 0 {
        g.neighbors_in_band(row, col, g.height - 1)
    } else {
        0
    }) + (if done > 1 {
        g.neighbors_in_band(row, col, 0)
    } else {
        0
    }) + (if done > 2 {
        g.neighbors_in_band(row, col, 1)
    } else {
        0
    })
}

impl Universe {
    /// The grid is well formed and its cell count fits the 32-bit arithmetic in
    /// which positions are computed.
    pub open spec fn wf(&self) -> bool {
        &&& self@.wf()
        &&& self@.width * self@.height <= u32::MAX
    }

    /// The position of cell `(row, column)` in the bit set.
    pub fn get_index(&self, row: u32, column: u32) -> (index: usize)
        requires
            self.wf(),
            row < self@.height,
            column < self@.width,
        ensures
            index == self@.index(row as int, column as int),
            index < self@.cells.len(),
    {
        proof {
            lemma_index_in_bounds(self@, row as int, column as int);
        }
        (row * self.width + column) as usize
    }

    /// Counts the live neighbours of cell `(row, column)` on the torus.
    pub fn live_neighbor_count(&self, row: u32, column: u32) -> (count: u8)
        requires
            self.wf(),
            row < self@.height,
            column < self@.width,
        ensures
            count == self@.live_neighbors(row as int, column as int),
            count <= 8,
    {
        let mut count: u8 = 0;
        // [up, same, down] and [left, same, right]: one step back is taken by
        // adding the dimension less one, so that the remainder wraps it around.
        let delt_rows: [u32; 3] = [self.height - 1, 0, 1];
        let delt_cols: [u32; 3] = [self.width - 1, 0, 1];
        for a in 0..3usize
            invariant
                self.wf(),
                row < self@.height,
                column < self@.width,
                delt_rows@ == seq![(self.height - 1) as u32, 0u32, 1u32],
                delt_cols@ == seq![(self.width - 1) as u32, 0u32, 1u32],
                count == bands_so_far(self@, row as int, column as int, a as int),
                count <= 3 * a,
        {
            let delt_row = delt_rows[a];
            for b in 0..3usize
                invariant
                    self.wf(),
                    row < self@.height,
                    column < self@.width,
                    a < 3,
                    delt_row == delt_rows@[a as int],
                    delt_rows@ == seq![(self.height - 1) as u32, 0u32, 1u32],
                    delt_cols@ == seq![(self.width - 1) as u32, 0u32, 1u32],
                    count == bands_so_far(self@, row as int, column as int, a as int) + band_so_far(
                        self@,
                        row as int,
                        column as int,
                        delt_row as int,
                        b as int,
                    ),
                    count <= 3 * a + b,
            {
                let delt_col = delt_cols[b];
                if !(delt_row == 0 && delt_col == 0) {
                    let neighbor_row = ((row as u64 + delt_row as u64) % (self.height as u64)) as u32;
                    let neighbor_col = ((column as u64 + delt_col as u64) % (self.width as u64)) as u32;
                    proof {
                        lemma_wrapped_is_cell(
                            self@,
                            row as int,
                            column as int,
                            delt_row as int,
                            delt_col as int,
                        );
                    }
                    let index = self.get_index(neighbor_row, neighbor_col);
                    if bit_at(&self.cells, index) {
                        count += 1;
                    }
                }
            }
        }
        count
    }

    /// Advances the universe by one generation. Every cell is judged on the
    /// generation before, and the new generation replaces the old one as a whole.
    pub fn tick(&mut self)
        requires
            old(self).wf(),
        ensures
            final(self).wf(),
            final(self)@ == old(self)@.step(),
    {
        broadcast use vstd::arithmetic::mul::group_mul_basics;

        let mut next_state = FixedBitSet::with_capacity((self.width * self.height) as usize);
        for row in 0..self.height
            invariant
                *self == *old(self),
                self.wf(),
                bits_of(next_state).len() == self@.cells.len(),
                forall|i: int|
                    0 <= i < row * self@.width ==> bits_of(next_state)[i] == self@.step().cells[i],
        {
            for col in 0..self.width
                invariant
                    *self == *old(self),
                    self.wf(),
                    row < self@.height,
                    bits_of(next_state).len() == self@.cells.len(),
                    forall|i: int|
                        0 <= i < row * self@.width + col ==> bits_of(next_state)[i]
                            == self@.step().cells[i],
            {
                let curr_index = self.get_index(row, col);
                let curr_cell = bit_at(&self.cells, curr_index);

                let alive_neighbors = self.live_neighbor_count(row, col);

                proof {
                    lemma_index_splits(self@, row as int, col as int);
                }
                next_state.set(
                    curr_index,
                    match (curr_cell, alive_neighbors) {
                        (true, x) if x < 2 => false,
                        (true, 2) | (true, 3) => true,
                        (true, x) if x > 3 => false,
                        (false, 3) => true,
                        (otherwise, _) => otherwise,
                    },
                );
            }
            assert((row + 1) * self@.width == row * self@.width + self@.width) by (nonlinear_arith);
        }
        proof {
            lemma_mul_is_commutative(self.height as int, self.width as int);
        }
        assert(bits_of(next_state) =~= self@.step().cells);
        self.cells = next_state;
    }

    /// A universe of 64 by 64 cells that holds the starting pattern.
    pub fn new() -> (universe: Universe)
        ensures
            universe.wf(),
            universe@ == Grid::seeded(64, 64),
    {
        let width: u32 = 64;
        let height: u32 = 64;

        let size: usize = (width * height) as usize;
        let mut cells = FixedBitSet::with_capacity(size);

        for i in 0..size
            invariant
                bits_of(cells).len() == size,
                forall|j: int| 0 <= j < i ==> bits_of(cells)[j] == seed_pattern(j),
        {
            cells.set(i, i % 2 == 0 || i % 7 == 0);
        }
        assert(bits_of(cells) =~= Grid::seeded(64, 64).cells);

        Universe { width, height, cells }
    }

    /// A universe of 64 by 64 cells filled from `draws`, one draw per cell in
    /// row-major order: a cell is alive iff its draw is `true`. The caller makes
    /// the draws, each `true` with probability one half.
    pub fn new_random(draws: &[bool]) -> (universe: Universe)
        requires
            draws@.len() == 64 * 64,
        ensures
            universe.wf(),
            universe@ == (Grid { width: 64, height: 64, cells: draws@ }),
    {
        let width: u32 = 64;
        let height: u32 = 64;

        let size: usize = (width * height) as usize;
        let mut cells = FixedBitSet::with_capacity(size);

        for i in 0..size
            invariant
                draws@.len() == size,
                bits_of(cells).len() == size,
                forall|j: int| 0 <= j < i ==> bits_of(cells)[j] == draws@[j],
        {
            cells.set(i, draws[i]);
        }
        assert(bits_of(cells) =~= draws@);

        Universe { width, height, cells }
    }

    /// Draws the universe as text: one line per row, a filled square for a live
    /// cell and a hollow one for a dead cell, each line closed by a line feed.
    pub fn render(&self) -> (text: String)
        requires
            self.wf(),
        ensures
            text@ == self@.text(),
    {
        broadcast use vstd::arithmetic::mul::group_mul_basics;

        let ghost line = self@.width + 1;
        let mut text = String::new();
        assert(text@ =~= self@.text().take(0));
        for row in 0..self.height
            invariant
                self.wf(),
                line == self@.width + 1,
                text@ == self@.text().take(row * line),
        {
            for col in 0..self.width
                invariant
                    self.wf(),
                    row < self@.height,
                    line == self@.width + 1,
                    text@ == self@.text().take(row * line + col),
            {
                let idx = self.get_index(row, col);
                let symbol = if bit_at(&self.cells, idx) {
                    "\u{25FC}"
                } else {
                    "\u{25FB}"
                };
                text.append(symbol);
                proof {
                    reveal_strlit("\u{25FC}");
                    reveal_strlit("\u{25FB}");
                    lemma_text_at(self@, row as int, col as int);
                    assert(text@ =~= self@.text().take(row * line + col + 1));
                }
            }
            text.append("\n");
            proof {
                reveal_strlit("\n");
                lemma_text_at(self@, row as int, self@.width as int);
                assert((row + 1) * line == row * line + line) by (nonlinear_arith);
                assert(text@ =~= self@.text().take((row + 1) * line));
            }
        }
        proof {
            lemma_mul_is_commutative(self@.height as int, line as int);
            assert(text@ =~= self@.text());
        }
        text
    }

    /// The number of columns.
    pub fn width(&self) -> (width: u32)
        ensures
            width == self@.width,
    {
        self.width
    }

    /// The number of rows.
    pub fn height(&self) -> (height: u32)
        ensures
            height == self@.height,
    {
        self.height
    }

    /// The packed storage of the cells, 32 cells to a block, as the bit set
    /// keeps it. The slice borrows from the universe, so it cannot outlive a
    /// resize or any other change.
    pub fn cells(&self) -> (blocks: &[u32])
        ensures
            packs(blocks@, self@.cells),
    {
        self.cells.as_slice()
    }

    /// Sets the number of columns. Every cell of the resized universe is dead.
    pub fn set_width(&mut self, width: u32)
        requires
            old(self).wf(),
            0 < width,
            width * old(self)@.height <= u32::MAX,
        ensures
            final(self).wf(),
            final(self)@ == Grid::blank(width as nat, old(self)@.height),
    {
        proof {
            lemma_mul_is_commutative(self.height as int, width as int);
        }
        self.width = width;
        self.cells = FixedBitSet::with_capacity((self.height * width) as usize);
        assert(self@.cells =~= Grid::blank(width as nat, old(self)@.height).cells);
    }

    /// Sets the number of rows. Every cell of the resized universe is dead.
    pub fn set_height(&mut self, height: u32)
        requires
            old(self).wf(),
            0 < height,
            old(self)@.width * height <= u32::MAX,
        ensures
            final(self).wf(),
            final(self)@ == Grid::blank(old(self)@.width, height as nat),
    {
        proof {
            lemma_mul_is_commutative(height as int, self.width as int);
        }
        self.height = height;
        self.cells = FixedBitSet::with_capacity((height * self.width) as usize);
        assert(self@.cells =~= Grid::blank(old(self)@.width, height as nat).cells);
    }

    /// Inverts the state of cell `(row, column)` and leaves the others as they
    /// are.
    pub fn toggle_cell(&mut self, row: u32, column: u32)
        requires
            old(self).wf(),
            row < old(self)@.height,
            column < old(self)@.width,
        ensures
            final(self).wf(),
            final(self)@ == old(self)@.toggled(row as int, column as int),
    {
        let idx = self.get_index(row, column);
        self.cells.toggle(idx);
    }

    /// Makes every cell dead. The dimensions stay.
    pub fn reset(&mut self)
        requires
            old(self).wf(),
        ensures
            final(self).wf(),
            final(self)@ == Grid::blank(old(self)@.width, old(self)@.height),
    {
        proof {
            lemma_mul_is_commutative(self.height as int, self.width as int);
        }
        self.cells = FixedBitSet::with_capacity((self.height * self.width) as usize);
        assert(self@.cells =~= Grid::blank(old(self)@.width, old(self)@.height).cells);
    }

    /// Fills the universe anew from `draws`, one draw per cell in row-major
    /// order: a cell is alive iff its draw is `true`. The dimensions stay. The
    /// caller makes the draws, each `true` with probability one half.
    pub fn reinitialize(&mut self, draws: &[bool])
        requires
            old(self).wf(),
            draws@.len() == old(self)@.width * old(self)@.height,
        ensures
            final(self).wf(),
            final(self)@ == old(self)@.with_cells(draws@),
    {
        proof {
            lemma_mul_is_commutative(self.height as int, self.width as int);
        }
        let size: u32 = self.height * self.width();
        for i in 0..size
            invariant
                self.wf(),
                self@.width == old(self)@.width,
                self@.height == old(self)@.height,
                size == self@.cells.len(),
                size == draws@.len(),
                forall|j: int| 0 <= j < i ==> self@.cells[j] == draws@[j],
        {
            self.cells.set(i as usize, draws[i as usize]);
        }
        assert(self@.cells =~= draws@);
    }

    /// Makes each cell listed in `cells`, as `(row, column)`, alive. The other
    /// cells stay as they are.
    pub fn set_cells(&mut self, cells: &[(u32, u32)])
        requires
            old(self).wf(),
            forall|k: int|
                0 <= k < cells@.len() ==> old(self)@.has(
                    (#[trigger] cells@[k]).0 as int,
                    cells@[k].1 as int,
                ),
        ensures
            final(self).wf(),
            final(self)@ == old(self)@.with_alive(cells@),
    {
        assert(self@.cells =~= self@.with_alive(cells@.take(0)).cells);
        for n in 0..cells.len()
            invariant
                self.wf(),
                forall|k: int|
                    0 <= k < cells@.len() ==> old(self)@.has(
                        (#[trigger] cells@[k]).0 as int,
                        cells@[k].1 as int,
                    ),
                self@ == old(self)@.with_alive(cells@.take(n as int)),
        {
            let (row, col) = cells[n];
            assert(old(self)@.has(cells@[n as int].0 as int, cells@[n as int].1 as int));
            let idx = self.get_index(row, col);
            self.cells.set(idx, true);
            proof {
                let shorter = cells@.take(n as int);
                let longer = cells@.take(n + 1);
                let start = old(self)@;
                assert(longer[n as int] == cells@[n as int]);
                assert forall|i: int| 0 <= i < start.cells.len() implies start.listed(longer, i) == (
                start.listed(shorter, i) || i == idx) by {
                    if start.listed(shorter, i) {
                        let k = choose|k: int|
                            0 <= k < shorter.len() && start.index(
                                (#[trigger] shorter[k]).0 as int,
                                shorter[k].1 as int,
                            ) == i;
                        assert(longer[k] == shorter[k]);
                    }
                    if start.listed(longer, i) && i != idx {
                        let k = choose|k: int|
                            0 <= k < longer.len() && start.index(
                                (#[trigger] longer[k]).0 as int,
                                longer[k].1 as int,
                            ) == i;
                        assert(shorter[k] == longer[k]);
                    }
                }
                assert(self@.cells =~= start.with_alive(longer).cells);
            }
        }
        assert(cells@.take(cells@.len() as int) =~= cells@);
    }

    /// The dead and alive values of the entire universe.
    pub fn get_cells(&self) -> (cells: &FixedBitSet)
        ensures
            bits_of(*cells) == self@.cells,
    {
        &self.cells
    }
}

} // verus!
