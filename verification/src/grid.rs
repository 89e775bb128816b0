//! The mathematical model of a universe: a rectangle of cells wrapped into a
//! torus, and what one generation does to it.

use vstd::arithmetic::div_mod::{lemma_fundamental_div_mod_converse, lemma_mod_bound};
use vstd::prelude::*;

verus! {

/// A grid of `height` rows of `width` cells each, stored row by row: the cell in
/// row `row` and column `col` is `cells[row * width + col]`, and it is alive iff
/// that entry is `true`.
pub struct Grid {
    pub width: nat,
    pub height: nat,
    pub cells: Seq<bool>,
}

/// The rule of the game: whether a cell is alive in the next generation, given
/// whether it is alive now and how many of its neighbours are.
///
/// A live cell survives with two or three live neighbours; a dead cell comes to
/// life with exactly three.
pub open spec fn alive_next(alive: bool, live_neighbors: nat) -> bool {
    if alive {
        live_neighbors == 2 || live_neighbors == 3
    } else {
        live_neighbors == 3
    }
}

/// The symbol that stands for a cell in the textual picture of a grid: a filled
/// square for a live cell, a hollow one for a dead cell.
pub open spec fn glyph(alive: bool) -> char {
    if alive {
        '\u{25FC}'
    } else {
        '\u{25FB}'
    }
}

/// The starting pattern of a new universe: the cell at position `i` is alive
/// iff `i` is a multiple of 2 or of 7.
pub open spec fn seed_pattern(i: int) -> bool {
    i % 2 == 0 || i % 7 == 0
}

impl Grid {
    /// Both dimensions are positive and there is exactly one entry per cell.
    pub open spec fn wf(self) -> bool {
        &&& 0 < self.width
        &&& 0 < self.height
        &&& self.cells.len() == self.width * self.height
    }

    /// Whether `(row, col)` names a cell of this grid.
    pub open spec fn has(self, row: int, col: int) -> bool {
        0 <= row < self.height && 0 <= col < self.width
    }

    /// The position of cell `(row, col)` in `cells`.
    pub open spec fn index(self, row: int, col: int) -> int {
        row * self.width + col
    }

    /// Whether cell `(row, col)` is alive.
    pub open spec fn alive(self, row: int, col: int) -> bool {
        self.cells[self.index(row, col)]
    }

    /// What the offset `(dr, dc)` adds to the neighbour count of `(row, col)`: 1
    /// if the cell that lies `dr` rows and `dc` columns further on, wrapping
    /// around both edges, is alive. The offset `(0, 0)` is the cell itself and
    /// adds nothing.
    pub open spec fn neighbor(self, row: int, col: int, dr: int, dc: int) -> nat {
        if dr == 0 && dc == 0 {
            0
        } else if self.alive((row + dr) % (self.height as int), (col + dc) % (self.width as int)) {
            1
        } else {
            0
        }
    }

    /// The sum of `neighbor` over the three column offsets `width - 1` (one to
    /// the left, after wrapping), `0` and `1`, for one row offset `dr`.
    pub open spec fn neighbors_in_band(self, row: int, col: int, dr: int) -> nat {
        self.neighbor(row, col, dr, self.width - 1) + self.neighbor(row, col, dr, 0)
            + self.neighbor(row, col, dr, 1)
    }

    /// The number of live neighbours of `(row, col)`: the sum of `neighbor` over
    /// the row offsets `height - 1` (one up, after wrapping), `0` and `1` and the
    /// same three column offsets.
    ///
    /// On a grid with at least three rows and three columns these are the eight
    /// distinct cells around `(row, col)`. On a narrower grid several offsets
    /// reach the same cell, which then counts once per offset, and where a
    /// dimension is 1 the offset `height - 1` or `width - 1` is itself 0.
    pub open spec fn live_neighbors(self, row: int, col: int) -> nat {
        self.neighbors_in_band(row, col, self.height - 1) + self.neighbors_in_band(row, col, 0)
            + self.neighbors_in_band(row, col, 1)
    }

    /// The next generation: every cell is judged by `alive_next` on the grid as
    /// it is now.
    pub open spec fn step(self) -> Grid {
        Grid {
            width: self.width,
            height: self.height,
            cells: Seq::new(
                self.cells.len(),
                |i: int|
                    alive_next(
                        self.cells[i],
                        self.live_neighbors(i / (self.width as int), i % (self.width as int)),
                    ),
            ),
        }
    }

    /// The grid of the given dimensions in which every cell is dead.
    pub open spec fn blank(width: nat, height: nat) -> Grid {
        Grid { width, height, cells: Seq::new(width * height, |i: int| false) }
    }

    /// The grid of the given dimensions that holds the starting pattern.
    pub open spec fn seeded(width: nat, height: nat) -> Grid {
        Grid { width, height, cells: Seq::new(width * height, |i: int| seed_pattern(i)) }
    }

    /// This grid with the state of cell `(row, col)` inverted.
    pub open spec fn toggled(self, row: int, col: int) -> Grid {
        Grid {
            width: self.width,
            height: self.height,
            cells: self.cells.update(self.index(row, col), !self.alive(row, col)),
        }
    }

    /// Whether position `i` of `cells` is that of one of the listed
    /// `(row, column)` pairs.
    pub open spec fn listed(self, coords: Seq<(u32, u32)>, i: int) -> bool {
        exists|k: int|
            0 <= k < coords.len() && self.index((#[trigger] coords[k]).0 as int, coords[k].1 as int)
                == i
    }

    /// This grid with every listed cell alive and the others as they were.
    pub open spec fn with_alive(self, coords: Seq<(u32, u32)>) -> Grid {
        Grid {
            width: self.width,
            height: self.height,
            cells: Seq::new(self.cells.len(), |i: int| self.cells[i] || self.listed(coords, i)),
        }
    }

    /// This grid with its cells replaced by `cells`.
    pub open spec fn with_cells(self, cells: Seq<bool>) -> Grid {
        Grid { width: self.width, height: self.height, cells }
    }

    /// The textual picture: one line per row, `width` glyphs and then a line
    /// feed.
    pub open spec fn text(self) -> Seq<char> {
        let line = self.width as int + 1;
        Seq::new(
            self.height * (self.width + 1),
            |k: int|
                if k % line == self.width {
                    '\n'
                } else {
                    glyph(self.alive(k / line, k % line))
                },
        )
    }
}

/// Every cell of a well-formed grid has its own place in `cells`.
pub proof fn lemma_index_in_bounds(g: Grid, row: int, col: int)
    requires
        g.wf(),
        g.has(row, col),
    ensures
        0 <= g.index(row, col) < g.cells.len(),
{
    let w = g.width as int;
    let h = g.height as int;
    assert(0 <= row * w && row * w + w <= h * w) by (nonlinear_arith)
        requires
            0 <= row < h,
            0 < w,
    ;
}

/// The place of a cell in `cells` gives back its row and its column.
pub proof fn lemma_index_splits(g: Grid, row: int, col: int)
    requires
        g.wf(),
        g.has(row, col),
    ensures
        g.index(row, col) / (g.width as int) == row,
        g.index(row, col) % (g.width as int) == col,
{
    lemma_fundamental_div_mod_converse(g.index(row, col), g.width as int, row, col);
}

/// The cell that an offset reaches, after wrapping, is a cell of the grid.
pub proof fn lemma_wrapped_is_cell(g: Grid, row: int, col: int, dr: int, dc: int)
    requires
        g.wf(),
    ensures
        g.has((row + dr) % (g.height as int), (col + dc) % (g.width as int)),
{
    lemma_mod_bound(row + dr, g.height as int);
    lemma_mod_bound(col + dc, g.width as int);
}

/// What stands at each place of the textual picture: in line `row`, the glyph of
/// cell `(row, col)` at place `col`, and a line feed after the last glyph.
pub proof fn lemma_text_at(g: Grid, row: int, col: int)
    requires
        g.wf(),
        0 <= row < g.height,
        0 <= col <= g.width,
    ensures
        0 <= row * (g.width + 1) + col < g.text().len(),
        g.text()[row * (g.width + 1) + col] == (if col == g.width {
            '\n'
        } else {
            glyph(g.alive(row, col))
        }),
{
    let line = g.width as int + 1;
    let h = g.height as int;
    assert(0 <= row * line && row * line + line <= h * line) by (nonlinear_arith)
        requires
            0 <= row < h,
            0 < line,
    ;
    lemma_fundamental_div_mod_converse(row * line + col, line, row, col);
}

} // verus!
