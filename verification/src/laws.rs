//! Laws of the game: what holds of every grid, stated over the model and proved.

use crate::grid::{
    alive_next, glyph, lemma_index_in_bounds, lemma_index_splits, lemma_wrapped_is_cell, Grid,
};
use crate::universe::Universe;
use vstd::arithmetic::div_mod::{
    lemma_fundamental_div_mod, lemma_mod_bound, lemma_mod_self_0, lemma_small_mod,
};
use vstd::prelude::*;

verus! {

/// A well-formed universe holds exactly one cell for each place of its grid:
/// as many as its width times its height. Every constructor ends in such a
/// universe and every operation that changes one keeps it so.
pub proof fn lemma_one_cell_per_place(universe: Universe)
    requires
        universe.wf(),
    ensures
        universe@.cells.len() == universe@.width * universe@.height,
        0 < universe@.width,
        0 < universe@.height,
{
}

/// Two cells of a grid share a place in `cells` only if they are the same cell.
pub proof fn lemma_index_is_injective(g: Grid, row: int, col: int, other_row: int, other_col: int)
    requires
        g.wf(),
        g.has(row, col),
        g.has(other_row, other_col),
        g.index(row, col) == g.index(other_row, other_col),
    ensures
        row == other_row,
        col == other_col,
{
    lemma_index_splits(g, row, col);
    lemma_index_splits(g, other_row, other_col);
}

/// Every place in `cells` is that of a cell: the one whose row is the quotient
/// and whose column is the remainder of the place by the width.
pub proof fn lemma_place_is_cell(g: Grid, i: int)
    requires
        g.wf(),
        0 <= i < g.cells.len(),
    ensures
        g.has(i / (g.width as int), i % (g.width as int)),
        g.index(i / (g.width as int), i % (g.width as int)) == i,
{
    let w = g.width as int;
    let h = g.height as int;
    lemma_fundamental_div_mod(i, w);
    lemma_mod_bound(i, w);
    assert(0 <= i / w < h) by (nonlinear_arith)
        requires
            0 <= i < w * h,
            0 < w,
            i == w * (i / w) + i % w,
            0 <= i % w < w,
    ;
    assert(w * (i / w) == (i / w) * w) by (nonlinear_arith);
}

/// One generation keeps the dimensions, and decides each cell by the rule, from
/// its own state and the number of its live neighbours in the generation
/// before. In particular a cell none of whose neighbours is alive is dead
/// afterwards.
pub proof fn lemma_step_follows_rule(g: Grid, row: int, col: int)
    requires
        g.wf(),
        g.has(row, col),
    ensures
        g.step().wf(),
        g.step().width == g.width,
        g.step().height == g.height,
        g.step().alive(row, col) == alive_next(g.alive(row, col), g.live_neighbors(row, col)),
        g.live_neighbors(row, col) == 0 ==> !g.step().alive(row, col),
{
    lemma_index_in_bounds(g, row, col);
    lemma_index_splits(g, row, col);
}

/// No cell has more than eight live neighbours.
pub proof fn lemma_at_most_eight_neighbors(g: Grid, row: int, col: int)
    ensures
        g.live_neighbors(row, col) <= 8,
{
}

/// The grid has no edge. On a grid of at least two rows, the cell above a cell
/// of row 0 lies in the last row and the cell below a cell of the last row lies
/// in row 0; on a grid of at least two columns, the cell left of a cell of
/// column 0 lies in the last column and the cell right of a cell of the last
/// column lies in column 0.
pub proof fn lemma_edges_wrap(g: Grid, row: int, col: int)
    requires
        g.wf(),
        g.has(row, col),
    ensures
        g.height > 1 ==> {
            &&& g.neighbor(0, col, g.height - 1, 0) == (if g.alive(g.height - 1, col) {
                1nat
            } else {
                0nat
            })
            &&& g.neighbor(g.height - 1, col, 1, 0) == (if g.alive(0, col) {
                1nat
            } else {
                0nat
            })
        },
        g.width > 1 ==> {
            &&& g.neighbor(row, 0, 0, g.width - 1) == (if g.alive(row, g.width - 1) {
                1nat
            } else {
                0nat
            })
            &&& g.neighbor(row, g.width - 1, 0, 1) == (if g.alive(row, 0) {
                1nat
            } else {
                0nat
            })
        },
{
    let w = g.width as int;
    let h = g.height as int;
    lemma_mod_self_0(w);
    lemma_mod_self_0(h);
    lemma_small_mod(col as nat, g.width);
    lemma_small_mod(row as nat, g.height);
    lemma_small_mod((w - 1) as nat, g.width);
    lemma_small_mod((h - 1) as nat, g.height);
}

/// The grid has no edge at its corners: a live cell at `(0, 0)` is counted
/// among the neighbours of the three other corners `(height - 1, width - 1)`,
/// `(height - 1, 0)` and `(0, width - 1)`, and a live cell at any of those is
/// counted among the neighbours of `(0, 0)`.
pub proof fn lemma_corners_are_neighbors(g: Grid)
    requires
        g.wf(),
    ensures
        g.alive(0, 0) ==> {
            &&& g.live_neighbors(g.height - 1, g.width - 1) >= 1
            &&& g.live_neighbors(g.height - 1, 0) >= 1
            &&& g.live_neighbors(0, g.width - 1) >= 1
        },
        g.alive(g.height - 1, g.width - 1) ==> g.live_neighbors(0, 0) >= 1,
        g.alive(g.height - 1, 0) ==> g.live_neighbors(0, 0) >= 1,
        g.alive(0, g.width - 1) ==> g.live_neighbors(0, 0) >= 1,
{
    let w = g.width as int;
    let h = g.height as int;
    lemma_mod_self_0(w);
    lemma_mod_self_0(h);
    lemma_small_mod(0, g.width);
    lemma_small_mod(0, g.height);
    lemma_small_mod((w - 1) as nat, g.width);
    lemma_small_mod((h - 1) as nat, g.height);
    if g.alive(0, 0) {
        assert(g.neighbor(h - 1, w - 1, 1, 1) == 1);
        assert(g.neighbor(h - 1, 0, 1, 0) == 1);
        assert(g.neighbor(0, w - 1, 0, 1) == 1);
    }
    if g.alive(h - 1, w - 1) {
        if h == 1 && w == 1 {
            assert(g.neighbor(0, 0, 1, 1) == 1);
        } else {
            assert(g.neighbor(0, 0, h - 1, w - 1) == 1);
        }
    }
    if g.alive(h - 1, 0) {
        if h == 1 {
            assert(g.neighbor(0, 0, 1, 0) == 1);
        } else {
            assert(g.neighbor(0, 0, h - 1, 0) == 1);
        }
    }
    if g.alive(0, w - 1) {
        if w == 1 {
            assert(g.neighbor(0, 0, 0, 1) == 1);
        } else {
            assert(g.neighbor(0, 0, 0, w - 1) == 1);
        }
    }
}

/// Every cell of a blank grid is dead.
pub proof fn lemma_blank_is_dead(width: nat, height: nat, row: int, col: int)
    requires
        0 < width,
        0 < height,
        0 <= row < height,
        0 <= col < width,
    ensures
        Grid::blank(width, height).wf(),
        !Grid::blank(width, height).alive(row, col),
{
    lemma_index_in_bounds(Grid::blank(width, height), row, col);
}

/// On a blank grid no cell has a live neighbour.
pub proof fn lemma_blank_has_no_live_neighbors(width: nat, height: nat, row: int, col: int)
    requires
        0 < width,
        0 < height,
        0 <= row < height,
        0 <= col < width,
    ensures
        Grid::blank(width, height).live_neighbors(row, col) == 0,
{
    let g = Grid::blank(width, height);
    assert forall|dr: int, dc: int| g.neighbor(row, col, dr, dc) == 0 by {
        lemma_wrapped_is_cell(g, row, col, dr, dc);
        lemma_blank_is_dead(
            width,
            height,
            (row + dr) % (height as int),
            (col + dc) % (width as int),
        );
    }
}

/// The picture of a blank grid holds hollow squares and line feeds only: in
/// each line `width` hollow squares and then the line feed.
pub proof fn lemma_blank_text_is_hollow(width: nat, height: nat, k: int)
    requires
        0 < width,
        0 < height,
        0 <= k < Grid::blank(width, height).text().len(),
    ensures
        Grid::blank(width, height).text().len() == height * (width + 1),
        Grid::blank(width, height).text()[k] == (if k % (width as int + 1) == width {
            '\n'
        } else {
            glyph(false)
        }),
{
    let g = Grid::blank(width, height);
    let line = width as int + 1;
    let row = k / line;
    let col = k % line;
    lemma_fundamental_div_mod(k, line);
    assert(0 <= row < height) by (nonlinear_arith)
        requires
            0 <= k < height * line,
            0 < line,
            k == line * row + col,
            0 <= col < line,
    ;
    if col != width {
        lemma_blank_is_dead(width, height, row, col);
    }
}

/// Clearing a grid that is already blank changes nothing.
pub proof fn lemma_blank_again(width: nat, height: nat)
    ensures
        Grid::blank(Grid::blank(width, height).width, Grid::blank(width, height).height)
            == Grid::blank(width, height),
{
}

/// Toggling a cell inverts that cell and no other.
pub proof fn lemma_toggle_touches_one_cell(
    g: Grid,
    row: int,
    col: int,
    other_row: int,
    other_col: int,
)
    requires
        g.wf(),
        g.has(row, col),
        g.has(other_row, other_col),
    ensures
        g.toggled(row, col).wf(),
        g.toggled(row, col).alive(row, col) == !g.alive(row, col),
        (other_row != row || other_col != col) ==> g.toggled(row, col).alive(other_row, other_col)
            == g.alive(other_row, other_col),
{
    lemma_index_in_bounds(g, row, col);
    lemma_index_in_bounds(g, other_row, other_col);
    if g.index(row, col) == g.index(other_row, other_col) {
        lemma_index_is_injective(g, row, col, other_row, other_col);
    }
}

/// Toggling the same cell twice gives back the grid as it was.
pub proof fn lemma_toggle_twice(g: Grid, row: int, col: int)
    requires
        g.wf(),
        g.has(row, col),
    ensures
        g.toggled(row, col).toggled(row, col) == g,
{
    lemma_index_in_bounds(g, row, col);
    assert(g.toggled(row, col).toggled(row, col).cells =~= g.cells);
}

} // verus!
