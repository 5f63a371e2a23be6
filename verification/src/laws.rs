//! Laws of the grid: facts that hold of every grid and relate the
//! operations to one another.

use crate::grid::{lemma_index_in_range, lemma_index_joins, lemma_index_splits, Grid};
use vstd::prelude::*;

verus! {

/// Where one step along an axis of length `len` leads from coordinate `x`:
/// the step back wraps from the first coordinate to the last, the step
/// forward from the last to the first.
pub proof fn lemma_wrap(len: int, x: int)
    requires
        0 <= x < len,
    ensures
        (x + (len - 1)) % len == if x == 0 {
            len - 1
        } else {
            x - 1
        },
        (x + 0) % len == x,
        (x + 1) % len == if x + 1 == len {
            0
        } else {
            x + 1
        },
{
    if x == 0 {
        vstd::arithmetic::div_mod::lemma_fundamental_div_mod_converse(x + (len - 1), len, 0, len - 1);
    } else {
        vstd::arithmetic::div_mod::lemma_fundamental_div_mod_converse(x + (len - 1), len, 1, x - 1);
    }
    vstd::arithmetic::div_mod::lemma_fundamental_div_mod_converse(x, len, 0, x);
    if x + 1 == len {
        vstd::arithmetic::div_mod::lemma_fundamental_div_mod_converse(x + 1, len, 1, 0);
    } else {
        vstd::arithmetic::div_mod::lemma_fundamental_div_mod_converse(x + 1, len, 0, x + 1);
    }
}

/// Two cells of a grid share an index only if they are the same cell.
pub proof fn lemma_index_is_injective(g: Grid, row: int, col: int, other_row: int, other_col: int)
    requires
        g.contains(row, col),
        g.contains(other_row, other_col),
        g.index(row, col) == g.index(other_row, other_col),
    ensures
        row == other_row,
        col == other_col,
{
    lemma_index_splits(g, row, col);
    lemma_index_splits(g, other_row, other_col);
}

/// After a reset every cell reads dead, and the storage holds exactly
/// `width * height` cells.
pub proof fn lemma_cleared_is_dead(g: Grid, row: int, col: int)
    requires
        g.width * g.height <= u32::MAX,
        g.contains(row, col),
    ensures
        g.cleared().wf(),
        g.cleared().cells.len() == g.width * g.height,
        !g.cleared().alive(row, col),
{
    lemma_index_in_range(g, row, col);
}

/// The grid is a torus: the cell in the first row and first column has the
/// cell in the last row and last column as a neighbor, across the corner,
/// and the cell in the last row and first column as a neighbor, across the
/// top edge. When these are two different cells, both are counted.
pub proof fn lemma_corner_wraps(g: Grid)
    requires
        g.wf(),
        g.height >= 1,
        g.width >= 1,
    ensures
        g.alive(g.height - 1, g.width - 1) ==> g.live_neighbors(0, 0) >= 1,
        g.alive(g.height - 1, 0) ==> g.live_neighbors(0, 0) >= 1,
        g.width >= 2 && g.alive(g.height - 1, g.width - 1) && g.alive(g.height - 1, 0)
            ==> g.live_neighbors(0, 0) >= 2,
{
    let h = g.height as int;
    let w = g.width as int;
    lemma_wrap(h, 0);
    lemma_wrap(w, 0);
    if h == 1 {
        // The row below the only row is that row again.
        assert(g.neighbor(0, 0, 1, 1) == if g.alive(0, (0 + 1int) % w) { 1nat } else { 0nat });
        assert(g.neighbor(0, 0, 1, 0) == if g.alive(0, 0) { 1nat } else { 0nat });
        assert(g.neighbor(0, 0, 1, w - 1) == if g.alive(0, w - 1) { 1nat } else { 0nat });
    } else {
        assert(g.neighbor(0, 0, h - 1, w - 1) == if g.alive(h - 1, w - 1) { 1nat } else { 0nat });
        assert(g.neighbor(0, 0, h - 1, 0) == if g.alive(h - 1, 0) { 1nat } else { 0nat });
    }
}

/// With at least two rows and two columns the neighbor count has one term
/// for each of the eight directions: the cell one step away in that
/// direction, with coordinates taken modulo the dimensions.
pub proof fn lemma_neighbors_on_torus(g: Grid, row: int, col: int)
    requires
        g.wf(),
        g.height >= 2,
        g.width >= 2,
        g.contains(row, col),
    ensures
        g.live_neighbors(row, col) == g.neighbor(row, col, -1, -1) + g.neighbor(row, col, -1, 0)
            + g.neighbor(row, col, -1, 1) + g.neighbor(row, col, 0, -1) + g.neighbor(row, col, 0, 1)
            + g.neighbor(row, col, 1, -1) + g.neighbor(row, col, 1, 0) + g.neighbor(row, col, 1, 1),
{
    let h = g.height as int;
    let w = g.width as int;
    vstd::arithmetic::div_mod::lemma_mod_add_multiples_vanish(row - 1, h);
    vstd::arithmetic::div_mod::lemma_mod_add_multiples_vanish(col - 1, w);
}

/// Toggling a cell twice gives back the grid that was there before.
pub proof fn lemma_toggle_twice(g: Grid, row: int, col: int)
    requires
        g.wf(),
        g.contains(row, col),
    ensures
        g.toggled(row, col).toggled(row, col) == g,
{
    lemma_index_in_range(g, row, col);
    assert(g.toggled(row, col).toggled(row, col).cells =~= g.cells);
}

/// Setting cells is a union: afterwards a cell is live exactly when it
/// was live before or is one of the listed cells. No other cell changes.
pub proof fn lemma_with_live_is_union(g: Grid, pairs: Seq<(u32, u32)>, row: int, col: int)
    requires
        g.wf(),
        forall|k: int|
            0 <= k < pairs.len() ==> g.contains((#[trigger] pairs[k]).0 as int, pairs[k].1 as int),
        g.contains(row, col),
    ensures
        g.with_live(pairs).wf(),
        g.with_live(pairs).alive(row, col) == (g.alive(row, col) || exists|k: int|
            0 <= k < pairs.len() && (#[trigger] pairs[k]).0 == row && pairs[k].1 == col),
{
    lemma_index_in_range(g, row, col);
    let i = g.index(row, col);
    let named = exists|k: int|
        0 <= k < pairs.len() && (#[trigger] pairs[k]).0 == row && pairs[k].1 == col;
    if named {
        let k = choose|k: int|
            0 <= k < pairs.len() && (#[trigger] pairs[k]).0 == row && pairs[k].1 == col;
        assert(g.index(pairs[k].0 as int, pairs[k].1 as int) == i);
    }
    if g.listed(pairs, i) {
        let k = choose|k: int|
            0 <= k < pairs.len() && #[trigger] g.index(pairs[k].0 as int, pairs[k].1 as int) == i;
        lemma_index_is_injective(g, pairs[k].0 as int, pairs[k].1 as int, row, col);
    }
}

/// Which cells of a block grid are live.
proof fn lemma_block_cells(width: nat, height: nat, r: int, c: int, row: int, col: int)
    requires
        0 <= row < height,
        0 <= col < width,
    ensures
        Grid::block_at(width, height, r, c).alive(row, col) == (r <= row <= r + 1 && c <= col <= c
            + 1),
{
    let g = Grid::block_at(width, height, r, c);
    lemma_index_in_range(g, row, col);
    lemma_index_splits(g, row, col);
}

/// A two by two block on a grid of at least four rows and four columns is
/// a still life: the next generation is the same grid.
pub proof fn lemma_block_is_still(width: nat, height: nat, r: int, c: int)
    requires
        width >= 4,
        height >= 4,
        width * height <= u32::MAX,
        0 <= r,
        r + 1 < height,
        0 <= c,
        c + 1 < width,
    ensures
        Grid::block_at(width, height, r, c).step() == Grid::block_at(width, height, r, c),
{
    let g = Grid::block_at(width, height, r, c);
    let h = height as int;
    let w = width as int;
    assert forall|i: int| 0 <= i < g.cells.len() implies g.step().cells[i] == g.cells[i] by {
        lemma_index_joins(g, i);
        let row = i / w;
        let col = i % w;
        lemma_wrap(h, row);
        lemma_wrap(w, col);
        let up = (row + (h - 1)) % h;
        let down = (row + 1) % h;
        let left = (col + (w - 1)) % w;
        let right = (col + 1) % w;
        lemma_block_cells(width, height, r, c, up, left);
        lemma_block_cells(width, height, r, c, up, col);
        lemma_block_cells(width, height, r, c, up, right);
        lemma_block_cells(width, height, r, c, row, left);
        lemma_block_cells(width, height, r, c, row, col);
        lemma_block_cells(width, height, r, c, row, right);
        lemma_block_cells(width, height, r, c, down, left);
        lemma_block_cells(width, height, r, c, down, col);
        lemma_block_cells(width, height, r, c, down, right);
    }
    assert(g.step().cells =~= g.cells);
}

/// A two by two block on a grid of at least four rows and four columns
/// stays as it is through any number of generations.
pub proof fn lemma_block_stays(width: nat, height: nat, r: int, c: int, n: nat)
    requires
        width >= 4,
        height >= 4,
        width * height <= u32::MAX,
        0 <= r,
        r + 1 < height,
        0 <= c,
        c + 1 < width,
    ensures
        Grid::block_at(width, height, r, c).steps(n) == Grid::block_at(width, height, r, c),
    decreases n,
{
    if n > 0 {
        lemma_block_stays(width, height, r, c, (n - 1) as nat);
        lemma_block_is_still(width, height, r, c);
    }
}

} // verus!
