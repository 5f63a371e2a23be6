//! The mathematical model of the grid.
//!
//! A [`Grid`] is the value that a universe stands for: its two dimensions
//! and the state of its cells in row-major order. Everything the executable
//! code promises is phrased in terms of the functions defined here.

use vstd::prelude::*;

verus! {

/// The glyph drawn for a live cell.
pub const LIVE_GLYPH: char = '\u{25FB}';

/// The glyph drawn for a dead cell.
pub const DEAD_GLYPH: char = '\u{25FC}';

/// A grid of cells as a mathematical value.
pub struct Grid {
    /// Number of columns.
    pub width: nat,
    /// Number of rows.
    pub height: nat,
    /// Cell states, row after row; `true` is live.
    pub cells: Seq<bool>,
}

/// The fate of one cell: a live cell survives with two or three live
/// neighbors, a dead cell comes to life with exactly three.
pub open spec fn next_state(alive: bool, neighbors: nat) -> bool {
    if alive {
        neighbors == 2 || neighbors == 3
    } else {
        neighbors == 3
    }
}

impl Grid {
    /// The storage holds exactly one cell per position, and every position
    /// has an index that fits in thirty-two bits.
    pub open spec fn wf(self) -> bool {
        &&& self.cells.len() == self.width * self.height
        &&& self.width * self.height <= u32::MAX
    }

    /// Whether `(row, col)` names a cell of this grid.
    pub open spec fn contains(self, row: int, col: int) -> bool {
        0 <= row < self.height && 0 <= col < self.width
    }

    /// Position of cell `(row, col)` in the row-major storage.
    pub open spec fn index(self, row: int, col: int) -> int {
        row * self.width + col
    }

    /// Whether the cell at `(row, col)` is live.
    pub open spec fn alive(self, row: int, col: int) -> bool {
        self.cells[self.index(row, col)]
    }

    /// What the cell reached from `(row, col)` by going `dr` rows down and
    /// `dc` columns right, wrapping at the edges, adds to the neighbor
    /// count: one if it is live, nothing if it is dead. The pair of zero
    /// steps is the cell itself and adds nothing.
    pub open spec fn neighbor(self, row: int, col: int, dr: int, dc: int) -> nat {
        if dr == 0 && dc == 0 {
            0
        } else if self.alive((row + dr) % (self.height as int), (col + dc) % (self.width as int)) {
            1
        } else {
            0
        }
    }

    /// Number of live neighbors of `(row, col)` on the torus: the sum over
    /// the eight pairs of steps other than the middle one.
    pub open spec fn live_neighbors(self, row: int, col: int) -> nat {
        let up = self.height - 1;
        let left = self.width - 1;
        self.neighbor(row, col, up, left) + self.neighbor(row, col, up, 0) + self.neighbor(
            row,
            col,
            up,
            1,
        ) + self.neighbor(row, col, 0, left) + self.neighbor(row, col, 0, 1) + self.neighbor(
            row,
            col,
            1,
            left,
        ) + self.neighbor(row, col, 1, 0) + self.neighbor(row, col, 1, 1)
    }

    /// The next generation: every cell is decided from the current grid
    /// alone, so no cell sees another cell's new state.
    pub open spec fn step(self) -> Grid {
        Grid {
            width: self.width,
            height: self.height,
            cells: Seq::new(
                self.cells.len(),
                |i: int|
                    next_state(
                        self.cells[i],
                        self.live_neighbors(i / (self.width as int), i % (self.width as int)),
                    ),
            ),
        }
    }

    /// The grid after `n` generations.
    pub open spec fn steps(self, n: nat) -> Grid
        decreases n,
    {
        if n == 0 {
            self
        } else {
            self.steps((n - 1) as nat).step()
        }
    }

    /// The grid with the cell at `(row, col)` flipped.
    pub open spec fn toggled(self, row: int, col: int) -> Grid {
        Grid {
            width: self.width,
            height: self.height,
            cells: self.cells.update(self.index(row, col), !self.alive(row, col)),
        }
    }

    /// Whether some pair of `pairs` names the cell stored at `i`.
    pub open spec fn listed(self, pairs: Seq<(u32, u32)>, i: int) -> bool {
        exists|k: int|
            0 <= k < pairs.len() && #[trigger] self.index(pairs[k].0 as int, pairs[k].1 as int)
                == i
    }

    /// The grid with every cell named in `pairs` made live and all others
    /// left as they are.
    pub open spec fn with_live(self, pairs: Seq<(u32, u32)>) -> Grid {
        Grid {
            width: self.width,
            height: self.height,
            cells: Seq::new(self.cells.len(), |i: int| self.cells[i] || self.listed(pairs, i)),
        }
    }

    /// The grid of the given dimensions whose cells are taken from `seed` in
    /// row-major order; a cell for which `seed` has no entry is dead.
    pub open spec fn seeded(width: nat, height: nat, seed: Seq<bool>) -> Grid {
        Grid {
            width,
            height,
            cells: Seq::new(width * height, |i: int| i < seed.len() && seed[i]),
        }
    }

    /// The grid of the given dimensions whose only live cells are the two
    /// by two block with its upper left corner at `(row, col)`.
    pub open spec fn block_at(width: nat, height: nat, row: int, col: int) -> Grid {
        Grid {
            width,
            height,
            cells: Seq::new(
                width * height,
                |i: int|
                    row <= i / (width as int) <= row + 1 && col <= i % (width as int) <= col + 1,
            ),
        }
    }

    /// The grid of the same dimensions with every cell dead.
    pub open spec fn cleared(self) -> Grid {
        Grid {
            width: self.width,
            height: self.height,
            cells: Seq::new(self.width * self.height, |i: int| false),
        }
    }

    /// The character at position `p` of the text picture: each row is
    /// `width` glyphs followed by a line feed.
    pub open spec fn glyph_at(self, p: int) -> char {
        let line = self.width as int + 1;
        if p % line == self.width {
            '\n'
        } else if self.alive(p / line, p % line) {
            LIVE_GLYPH
        } else {
            DEAD_GLYPH
        }
    }

    /// The text picture of the grid: one glyph per cell in row-major order
    /// and a line feed after each row.
    pub open spec fn picture(self) -> Seq<char> {
        Seq::new(self.height * (self.width + 1), |p: int| self.glyph_at(p))
    }
}

/// A cell inside the grid has its index inside the storage.
pub proof fn lemma_index_in_range(g: Grid, row: int, col: int)
    requires
        g.contains(row, col),
    ensures
        0 <= g.index(row, col) < g.width * g.height,
{
    assert(row * g.width + g.width <= g.height * g.width) by (nonlinear_arith)
        requires
            0 <= row < g.height,
    ;
    assert(0 <= row * g.width) by (nonlinear_arith)
        requires
            0 <= row,
    ;
    assert(g.height * g.width == g.width * g.height) by (nonlinear_arith);
}

/// The row and the column of a cell are recovered from its index by
/// dividing by the width.
pub proof fn lemma_index_splits(g: Grid, row: int, col: int)
    requires
        g.contains(row, col),
    ensures
        g.index(row, col) / (g.width as int) == row,
        g.index(row, col) % (g.width as int) == col,
{
    vstd::arithmetic::div_mod::lemma_fundamental_div_mod_converse(
        g.index(row, col),
        g.width as int,
        row,
        col,
    );
}

/// Every index of the storage is the index of exactly the cell found by
/// dividing it by the width.
pub proof fn lemma_index_joins(g: Grid, i: int)
    requires
        0 <= i < g.width * g.height,
    ensures
        g.contains(i / (g.width as int), i % (g.width as int)),
        g.index(i / (g.width as int), i % (g.width as int)) == i,
{
    let w = g.width as int;
    let h = g.height as int;
    assert(w > 0) by (nonlinear_arith)
        requires
            0 <= i < w * h,
            w >= 0,
    ;
    vstd::arithmetic::div_mod::lemma_fundamental_div_mod(i, w);
    vstd::arithmetic::div_mod::lemma_mod_bound(i, w);
    let q = i / w;
    assert(w * q == q * w) by (nonlinear_arith);
    assert(0 <= q < h) by (nonlinear_arith)
        requires
            0 <= i < w * h,
            w > 0,
            i == q * w + i % w,
            0 <= i % w < w,
    ;
}

/// In the text picture, position `row * (width + 1) + col` belongs to row
/// `row` and stands `col` characters into it.
pub proof fn lemma_picture_position(g: Grid, row: int, col: int)
    requires
        0 <= row < g.height,
        0 <= col <= g.width,
    ensures
        0 <= row * (g.width + 1) + col < g.height * (g.width + 1),
        (row * (g.width + 1) + col) / (g.width as int + 1) == row,
        (row * (g.width + 1) + col) % (g.width as int + 1) == col,
{
    let line = g.width as int + 1;
    vstd::arithmetic::div_mod::lemma_fundamental_div_mod_converse(
        row * line + col,
        line,
        row,
        col,
    );
    assert(row * line + line <= g.height * line) by (nonlinear_arith)
        requires
            0 <= row < g.height,
            line > 0,
    ;
    assert(0 <= row * line) by (nonlinear_arith)
        requires
            0 <= row,
            line > 0,
    ;
}

} // verus!
