//! The universe: a grid of cells stored one bit per cell, and the
//! operations that read it, change it, and advance it by a generation.

use crate::bitset::{bit_at, bits_of, packs};
use crate::grid::{
    lemma_index_in_range, lemma_index_splits, lemma_picture_position, next_state, Grid,
    DEAD_GLYPH, LIVE_GLYPH,
};
use fixedbitset::FixedBitSet;
use vstd::prelude::*;

verus! {

/// A Game of Life universe on a torus.
///
/// The two dimensions can be changed without touching the storage (see
/// [`Universe::set_width`]); until the storage is rebuilt the universe is
/// not well formed, and only the operations without a well-formedness
/// precondition may be used on it.
pub struct Universe {
    width: u32,
    height: u32,
    cells: FixedBitSet,
}

impl View for Universe {
    type V = Grid;

    closed spec fn view(&self) -> Grid {
        Grid {
            width: self.width as nat,
            height: self.height as nat,
            cells: bits_of(self.cells),
        }
    }
}

/// The three steps that can be taken along an axis of length `len`, by
/// position: one back, none, one forward. The step back is written
/// `len - 1`, which lands on the same cell once reduced modulo `len` and
/// never makes a coordinate negative.
spec fn offset(len: nat, k: int) -> int {
    if k == 0 {
        len - 1
    } else if k == 1 {
        0
    } else {
        1
    }
}

/// The sum of the first `k` of the nine neighbor terms of `(row, col)`,
/// taken in scan order over the pairs of steps.
spec fn counted(g: Grid, row: int, col: int, k: nat) -> nat
    decreases k,
{
    if k == 0 {
        0
    } else {
        counted(g, row, col, (k - 1) as nat) + g.neighbor(
            row,
            col,
            offset(g.height, (k - 1) / 3),
            offset(g.width, (k - 1) % 3),
        )
    }
}

/// All nine terms together are the neighbor count, and no prefix of them
/// exceeds its own length.
proof fn lemma_counted(g: Grid, row: int, col: int)
    ensures
        counted(g, row, col, 9) == g.live_neighbors(row, col),
        forall|k: nat| k <= 9 ==> #[trigger] counted(g, row, col, k) <= k,
{
    reveal_with_fuel(counted, 10);
}

/// Decides the next state of a cell from its current state and the number
/// of its live neighbors.
pub fn next_cell(alive: bool, live_neighbors: u8) -> (next: bool)
    ensures
        next == next_state(alive, live_neighbors as nat),
{
    match (alive, live_neighbors) {
        (true, 2) | (true, 3) => true,
        (true, _) => false,
        (false, 3) => true,
        (false, _) => false,
    }
}

impl Universe {
    /// Whether the storage agrees with the dimensions.
    pub open spec fn wf(&self) -> bool {
        self@.wf()
    }

    /// Tests at run time whether the storage agrees with the dimensions.
    pub fn is_well_formed(&self) -> (ok: bool)
        ensures
            ok == self.wf(),
    {
        assert(self.width * self.height <= 0xffff_ffff * 0xffff_ffff) by (nonlinear_arith)
            requires
                self.width <= 0xffff_ffff,
                self.height <= 0xffff_ffff,
        ;
        let count: u64 = (self.width as u64) * (self.height as u64);
        count <= 0xffff_ffff && self.cells.len() as u64 == count
    }

    /// Creates a universe of the given dimensions and fills it from `seed`
    /// in row-major order: cell `i` is live exactly when `seed[i]` is
    /// `true`. A cell for which `seed` has no entry is dead.
    ///
    /// Zero is a legal dimension and gives a universe without cells. The
    /// number of cells must fit in thirty-two bits.
    pub fn new(width: u32, height: u32, seed: &[bool]) -> (universe: Universe)
        requires
            width * height <= u32::MAX,
        ensures
            universe@ == Grid::seeded(width as nat, height as nat, seed@),
            universe.wf(),
    {
        let size = (width * height) as usize;
        let mut cells = FixedBitSet::with_capacity(size);
        let mut i: usize = 0;
        while i < size
            invariant
                i <= size,
                bits_of(cells).len() == size,
                forall|k: int| 0 <= k < i ==> bits_of(cells)[k] == (k < seed@.len() && seed@[k]),
            decreases size - i,
        {
            if i < seed.len() && seed[i] {
                cells.set(i, true);
            } else {
                cells.set(i, false);
            }
            i += 1;
        }
        proof {
            assert(bits_of(cells) =~= Grid::seeded(width as nat, height as nat, seed@).cells);
        }
        Universe { width, height, cells }
    }

    /// Number of columns.
    pub fn width(&self) -> (w: u32)
        ensures
            w == self@.width,
    {
        self.width
    }

    /// Number of rows.
    pub fn height(&self) -> (h: u32)
        ensures
            h == self@.height,
    {
        self.height
    }

    /// Records a new number of columns. The storage is left as it is, so
    /// the universe is in general no longer well formed afterwards: follow
    /// with [`Universe::reset_universe`] to rebuild it.
    pub fn set_width(&mut self, w: u32)
        ensures
            final(self)@ == (Grid { width: w as nat, ..old(self)@ }),
    {
        self.width = w;
    }

    /// Records a new number of rows. The storage is left as it is, so the
    /// universe is in general no longer well formed afterwards: follow with
    /// [`Universe::reset_universe`] to rebuild it.
    pub fn set_height(&mut self, h: u32)
        ensures
            final(self)@ == (Grid { height: h as nat, ..old(self)@ }),
    {
        self.height = h;
    }

    /// Rebuilds the storage for the current dimensions with every cell
    /// dead. The number of cells must fit in thirty-two bits.
    pub fn reset_universe(&mut self)
        requires
            old(self)@.width * old(self)@.height <= u32::MAX,
        ensures
            final(self)@ == old(self)@.cleared(),
            final(self).wf(),
    {
        let size = (self.width * self.height) as usize;
        self.cells = FixedBitSet::with_capacity(size);
        proof {
            assert(self@.cells =~= old(self)@.cleared().cells);
        }
    }

    /// The cells as a bit set, for reading: bit `i` is the cell at index `i`.
    pub fn get_cells(&self) -> (cells: &FixedBitSet)
        ensures
            bits_of(*cells) == self@.cells,
    {
        &self.cells
    }

    /// The storage words behind the cells, for reading: the cells packed
    /// thirty-two to a word, lowest bit first.
    pub fn cells(&self) -> (words: &[u32])
        ensures
            packs(words@, self@.cells),
    {
        self.cells.as_slice()
    }

    /// Draws the universe as text: one glyph per cell, row after row, with
    /// a line feed after each row.
    pub fn render(&self) -> (text: String)
        requires
            self.wf(),
        ensures
            text@ == self@.picture(),
    {
        let mut text = String::new();
        let mut row: u32 = 0;
        while row < self.height
            invariant
                self.wf(),
                row <= self.height,
                text@.len() == row * (self@.width + 1),
                forall|p: int| 0 <= p < text@.len() ==> text@[p] == self@.glyph_at(p),
            decreases self.height - row,
        {
            let mut col: u32 = 0;
            while col < self.width
                invariant
                    self.wf(),
                    row < self.height,
                    col <= self.width,
                    text@.len() == row * (self@.width + 1) + col,
                    forall|p: int| 0 <= p < text@.len() ==> text@[p] == self@.glyph_at(p),
                decreases self.width - col,
            {
                let idx = self.get_index(row, col);
                let symbol = if bit_at(&self.cells, idx) {
                    LIVE_GLYPH
                } else {
                    DEAD_GLYPH
                };
                proof {
                    lemma_picture_position(self@, row as int, col as int);
                }
                text.push(symbol);
                col += 1;
            }
            proof {
                lemma_picture_position(self@, row as int, col as int);
                assert(row * (self@.width + 1) + self@.width + 1 == (row + 1) * (self@.width + 1))
                    by (nonlinear_arith);
            }
            text.push('\n');
            row += 1;
        }
        proof {
            assert(row * (self@.width + 1) == self@.height * (self@.width + 1)) by (nonlinear_arith)
                requires
                    row == self@.height,
            ;
            assert(text@ =~= self@.picture());
        }
        text
    }

    /// Position of cell `(row, column)` in the storage.
    fn get_index(&self, row: u32, column: u32) -> (idx: usize)
        requires
            self.wf(),
            row < self.height,
            column < self.width,
        ensures
            idx == self@.index(row as int, column as int),
            idx < self@.cells.len(),
    {
        proof {
            lemma_index_in_range(self@, row as int, column as int);
        }
        (row * self.width + column) as usize
    }

    /// Counts the live cells among the eight neighbors of `(row, column)`,
    /// wrapping around the edges of the grid.
    pub fn live_neighbor_count(&self, row: u32, column: u32) -> (count: u8)
        requires
            self.wf(),
            row < self@.height,
            column < self@.width,
        ensures
            count == self@.live_neighbors(row as int, column as int),
            count <= 8,
    {
        let row_steps: [u32; 3] = [self.height - 1, 0, 1];
        let col_steps: [u32; 3] = [self.width - 1, 0, 1];
        let mut count: u8 = 0;
        proof {
            lemma_counted(self@, row as int, column as int);
        }
        let mut i: usize = 0;
        while i < 3
            invariant
                self.wf(),
                row < self.height,
                column < self.width,
                i <= 3,
                forall|k: int| 0 <= k < 3 ==> row_steps[k] == offset(self@.height, k),
                forall|k: int| 0 <= k < 3 ==> col_steps[k] == offset(self@.width, k),
                forall|k: nat| k <= 9 ==> #[trigger] counted(self@, row as int, column as int, k) <= k,
                count == counted(self@, row as int, column as int, (3 * i) as nat),
            decreases 3 - i,
        {
            let mut j: usize = 0;
            while j < 3
                invariant
                    self.wf(),
                    row < self.height,
                    column < self.width,
                    i < 3,
                    j <= 3,
                    forall|k: int| 0 <= k < 3 ==> row_steps[k] == offset(self@.height, k),
                    forall|k: int| 0 <= k < 3 ==> col_steps[k] == offset(self@.width, k),
                    forall|k: nat|
                        k <= 9 ==> #[trigger] counted(self@, row as int, column as int, k) <= k,
                    count == counted(self@, row as int, column as int, (3 * i + j) as nat),
                decreases 3 - j,
            {
                let delta_row = row_steps[i];
                let delta_col = col_steps[j];
                assert(counted(self@, row as int, column as int, (3 * i + j + 1) as nat) == count
                    + self@.neighbor(row as int, column as int, delta_row as int, delta_col as int));
                if !(delta_row == 0 && delta_col == 0) {
                    let neighbor_row = ((row as u64 + delta_row as u64) % (self.height as u64)) as u32;
                    let neighbor_col = ((column as u64 + delta_col as u64) % (self.width as u64)) as u32;
                    let idx = self.get_index(neighbor_row, neighbor_col);
                    if bit_at(&self.cells, idx) {
                        count += 1;
                    }
                }
                j += 1;
            }
            i += 1;
        }
        count
    }

    /// Advances the universe by one generation.
    ///
    /// The next generation is built in a copy of the storage while the
    /// current one is read, and replaces it only when every cell is decided.
    pub fn tick(&mut self)
        requires
            old(self).wf(),
        ensures
            final(self)@ == old(self)@.step(),
            final(self).wf(),
    {
        let mut next = self.cells.clone();
        let ghost now = self@;
        let mut row: u32 = 0;
        while row < self.height
            invariant
                self.wf(),
                self@ == now,
                row <= self.height,
                bits_of(next).len() == now.cells.len(),
                forall|i: int|
                    0 <= i < now.cells.len() && i < row * now.width ==> bits_of(next)[i]
                        == now.step().cells[i],
            decreases self.height - row,
        {
            let mut col: u32 = 0;
            while col < self.width
                invariant
                    self.wf(),
                    self@ == now,
                    row < self.height,
                    col <= self.width,
                    bits_of(next).len() == now.cells.len(),
                    forall|i: int|
                        0 <= i < now.cells.len() && i < row * now.width + col ==> bits_of(next)[i]
                            == now.step().cells[i],
                decreases self.width - col,
            {
                let idx = self.get_index(row, col);
                let cell = bit_at(&self.cells, idx);
                let live_neighbors = self.live_neighbor_count(row, col);
                proof {
                    lemma_index_splits(now, row as int, col as int);
                }
                next.set(idx, next_cell(cell, live_neighbors));
                col += 1;
            }
            proof {
                assert(row * now.width + now.width == (row + 1) * now.width) by (nonlinear_arith);
            }
            row += 1;
        }
        proof {
            assert(row * now.width == now.width * now.height) by (nonlinear_arith)
                requires
                    row == now.height,
            ;
            assert(bits_of(next) =~= now.step().cells);
        }
        self.cells = next;
    }

    /// Flips the cell at `(row, col)`.
    pub fn toggle_cell(&mut self, row: u32, col: u32)
        requires
            old(self).wf(),
            row < old(self)@.height,
            col < old(self)@.width,
        ensures
            final(self)@ == old(self)@.toggled(row as int, col as int),
            final(self).wf(),
    {
        let idx = self.get_index(row, col);
        let current = bit_at(&self.cells, idx);
        if current {
            self.cells.set(idx, false);
        } else {
            self.cells.set(idx, true);
        }
    }

    /// Makes every listed cell live and leaves all other cells as they are.
    pub fn set_cells(&mut self, cells: &[(u32, u32)])
        requires
            old(self).wf(),
            forall|k: int|
                0 <= k < cells@.len() ==> old(self)@.contains(
                    (#[trigger] cells@[k]).0 as int,
                    cells@[k].1 as int,
                ),
        ensures
            final(self)@ == old(self)@.with_live(cells@),
            final(self).wf(),
    {
        let ghost before = self@;
        let mut n: usize = 0;
        while n < cells.len()
            invariant
                self.wf(),
                n <= cells@.len(),
                self@.width == before.width,
                self@.height == before.height,
                self@.cells.len() == before.cells.len(),
                forall|k: int|
                    0 <= k < cells@.len() ==> before.contains(
                        (#[trigger] cells@[k]).0 as int,
                        cells@[k].1 as int,
                    ),
                forall|i: int|
                    0 <= i < before.cells.len() ==> self@.cells[i] == (before.cells[i]
                        || before.listed(cells@.take(n as int), i)),
            decreases cells.len() - n,
        {
            let (row, col) = cells[n];
            let idx = self.get_index(row, col);
            let ghost mid = self@;
            self.cells.set(idx, true);
            proof {
                let done = cells@.take(n as int);
                let more = cells@.take(n + 1);
                assert(more[n as int] == cells@[n as int]);
                assert(before.index(more[n as int].0 as int, more[n as int].1 as int) == idx);
                assert forall|i: int| 0 <= i < before.cells.len() implies self@.cells[i] == (
                before.cells[i] || before.listed(more, i)) by {
                    assert(mid.cells[i] == (before.cells[i] || before.listed(done, i)));
                    if before.listed(done, i) {
                        let k = choose|k: int|
                            0 <= k < done.len() && #[trigger] before.index(
                                done[k].0 as int,
                                done[k].1 as int,
                            ) == i;
                        assert(more[k] == done[k]);
                        assert(before.index(more[k].0 as int, more[k].1 as int) == i);
                    }
                    if i != idx && before.listed(more, i) {
                        let k = choose|k: int|
                            0 <= k < more.len() && #[trigger] before.index(
                                more[k].0 as int,
                                more[k].1 as int,
                            ) == i;
                        assert(k != n);
                        assert(done[k] == more[k]);
                        assert(before.index(done[k].0 as int, done[k].1 as int) == i);
                    }
                }
            }
            n += 1;
        }
        proof {
            assert(cells@.take(n as int) =~= cells@);
            assert(self@.cells =~= before.with_live(cells@).cells);
        }
    }
}

} // verus!
