//! Cells of a grid whose edges are joined: leaving the grid on one side
//! enters it again on the opposite side.

use vstd::prelude::*;
use vstd::set_lib::{lemma_int_range, lemma_len_subset, lemma_map_size, lemma_subset_equality, set_int_range};
use crate::direction::Direction;

verus! {

/// A cell of the grid, as (row, column).
#[derive(Debug, Copy, Clone, PartialEq, Eq, Structural)]
pub struct Block(pub u8, pub u8);

/// The coordinate `x` reduced into `0..n`.
pub open spec fn wrapped(x: int, n: u8) -> u8 {
    (x % (n as int)) as u8
}

impl Block {
    /// Whether the cell lies on a grid of `rows` by `cols` cells.
    pub open spec fn within(self, rows: u8, cols: u8) -> bool {
        self.0 < rows && self.1 < cols
    }

    /// The cell reached from this one by a step in direction `d` on a grid of
    /// `rows` by `cols` cells, each axis wrapping on its own. With no direction
    /// the cell stays where it is.
    pub open spec fn stepped(self, d: Option<Direction>, rows: u8, cols: u8) -> Block {
        match d {
            Some(d) => Block(
                wrapped(self.0 + d.row_delta(), rows),
                wrapped(self.1 + d.col_delta(), cols),
            ),
            None => self,
        }
    }

    /// A step keeps the cell on the grid. Away from the edges it changes one
    /// coordinate by one; at an edge it arrives at the opposite edge.
    pub proof fn lemma_step_wraps(self, d: Direction, rows: u8, cols: u8)
        requires
            rows > 0,
            cols > 0,
            self.within(rows, cols),
        ensures
            self.stepped(Some(d), rows, cols).within(rows, cols),
            d == Direction::Up ==> self.stepped(Some(d), rows, cols) == Block(
                if self.0 == 0 { (rows - 1) as u8 } else { (self.0 - 1) as u8 },
                self.1,
            ),
            d == Direction::Down ==> self.stepped(Some(d), rows, cols) == Block(
                if self.0 == rows - 1 { 0 } else { (self.0 + 1) as u8 },
                self.1,
            ),
            d == Direction::Left ==> self.stepped(Some(d), rows, cols) == Block(
                self.0,
                if self.1 == 0 { (cols - 1) as u8 } else { (self.1 - 1) as u8 },
            ),
            d == Direction::Right ==> self.stepped(Some(d), rows, cols) == Block(
                self.0,
                if self.1 == cols - 1 { 0 } else { (self.1 + 1) as u8 },
            ),
    {
        lemma_wrapped_neighbour(self.0, rows);
        lemma_wrapped_neighbour(self.1, cols);
    }

    /// A step and then a step in the opposite direction lead back to the cell.
    pub proof fn lemma_step_back_returns(self, d: Direction, rows: u8, cols: u8)
        requires
            rows > 0,
            cols > 0,
            self.within(rows, cols),
        ensures
            self.stepped(Some(d), rows, cols).stepped(Some(d.opposite()), rows, cols) == self,
    {
        let there = self.stepped(Some(d), rows, cols);
        self.lemma_step_wraps(d, rows, cols);
        there.lemma_step_wraps(d.opposite(), rows, cols);
    }
}

/// What `wrapped` gives for a coordinate on the grid and for its two neighbours.
/// A step back by one is a step forward by `n - 1`.
pub proof fn lemma_wrapped_neighbour(x: u8, n: u8)
    requires
        x < n,
    ensures
        wrapped(x as int, n) == x,
        wrapped(x - 1, n) == if x == 0 { n - 1 } else { x - 1 },
        wrapped(x + 1, n) == if x == n - 1 { 0 } else { x + 1 },
        wrapped(x + (n - 1), n) == wrapped(x - 1, n),
{
    let m = n as int;
    assert(x as int % m == x as int) by (nonlinear_arith)
        requires 0 <= x < m;
    assert((x - 1) % m == if x == 0 { m - 1 } else { x - 1 }) by (nonlinear_arith)
        requires 0 <= x < m;
    assert((x + 1) % m == if x == m - 1 { 0 } else { x + 1 }) by (nonlinear_arith)
        requires 0 <= x < m;
    assert((x + (m - 1)) % m == if x == 0 { m - 1 } else { x - 1 }) by (nonlinear_arith)
        requires 0 <= x < m;
}

/// The row and the column of the cell with the number `k`, where the cells of
/// `r` rows of `c` cells are numbered row by row.
proof fn lemma_row_and_column(k: int, r: int, c: int)
    by (nonlinear_arith)
    requires
        0 <= k < r * c,
        c > 0,
    ensures
        0 <= k / c < r,
        0 <= k % c < c,
        k == (k / c) * c + k % c,
{
}

/// All cells of a grid of `rows` by `cols` cells.
pub open spec fn grid_cells(rows: u8, cols: u8) -> Set<Block> {
    Set::new(|b: Block| b.within(rows, cols))
}

/// A grid of `rows` by `cols` cells has `rows * cols` cells.
pub proof fn lemma_grid_cells_count(rows: u8, cols: u8)
    ensures
        grid_cells(rows, cols).finite(),
        grid_cells(rows, cols).len() == rows * cols,
{
    let r = rows as int;
    let c = cols as int;
    let n = r * c;
    let cells = grid_cells(rows, cols);
    if rows == 0 || cols == 0 {
        assert(cells =~= Set::empty());
        assert(n == 0) by (nonlinear_arith)
            requires
                n == r * c,
                r == 0 || c == 0,
        ;
    } else {
        assert(n >= 0) by (nonlinear_arith)
            requires
                n == r * c,
                r > 0,
                c > 0,
        ;
        let numbers = set_int_range(0, n);
        lemma_int_range(0, n);
        // the cell of each number, the cells numbered row by row
        let cell_of = |k: int| Block((k / c) as u8, (k % c) as u8);
        assert forall|k1: int, k2: int|
            numbers.contains(k1) && numbers.contains(k2) && #[trigger] cell_of(k1)
                == #[trigger] cell_of(k2) implies k1 == k2 by {
            lemma_row_and_column(k1, r, c);
            lemma_row_and_column(k2, r, c);
        }
        assert forall|b: Block| numbers.map(cell_of).contains(b) implies cells.contains(b) by {
            let k = choose|k: int| numbers.contains(k) && b == cell_of(k);
            lemma_row_and_column(k, r, c);
        }
        assert forall|b: Block| cells.contains(b) implies numbers.map(cell_of).contains(b) by {
            let k = b.0 * c + b.1;
            assert(0 <= k < n && k / c == b.0 && k % c == b.1) by (nonlinear_arith)
                requires
                    k == b.0 * c + b.1,
                    0 <= b.0 < r,
                    0 <= b.1 < c,
                    n == r * c,
            ;
            assert(numbers.contains(k) && b == cell_of(k));
        }
        assert(numbers.map(cell_of) =~= cells);
        lemma_map_size(numbers, cells, cell_of);
    }
}

/// Cells of the grid, no two of them the same, are at most as many as the grid
/// has cells.
pub proof fn lemma_distinct_cells_fit(cells: Seq<Block>, rows: u8, cols: u8)
    requires
        cells.no_duplicates(),
        forall|i: int| 0 <= i < cells.len() ==> (#[trigger] cells[i]).within(rows, cols),
    ensures
        cells.len() <= rows * cols,
{
    lemma_grid_cells_count(rows, cols);
    cells.unique_seq_to_set();
    assert(cells.to_set().subset_of(grid_cells(rows, cols)));
    lemma_len_subset(cells.to_set(), grid_cells(rows, cols));
}

/// Fewer cells than the grid has leave a cell of the grid out.
pub proof fn lemma_some_cell_is_left(cells: Seq<Block>, rows: u8, cols: u8)
    requires
        cells.len() < rows * cols,
    ensures
        exists|b: Block| b.within(rows, cols) && !cells.contains(b),
{
    lemma_grid_cells_count(rows, cols);
    let grid = grid_cells(rows, cols);
    if forall|b: Block| b.within(rows, cols) ==> cells.contains(b) {
        assert(grid.subset_of(cells.to_set()));
        vstd::seq_lib::seq_to_set_is_finite(cells);
        lemma_len_subset(grid, cells.to_set());
        cells.lemma_cardinality_of_set();
    }
}

/// As many cells of the grid as the grid has, no two of them the same, are all
/// cells of the grid.
pub proof fn lemma_distinct_cells_fill(cells: Seq<Block>, rows: u8, cols: u8)
    requires
        cells.no_duplicates(),
        forall|i: int| 0 <= i < cells.len() ==> (#[trigger] cells[i]).within(rows, cols),
        cells.len() == rows * cols,
    ensures
        forall|b: Block| b.within(rows, cols) ==> cells.contains(b),
{
    lemma_grid_cells_count(rows, cols);
    let grid = grid_cells(rows, cols);
    cells.unique_seq_to_set();
    vstd::seq_lib::seq_to_set_is_finite(cells);
    assert(cells.to_set().subset_of(grid));
    lemma_subset_equality(cells.to_set(), grid);
    assert forall|b: Block| b.within(rows, cols) implies cells.contains(b) by {
        assert(grid.contains(b));
        assert(cells.to_set().contains(b));
    }
}

} // verus!
