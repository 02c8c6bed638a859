use vstd::prelude::*;
use vstd::arithmetic::div_mod::lemma_fundamental_div_mod_converse;
use crate::cell::Cell;
use crate::game_of_life::row_major;
use crate::utility::generate_id;

verus! {

/// A fixed-size rectangular grid: exactly one cell per coordinate of
/// `[0, rows) x [0, cols)`. The `id` is an opaque identifier for diagnostics
/// only and carries no meaning for the simulation.
#[derive(Debug)]
pub struct Board {
    pub id: String,
    pub rows: i32,
    pub cols: i32,
    pub cells: Vec<Cell>,
}

impl Board {
    /// The board invariant: the cell set covers every declared coordinate
    /// exactly once (so its size is `rows * cols`), held row-major.
    pub open spec fn wf(self) -> bool {
        row_major(self.cells@, self.rows as int, self.cols as int)
    }

    /// A board of the given dimensions with every cell dead.
    pub fn new(rows: i32, cols: i32) -> (board: Self)
        requires
            0 <= rows,
            0 <= cols,
            (rows as int) * (cols as int) <= usize::MAX as int,
        ensures
            board.wf(),
            board.rows == rows,
            board.cols == cols,
            forall|i: int| 0 <= i < board.cells@.len() ==> !(#[trigger] board.cells@[i]).alive,
    {
        let mut cells: Vec<Cell> = Vec::new();
        let mut row: i32 = 0;
        while row < rows
            invariant
                0 <= row <= rows,
                0 <= cols,
                rows <= i32::MAX,
                (rows as int) * (cols as int) <= usize::MAX as int,
                cells@.len() == (row as int) * (cols as int),
                forall|i: int|
                    0 <= i < cells@.len() ==> ((#[trigger] cells@[i]).row as int == i / (
                    cols as int) && cells@[i].col as int == i % (cols as int) && !cells@[i].alive),
            decreases rows - row,
        {
            let mut col: i32 = 0;
            while col < cols
                invariant
                    0 <= row < rows,
                    0 <= col <= cols,
                    rows <= i32::MAX,
                    cols <= i32::MAX,
                    (rows as int) * (cols as int) <= usize::MAX as int,
                    cells@.len() == (row as int) * (cols as int) + (col as int),
                    forall|i: int|
                        0 <= i < cells@.len() ==> ((#[trigger] cells@[i]).row as int == i / (
                        cols as int) && cells@[i].col as int == i % (cols as int)
                            && !cells@[i].alive),
                decreases cols - col,
            {
                proof {
                    assert((row as int) * (cols as int) + (col as int) < (rows as int) * (
                    cols as int)) by (nonlinear_arith)
                        requires
                            0 <= row as int && (row as int) < (rows as int),
                            0 <= col as int && (col as int) < (cols as int),
                    ;
                    lemma_fundamental_div_mod_converse(
                        (row as int) * (cols as int) + (col as int),
                        cols as int,
                        row as int,
                        col as int,
                    );
                }
                let cell = Cell::new(row, col);
                cells.push(cell);
                col = col + 1;
            }
            proof {
                assert((row as int) * (cols as int) + (cols as int) == ((row as int) + 1) * (
                cols as int)) by (nonlinear_arith);
            }
            row = row + 1;
        }
        Self { id: generate_id(), rows, cols, cells }
    }

    /// A new board with the same identity and dimensions whose cell set is
    /// the given pure transform of this board's cell set.
    pub fn run_cells_transform<F: Fn(&Vec<Cell>) -> Vec<Cell>>(&self, f: F) -> (board: Self)
        requires
            call_requires(f, (&self.cells,)),
        ensures
            board.rows == self.rows,
            board.cols == self.cols,
            call_ensures(f, (&self.cells,), board.cells),
    {
        let new_cells = f(&self.cells);
        Self { cells: new_cells, id: self.id.clone(), rows: self.rows, cols: self.cols }
    }

    /// The current cell set as a sequence; each element is a snapshot of its
    /// cell at the point of extraction.
    pub fn get_cells(&self) -> (cells: Vec<Cell>)
        ensures
            cells@ == self.cells@,
    {
        let mut cells: Vec<Cell> = Vec::new();
        let n: usize = self.cells.len();
        let mut i: usize = 0;
        while i < n
            invariant
                i <= n,
                n == self.cells@.len(),
                cells@ == self.cells@.take(i as int),
            decreases n - i,
        {
            cells.push(self.cells[i]);
            proof {
                assert(cells@ =~= self.cells@.take(i as int + 1));
            }
            i = i + 1;
        }
        proof {
            assert(cells@ =~= self.cells@);
        }
        cells
    }

    /// Consumes the board and hands its cell set over.
    pub fn take_cells(self) -> (cells: Vec<Cell>)
        ensures
            cells == self.cells,
    {
        self.cells
    }
}

} // verus!
