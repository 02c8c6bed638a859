use vstd::prelude::*;
use vstd::pervasive::VecAdditionalExecFns;
use vstd::arithmetic::div_mod::lemma_fundamental_div_mod;

verus! {

/// A single grid square: a coordinate plus an alive flag. A cell's identity
/// is its coordinate alone; the alive flag is payload, so `==` compares only
/// `(row, col)`. Cells are never mutated in place: `kill` and `birth` build a
/// fresh value at the same coordinate.
#[derive(Clone, Copy, Debug)]
pub struct Cell {
    pub row: i32,
    pub col: i32,
    pub alive: bool,
}

impl Cell {
    /// Two cells are the same entity when their coordinates agree,
    /// whatever their alive flags say.
    pub open spec fn same_coord(self, other: Cell) -> bool {
        self.row == other.row && self.col == other.col
    }

    pub fn new(row: i32, col: i32) -> (cell: Self)
        ensures
            cell.row == row,
            cell.col == col,
            !cell.alive,
    {
        Self { row, col, alive: false }
    }

    pub fn kill(c: &Self) -> (cell: Self)
        ensures
            cell.row == c.row,
            cell.col == c.col,
            !cell.alive,
    {
        Self { alive: false, row: c.row, col: c.col }
    }

    pub fn birth(c: &Self) -> (cell: Self)
        ensures
            cell.row == c.row,
            cell.col == c.col,
            cell.alive,
    {
        Self { alive: true, row: c.row, col: c.col }
    }

    pub fn to_tuple(c: &Self) -> (t: (i32, i32))
        ensures
            t.0 == c.row,
            t.1 == c.col,
    {
        (c.row, c.col)
    }

    pub fn is_alive(c: &Self) -> (b: bool)
        ensures
            b == c.alive,
    {
        c.alive
    }
}

impl PartialEq for Cell {
    fn eq(&self, other: &Self) -> (r: bool) {
        self.row == other.row && self.col == other.col
    }
}

impl vstd::std_specs::cmp::PartialEqSpecImpl for Cell {
    open spec fn obeys_eq_spec() -> bool {
        true
    }

    open spec fn eq_spec(&self, other: &Cell) -> bool {
        self.row == other.row && self.col == other.col
    }
}


// ---------------------------------------------------------------------------
// Random seeding.
// ---------------------------------------------------------------------------

/// How many entries of the marker sequence are set.
pub open spec fn num_marked(seen: Seq<bool>) -> int
    decreases seen.len(),
{
    if seen.len() == 0 {
        0
    } else {
        num_marked(seen.drop_last()) + if seen.last() {
            1int
        } else {
            0int
        }
    }
}

proof fn lemma_num_marked_update(seen: Seq<bool>, i: int)
    requires
        0 <= i < seen.len(),
        !seen[i],
    ensures
        num_marked(seen.update(i, true)) == num_marked(seen) + 1,
    decreases seen.len(),
{
    let s2 = seen.update(i, true);
    if i == seen.len() - 1 {
        assert(s2.drop_last() =~= seen.drop_last());
    } else {
        assert(s2.drop_last() =~= seen.drop_last().update(i, true));
        lemma_num_marked_update(seen.drop_last(), i);
    }
}

proof fn lemma_num_marked_all(seen: Seq<bool>)
    requires
        forall|j: int| 0 <= j < seen.len() ==> #[trigger] seen[j],
    ensures
        num_marked(seen) == seen.len(),
    decreases seen.len(),
{
    if seen.len() > 0 {
        lemma_num_marked_all(seen.drop_last());
    }
}

/// Relies on `rand::random_range` over the thread-local generator: a value
/// drawn from the given range. It panics only on an empty range, which the
/// precondition rules out; the draw is random, so nothing beyond its bounds
/// is promised.
#[verifier::external_body]
fn random_coordinate(bound: i32) -> (r: i32)
    requires
        0 < bound,
    ensures
        0 <= r < bound,
{
    rand::random_range(0..bound)
}

/// Draws random coordinates on the 100 x 100 grid until every one of its
/// 10000 cells has been produced once: the result is 10000 distinct live
/// cells, each with row and column in [0, 100). Random drawing alone is not
/// guaranteed to finish, so after a generous number of draws any coordinate
/// still missing is filled in directly.
pub fn generate_live_cells() -> (live_cells: Vec<Cell>)
    ensures
        live_cells@.len() == 10000,
        forall|k: int|
            0 <= k < live_cells@.len() ==> {
                let cell = #[trigger] live_cells@[k];
                0 <= cell.row && cell.row < 100 && 0 <= cell.col && cell.col < 100 && cell.alive
            },
        forall|k1: int, k2: int|
            0 <= k1 < k2 < live_cells@.len() ==> !((#[trigger] live_cells@[k1]).row == (
            #[trigger] live_cells@[k2]).row && live_cells@[k1].col == live_cells@[k2].col),
{
    let mut seen: Vec<bool> = Vec::new();
    let mut j: usize = 0;
    while j < 10000
        invariant
            j <= 10000,
            seen@.len() == j,
            num_marked(seen@) == 0,
        decreases 10000 - j,
    {
        let ghost prev_seen = seen@;
        seen.push(false);
        proof {
            assert(seen@.drop_last() =~= prev_seen);
        }
        j = j + 1;
    }
    let mut live_cells: Vec<Cell> = Vec::new();
    let mut attempts: u32 = 0;
    while live_cells.len() < 10000 && attempts < 200000
        invariant
            seen@.len() == 10000,
            live_cells@.len() == num_marked(seen@),
            attempts <= 200000,
            forall|k: int|
                0 <= k < live_cells@.len() ==> {
                    let cell = #[trigger] live_cells@[k];
                    0 <= cell.row && cell.row < 100 && 0 <= cell.col && cell.col < 100
                        && cell.alive
                },
            forall|k: int|
                0 <= k < live_cells@.len() ==> seen@[(#[trigger] live_cells@[k]).row as int * 100
                    + live_cells@[k].col as int],
            forall|k1: int, k2: int|
                0 <= k1 < k2 < live_cells@.len() ==> !((#[trigger] live_cells@[k1]).row == (
                #[trigger] live_cells@[k2]).row && live_cells@[k1].col == live_cells@[k2].col),
        decreases 200000 - attempts,
    {
        attempts = attempts + 1;
        let row = random_coordinate(100);
        let col = random_coordinate(100);
        let idx: usize = (row as usize) * 100 + (col as usize);
        if !seen[idx] {
            let ghost prev_seen = seen@;
            seen.set(idx, true);
            live_cells.push(Cell::birth(&Cell::new(row, col)));
            proof {
                lemma_num_marked_update(prev_seen, idx as int);
            }
        }
    }
    let mut idx2: usize = 0;
    while idx2 < 10000
        invariant
            seen@.len() == 10000,
            idx2 <= 10000,
            live_cells@.len() == num_marked(seen@),
            forall|t: int| 0 <= t < idx2 ==> #[trigger] seen@[t],
            forall|k: int|
                0 <= k < live_cells@.len() ==> {
                    let cell = #[trigger] live_cells@[k];
                    0 <= cell.row && cell.row < 100 && 0 <= cell.col && cell.col < 100
                        && cell.alive
                },
            forall|k: int|
                0 <= k < live_cells@.len() ==> seen@[(#[trigger] live_cells@[k]).row as int * 100
                    + live_cells@[k].col as int],
            forall|k1: int, k2: int|
                0 <= k1 < k2 < live_cells@.len() ==> !((#[trigger] live_cells@[k1]).row == (
                #[trigger] live_cells@[k2]).row && live_cells@[k1].col == live_cells@[k2].col),
        decreases 10000 - idx2,
    {
        if !seen[idx2] {
            proof {
                lemma_fundamental_div_mod(idx2 as int, 100);
                assert(0 <= (idx2 as int) % 100 < 100) by (nonlinear_arith)
                    requires
                        0 <= (idx2 as int),
                ;
                assert(0 <= (idx2 as int) / 100 < 100) by (nonlinear_arith)
                    requires
                        0 <= (idx2 as int) < 10000,
                        (idx2 as int) == 100 * ((idx2 as int) / 100) + (idx2 as int) % 100,
                        0 <= (idx2 as int) % 100 < 100,
                ;
            }
            let row: i32 = (idx2 / 100) as i32;
            let col: i32 = (idx2 % 100) as i32;
            proof {
                assert(idx2 as int == (row as int) * 100 + (col as int));
            }
            let ghost prev_seen = seen@;
            seen.set(idx2, true);
            live_cells.push(Cell::birth(&Cell::new(row, col)));
            proof {
                lemma_num_marked_update(prev_seen, idx2 as int);
            }
        }
        idx2 = idx2 + 1;
    }
    proof {
        lemma_num_marked_all(seen@);
    }
    live_cells
}

} // verus!
