use vstd::prelude::*;
use vstd::arithmetic::div_mod::{
    lemma_fundamental_div_mod, lemma_fundamental_div_mod_converse,
};
use crate::cell::Cell;
use crate::board::Board;

verus! {

// ---------------------------------------------------------------------------
// The mathematical model of a generation.
//
// A generation is a sequence of cells covering every coordinate of the
// `rows x cols` grid exactly once. The concrete layout is row-major: the cell
// for coordinate (r, c) sits at index r * cols + c. All contracts about the
// transition rule are stated through `alive_in`, which is pure membership and
// does not depend on that layout.
// ---------------------------------------------------------------------------

/// The cell sequence holds exactly one cell per coordinate of the
/// `rows x cols` grid, laid out row-major.
pub open spec fn row_major(cells: Seq<Cell>, rows: int, cols: int) -> bool {
    &&& 0 <= rows
    &&& 0 <= cols
    &&& cells.len() == rows * cols
    &&& forall|i: int|
        0 <= i < cells.len() ==> (#[trigger] cells[i]).row as int == i / cols
            && cells[i].col as int == i % cols
}

/// Membership-based aliveness: some cell of the set has this coordinate and
/// is alive. A coordinate outside the grid is simply absent and never alive,
/// which is what makes the board edges true boundaries.
pub open spec fn alive_in(cells: Seq<Cell>, r: int, c: int) -> bool {
    exists|i: int|
        0 <= i < cells.len() && (#[trigger] cells[i]).row as int == r
            && cells[i].col as int == c && cells[i].alive
}

pub open spec fn indicator(b: bool) -> int {
    if b {
        1
    } else {
        0
    }
}

/// How many of the 8 axis/diagonal neighbors of (r, c) are present and alive.
/// Out-of-bounds coordinates contribute nothing.
pub open spec fn live_neighbor_count(cells: Seq<Cell>, r: int, c: int) -> int {
    indicator(alive_in(cells, r + 1, c)) + indicator(alive_in(cells, r - 1, c)) + indicator(
        alive_in(cells, r, c - 1),
    ) + indicator(alive_in(cells, r, c + 1)) + indicator(alive_in(cells, r + 1, c + 1)) + indicator(
        alive_in(cells, r + 1, c - 1),
    ) + indicator(alive_in(cells, r - 1, c + 1)) + indicator(alive_in(cells, r - 1, c - 1))
}

/// The Game of Life rule: a living cell survives iff it has 2 or 3 living
/// neighbors; a dead cell becomes alive iff it has exactly 3.
pub open spec fn next_alive(was_alive: bool, live_neighbors: int) -> bool {
    if was_alive {
        live_neighbors == 2 || live_neighbors == 3
    } else {
        live_neighbors == 3
    }
}

/// One cell after a transition: same coordinate, alive flag from the rule.
pub open spec fn next_cell(cells: Seq<Cell>, cell: Cell) -> Cell {
    Cell {
        row: cell.row,
        col: cell.col,
        alive: next_alive(
            cell.alive,
            live_neighbor_count(cells, cell.row as int, cell.col as int),
        ),
    }
}

/// One full transition: every cell of the previous generation replaced by its
/// successor, no cell created or destroyed.
pub open spec fn next_gen(cells: Seq<Cell>) -> Seq<Cell> {
    Seq::new(cells.len(), |i: int| next_cell(cells, cells[i]))
}

/// `n` transitions in a row.
pub open spec fn iterate_next_gen(cells: Seq<Cell>, n: nat) -> Seq<Cell>
    decreases n,
{
    if n == 0 {
        cells
    } else {
        next_gen(iterate_next_gen(cells, (n - 1) as nat))
    }
}

// ---------------------------------------------------------------------------
// Facts about the row-major layout.
// ---------------------------------------------------------------------------

/// In a row-major grid every cell's coordinate is in bounds and determines
/// the cell's index.
pub proof fn lemma_row_major_coords(cells: Seq<Cell>, rows: int, cols: int)
    requires
        row_major(cells, rows, cols),
    ensures
        forall|i: int|
            0 <= i < cells.len() ==> {
                let r = (#[trigger] cells[i]).row as int;
                let c = cells[i].col as int;
                0 <= r && r < rows && 0 <= c && c < cols && i == r * cols + c
            },
{
    assert forall|i: int| 0 <= i < cells.len() implies {
        let r = (#[trigger] cells[i]).row as int;
        let c = cells[i].col as int;
        0 <= r && r < rows && 0 <= c && c < cols && i == r * cols + c
    } by {
        assert(cols > 0) by (nonlinear_arith)
            requires
                0 <= rows,
                0 <= cols,
                0 <= i < rows * cols,
        ;
        lemma_fundamental_div_mod(i, cols);
        assert(0 <= i % cols < cols) by (nonlinear_arith)
            requires
                cols > 0,
                0 <= i,
        ;
        assert(0 <= i / cols < rows) by (nonlinear_arith)
            requires
                cols > 0,
                0 <= i < rows * cols,
                i == cols * (i / cols) + i % cols,
                0 <= i % cols < cols,
        ;
        assert(cells[i].row as int == i / cols);
        assert(cells[i].col as int == i % cols);
        assert(i == (i / cols) * cols + (i % cols)) by (nonlinear_arith)
            requires
                i == cols * (i / cols) + i % cols,
        ;
    }
}

/// Under the row-major layout, membership-based aliveness is exactly a bounds
/// check plus one index lookup.
pub proof fn lemma_alive_in_lookup(cells: Seq<Cell>, rows: int, cols: int, r: int, c: int)
    requires
        row_major(cells, rows, cols),
    ensures
        alive_in(cells, r, c) <==> (0 <= r < rows && 0 <= c < cols && cells[r * cols + c].alive),
{
    lemma_row_major_coords(cells, rows, cols);
    if 0 <= r < rows && 0 <= c < cols {
        let i = r * cols + c;
        assert(0 <= i < rows * cols) by (nonlinear_arith)
            requires
                0 <= r < rows,
                0 <= c < cols,
                i == r * cols + c,
        ;
        lemma_fundamental_div_mod_converse(i, cols, r, c);
        assert(cells[i].row as int == r && cells[i].col as int == c);
        if cells[i].alive {
            assert(alive_in(cells, r, c));
        }
        if alive_in(cells, r, c) {
            let j = choose|j: int|
                0 <= j < cells.len() && (#[trigger] cells[j]).row as int == r
                    && cells[j].col as int == c && cells[j].alive;
            assert(j == r * cols + c);
        }
    } else {
        assert(!alive_in(cells, r, c));
    }
}

/// A transition leaves every coordinate in place, so the row-major layout --
/// and with it the cell count `rows * cols` -- is preserved.
pub proof fn lemma_next_gen_row_major(cells: Seq<Cell>, rows: int, cols: int)
    requires
        row_major(cells, rows, cols),
    ensures
        row_major(next_gen(cells), rows, cols),
        next_gen(cells).len() == cells.len(),
{
}

/// No cells are created or destroyed: after any number of transitions the
/// cell set still covers the grid exactly once and has size `rows * cols`.
pub proof fn lemma_cell_count_preserved(cells: Seq<Cell>, rows: int, cols: int, n: nat)
    requires
        row_major(cells, rows, cols),
    ensures
        row_major(iterate_next_gen(cells, n), rows, cols),
        iterate_next_gen(cells, n).len() == rows * cols,
    decreases n,
{
    if n > 0 {
        lemma_cell_count_preserved(cells, rows, cols, (n - 1) as nat);
        lemma_next_gen_row_major(iterate_next_gen(cells, (n - 1) as nat), rows, cols);
    }
}

/// The transition rule, spelled out per cell: a living cell survives iff its
/// living-neighbor count is 2 or 3; a dead cell becomes alive iff that count
/// is exactly 3; coordinates never change.
pub proof fn lemma_transition_rule(cells: Seq<Cell>, i: int)
    requires
        0 <= i < cells.len(),
    ensures
        next_gen(cells)[i].row == cells[i].row,
        next_gen(cells)[i].col == cells[i].col,
        cells[i].alive ==> (next_gen(cells)[i].alive <==> {
            let n = live_neighbor_count(cells, cells[i].row as int, cells[i].col as int);
            n == 2 || n == 3
        }),
        !cells[i].alive ==> (next_gen(cells)[i].alive <==> live_neighbor_count(
            cells,
            cells[i].row as int,
            cells[i].col as int,
        ) == 3),
{
}

/// A coordinate outside the grid bounds is never counted alive: neighbor
/// lookups fall off the edge instead of wrapping around.
pub proof fn lemma_no_wraparound(cells: Seq<Cell>, rows: int, cols: int, r: int, c: int)
    requires
        row_major(cells, rows, cols),
        r < 0 || c < 0 || r >= rows || c >= cols,
    ensures
        !alive_in(cells, r, c),
{
    lemma_alive_in_lookup(cells, rows, cols, r, c);
}

/// The corner cell (0, 0) has at most 3 live neighbors on any board: five of
/// its eight neighbor coordinates lie outside the grid and contribute
/// nothing, so edges never wrap.
pub proof fn lemma_corner_neighbor_bound(cells: Seq<Cell>, rows: int, cols: int)
    requires
        row_major(cells, rows, cols),
    ensures
        live_neighbor_count(cells, 0, 0) <= 3,
{
    lemma_no_wraparound(cells, rows, cols, -1, 0);
    lemma_no_wraparound(cells, rows, cols, -1, 1);
    lemma_no_wraparound(cells, rows, cols, -1, -1);
    lemma_no_wraparound(cells, rows, cols, 0, -1);
    lemma_no_wraparound(cells, rows, cols, 1, -1);
}

// ---------------------------------------------------------------------------
// The transition engine.
// ---------------------------------------------------------------------------

/// The 8 axis/diagonal neighbor coordinates of `c`, in a fixed order.
pub fn get_neighbors(c: (i32, i32)) -> (neighbors: Vec<(i32, i32)>)
    requires
        i32::MIN < c.0 < i32::MAX,
        i32::MIN < c.1 < i32::MAX,
    ensures
        neighbors@.len() == 8,
        neighbors@[0].0 as int == c.0 + 1 && neighbors@[0].1 as int == c.1 as int,
        neighbors@[1].0 as int == c.0 - 1 && neighbors@[1].1 as int == c.1 as int,
        neighbors@[2].0 as int == c.0 as int && neighbors@[2].1 as int == c.1 - 1,
        neighbors@[3].0 as int == c.0 as int && neighbors@[3].1 as int == c.1 + 1,
        neighbors@[4].0 as int == c.0 + 1 && neighbors@[4].1 as int == c.1 + 1,
        neighbors@[5].0 as int == c.0 + 1 && neighbors@[5].1 as int == c.1 - 1,
        neighbors@[6].0 as int == c.0 - 1 && neighbors@[6].1 as int == c.1 + 1,
        neighbors@[7].0 as int == c.0 - 1 && neighbors@[7].1 as int == c.1 - 1,
{
    let (r, col) = c;
    let mut neighbors: Vec<(i32, i32)> = Vec::new();
    neighbors.push((r + 1, col));
    neighbors.push((r - 1, col));
    neighbors.push((r, col - 1));
    neighbors.push((r, col + 1));
    neighbors.push((r + 1, col + 1));
    neighbors.push((r + 1, col - 1));
    neighbors.push((r - 1, col + 1));
    neighbors.push((r - 1, col - 1));
    neighbors
}

/// Bounds check plus one row-major lookup, shown equal to membership-based
/// aliveness.
fn is_alive_at(cells: &Vec<Cell>, rows: i32, cols: i32, r: i32, c: i32) -> (b: bool)
    requires
        row_major(cells@, rows as int, cols as int),
    ensures
        b == alive_in(cells@, r as int, c as int),
{
    proof {
        lemma_alive_in_lookup(cells@, rows as int, cols as int, r as int, c as int);
    }
    let total: usize = cells.len();
    if r < 0 || c < 0 || r >= rows || c >= cols {
        false
    } else {
        proof {
            assert((r as int) * (cols as int) + (c as int) < (rows as int) * (cols as int))
                by (nonlinear_arith)
                requires
                    0 <= r as int && (r as int) < (rows as int),
                    0 <= c as int && (c as int) < (cols as int),
            ;
            assert(0 <= (r as int) * (cols as int)) by (nonlinear_arith)
                requires
                    0 <= r as int,
                    0 <= cols as int,
            ;
            assert((rows as int) * (cols as int) == total as int);
        }
        let idx: usize = (r as usize) * (cols as usize) + (c as usize);
        cells[idx].alive
    }
}

/// The transition engine: previous generation in, next generation out, one
/// output cell per input coordinate, each set by the Game of Life rule with
/// finite (non-wrapping) neighbor lookup.
#[verifier::rlimit(60)]
pub fn cells_transform(previous_generation: &Vec<Cell>, rows: i32, cols: i32) -> (new_generation:
    Vec<Cell>)
    requires
        row_major(previous_generation@, rows as int, cols as int),
    ensures
        new_generation@ == next_gen(previous_generation@),
        row_major(new_generation@, rows as int, cols as int),
{
    let prev = previous_generation;
    let mut new_generation: Vec<Cell> = Vec::new();
    let n: usize = prev.len();
    let mut i: usize = 0;
    proof {
        lemma_row_major_coords(prev@, rows as int, cols as int);
    }
    while i < n
        invariant
            row_major(prev@, rows as int, cols as int),
            n == prev@.len(),
            i <= n,
            rows <= i32::MAX,
            cols <= i32::MAX,
            forall|j: int|
                0 <= j < n ==> {
                    let r = (#[trigger] prev@[j]).row as int;
                    let c = prev@[j].col as int;
                    0 <= r && r < (rows as int) && 0 <= c && c < (cols as int)
                },
            new_generation@ == next_gen(prev@).take(i as int),
        decreases n - i,
    {
        let cell = prev[i];
        let cell_tuple = Cell::to_tuple(&cell);
        let cell_is_alive = Cell::is_alive(&cell);
        let neighbors = get_neighbors(cell_tuple);
        let mut living_neighbor_count: u8 = 0;
        if is_alive_at(prev, rows, cols, neighbors[0].0, neighbors[0].1) {
            living_neighbor_count = living_neighbor_count + 1;
        }
        if is_alive_at(prev, rows, cols, neighbors[1].0, neighbors[1].1) {
            living_neighbor_count = living_neighbor_count + 1;
        }
        if is_alive_at(prev, rows, cols, neighbors[2].0, neighbors[2].1) {
            living_neighbor_count = living_neighbor_count + 1;
        }
        if is_alive_at(prev, rows, cols, neighbors[3].0, neighbors[3].1) {
            living_neighbor_count = living_neighbor_count + 1;
        }
        if is_alive_at(prev, rows, cols, neighbors[4].0, neighbors[4].1) {
            living_neighbor_count = living_neighbor_count + 1;
        }
        if is_alive_at(prev, rows, cols, neighbors[5].0, neighbors[5].1) {
            living_neighbor_count = living_neighbor_count + 1;
        }
        if is_alive_at(prev, rows, cols, neighbors[6].0, neighbors[6].1) {
            living_neighbor_count = living_neighbor_count + 1;
        }
        if is_alive_at(prev, rows, cols, neighbors[7].0, neighbors[7].1) {
            living_neighbor_count = living_neighbor_count + 1;
        }
        assert(living_neighbor_count as int == live_neighbor_count(
            prev@,
            cell.row as int,
            cell.col as int,
        ));
        let new_cell = if cell_is_alive && (living_neighbor_count == 2 || living_neighbor_count
            == 3) {
            Cell::birth(&cell)
        } else if !cell_is_alive && living_neighbor_count == 3 {
            Cell::birth(&cell)
        } else {
            Cell::kill(&cell)
        };
        new_generation.push(new_cell);
        proof {
            assert(new_cell == next_gen(prev@)[i as int]);
            assert(new_generation@ =~= next_gen(prev@).take(i as int + 1));
        }
        i = i + 1;
    }
    proof {
        assert(new_generation@ =~= next_gen(prev@));
        lemma_next_gen_row_major(prev@, rows as int, cols as int);
    }
    new_generation
}


// ---------------------------------------------------------------------------
// Seeding a universe.
// ---------------------------------------------------------------------------

/// Does some cell of the list sit at this coordinate? Membership goes by
/// coordinate alone, as cell identity does; the alive flag is ignored.
pub open spec fn has_coord(cells: Seq<Cell>, r: int, c: int) -> bool {
    exists|k: int|
        0 <= k < cells.len() && (#[trigger] cells[k]).row as int == r && cells[k].col as int == c
}

/// Linear scan for a coordinate; the alive flag plays no part.
pub fn contains_coord(cells: &Vec<Cell>, cell: &Cell) -> (b: bool)
    ensures
        b == has_coord(cells@, cell.row as int, cell.col as int),
{
    let n: usize = cells.len();
    let mut k: usize = 0;
    while k < n
        invariant
            k <= n,
            n == cells@.len(),
            forall|j: int|
                0 <= j < k ==> !((#[trigger] cells@[j]).row == cell.row && cells@[j].col
                    == cell.col),
        decreases n - k,
    {
        if cells[k].row == cell.row && cells[k].col == cell.col {
            return true;
        }
        k = k + 1;
    }
    false
}

/// Seeds a fresh universe: a board of the given dimensions where a cell is
/// alive exactly when its coordinate appears in `live_cells`, and every other
/// cell is dead.
pub fn birth_universe(rows: i32, cols: i32, live_cells: Vec<Cell>) -> (board: Board)
    requires
        0 <= rows,
        0 <= cols,
        (rows as int) * (cols as int) <= usize::MAX as int,
    ensures
        board.wf(),
        board.rows == rows,
        board.cols == cols,
        forall|i: int|
            0 <= i < board.cells@.len() ==> (#[trigger] board.cells@[i]).alive == has_coord(
                live_cells@,
                board.cells@[i].row as int,
                board.cells@[i].col as int,
            ),
{
    let board = Board::new(rows, cols);
    let seed = |cells: &Vec<Cell>| -> (new_cells: Vec<Cell>)
        ensures
            new_cells@.len() == cells@.len(),
            forall|i: int|
                0 <= i < cells@.len() ==> {
                    let old_cell = #[trigger] cells@[i];
                    let new_cell = new_cells@[i];
                    new_cell.row == old_cell.row && new_cell.col == old_cell.col
                        && new_cell.alive == has_coord(
                        live_cells@,
                        old_cell.row as int,
                        old_cell.col as int,
                    )
                },
        {
            let mut new_cells: Vec<Cell> = Vec::new();
            let n: usize = cells.len();
            let mut i: usize = 0;
            while i < n
                invariant
                    i <= n,
                    n == cells@.len(),
                    new_cells@.len() == i,
                    forall|j: int|
                        0 <= j < i ==> {
                            let old_cell = #[trigger] cells@[j];
                            let new_cell = new_cells@[j];
                            new_cell.row == old_cell.row && new_cell.col == old_cell.col
                                && new_cell.alive == has_coord(
                                live_cells@,
                                old_cell.row as int,
                                old_cell.col as int,
                            )
                        },
                decreases n - i,
            {
                let cell = cells[i];
                if contains_coord(&live_cells, &cell) {
                    new_cells.push(Cell::birth(&cell));
                } else {
                    new_cells.push(Cell::kill(&cell));
                }
                i = i + 1;
            }
            new_cells
        };
    let seeded = board.run_cells_transform(seed);
    proof {
        assert forall|i: int| 0 <= i < seeded.cells@.len() implies {
            let r = (#[trigger] seeded.cells@[i]).row as int;
            let c = seeded.cells@[i].col as int;
            r == i / (cols as int) && c == i % (cols as int)
        } by {
            assert(seeded.cells@[i].row == board.cells@[i].row);
            assert(seeded.cells@[i].col == board.cells@[i].col);
        }
        assert forall|i: int| 0 <= i < seeded.cells@.len() implies (#[trigger] seeded.cells@[i]).alive
            == has_coord(
            live_cells@,
            seeded.cells@[i].row as int,
            seeded.cells@[i].col as int,
        ) by {
            assert(seeded.cells@[i].alive == has_coord(
                live_cells@,
                board.cells@[i].row as int,
                board.cells@[i].col as int,
            ));
        }
    }
    seeded
}

// ---------------------------------------------------------------------------
// The simulation actor, as a state machine.
//
// The actor owns the current generation, the run/paused flag, the generation
// counter and the subscriber registry, and consumes one command at a time.
// `process_message` is that transition, verified against the mathematical
// step function `spec_step`. Everything the actor asks of the outside world
// -- delivering a broadcast to each subscriber's channel, waiting the
// inter-generation delay, re-enqueueing the next Run -- is returned in a
// `StepEffect` for the surrounding event loop to perform.
// ---------------------------------------------------------------------------

/// The commands the simulation actor processes, strictly one at a time.
#[derive(Debug)]
pub enum GOLMessage {
    Run,
    Pause,
    Resume,
    Subscribe { id: String },
}

/// A notification delivered to a subscriber's channel.
#[derive(Debug, Clone)]
pub enum SubscribeMessage {
    OnChange { cells: Vec<Cell>, generation_index: i32 },
    OnPause { cells: Vec<Cell>, generation_index: i32 },
    OnResume { cells: Vec<Cell>, generation_index: i32 },
    Done,
    NoMessage,
}

/// The actor's state as mathematics: the current cell set, the run flag, the
/// generation counter, and the subscriber identifiers in registration order.
pub struct SimModel {
    pub running: bool,
    pub cells: Seq<Cell>,
    pub generation_index: int,
    pub subscribers: Seq<Seq<char>>,
}

/// A command, as mathematics.
pub enum EventModel {
    Run,
    Pause,
    Resume,
    Subscribe { id: Seq<char> },
}

/// A notification, as mathematics.
pub enum NoteModel {
    Change { cells: Seq<Cell>, index: int },
    Paused { cells: Seq<Cell>, index: int },
    Resumed { cells: Seq<Cell>, index: int },
}

/// One actor step: the next state, the notification broadcast to every
/// registered subscriber (if any), and whether a Run command is re-enqueued.
///
/// Run advances one generation only while the run flag is set; a Run that
/// arrives while paused is ignored, not an error. Pause and Resume flip the
/// flag, keep the cells and the counter untouched, and echo the current
/// snapshot. Subscribe only grows the registry; no notification is sent to
/// the new subscriber until the next broadcast.
pub open spec fn spec_step(s: SimModel, e: EventModel) -> (SimModel, Option<NoteModel>, bool) {
    match e {
        EventModel::Run => {
            if !s.running {
                (s, Option::None, false)
            } else {
                (
                    SimModel {
                        running: s.running,
                        cells: next_gen(s.cells),
                        generation_index: s.generation_index + 1,
                        subscribers: s.subscribers,
                    },
                    Option::Some(
                        NoteModel::Change {
                            cells: next_gen(s.cells),
                            index: s.generation_index + 1,
                        },
                    ),
                    true,
                )
            }
        },
        EventModel::Pause => (
            SimModel {
                running: false,
                cells: s.cells,
                generation_index: s.generation_index,
                subscribers: s.subscribers,
            },
            Option::Some(NoteModel::Paused { cells: s.cells, index: s.generation_index }),
            false,
        ),
        EventModel::Resume => (
            SimModel {
                running: true,
                cells: s.cells,
                generation_index: s.generation_index,
                subscribers: s.subscribers,
            },
            Option::Some(NoteModel::Resumed { cells: s.cells, index: s.generation_index }),
            true,
        ),
        EventModel::Subscribe { id } => (
            SimModel {
                running: s.running,
                cells: s.cells,
                generation_index: s.generation_index,
                subscribers: s.subscribers.push(id),
            },
            Option::None,
            false,
        ),
    }
}

impl View for GOLMessage {
    type V = EventModel;

    open spec fn view(&self) -> EventModel {
        match self {
            GOLMessage::Run => EventModel::Run,
            GOLMessage::Pause => EventModel::Pause,
            GOLMessage::Resume => EventModel::Resume,
            GOLMessage::Subscribe { id } => EventModel::Subscribe { id: id@ },
        }
    }
}

/// What a concrete notification states, as mathematics; `Done` and
/// `NoMessage` carry no snapshot.
pub open spec fn note_of(m: SubscribeMessage) -> Option<NoteModel> {
    match m {
        SubscribeMessage::OnChange { cells, generation_index } => Option::Some(
            NoteModel::Change { cells: cells@, index: generation_index as int },
        ),
        SubscribeMessage::OnPause { cells, generation_index } => Option::Some(
            NoteModel::Paused { cells: cells@, index: generation_index as int },
        ),
        SubscribeMessage::OnResume { cells, generation_index } => Option::Some(
            NoteModel::Resumed { cells: cells@, index: generation_index as int },
        ),
        SubscribeMessage::Done => Option::None,
        SubscribeMessage::NoMessage => Option::None,
    }
}

/// What one actor step asks the surrounding event loop to do.
pub struct StepEffect {
    pub broadcast: Option<SubscribeMessage>,
    pub reschedule_run: bool,
}

/// The effect agrees with the modelled step: same notification (if any) and
/// the same rescheduling decision.
pub open spec fn effect_matches(
    effect: StepEffect,
    note: Option<NoteModel>,
    reschedule: bool,
) -> bool {
    &&& effect.reschedule_run == reschedule
    &&& match effect.broadcast {
        Option::Some(m) => note_of(m) == note && !(note matches Option::None),
        Option::None => note matches Option::None,
    }
}

/// The simulation actor's state: single authoritative owner of the current
/// generation. Only `process_message` mutates it.
pub struct SimulationState {
    pub running: bool,
    pub rows: i32,
    pub cols: i32,
    pub cells: Vec<Cell>,
    pub generation_index: i32,
    pub subscribers: Vec<String>,
}

impl View for SimulationState {
    type V = SimModel;

    open spec fn view(&self) -> SimModel {
        SimModel {
            running: self.running,
            cells: self.cells@,
            generation_index: self.generation_index as int,
            subscribers: self.subscribers@.map_values(|s: String| s@),
        }
    }
}

impl SimulationState {
    /// The actor invariant: the cell set covers the grid exactly once and
    /// the generation counter never goes negative.
    pub open spec fn wf(self) -> bool {
        row_major(self.cells@, self.rows as int, self.cols as int) && 0 <= self.generation_index
    }

    /// The actor's initial state: the seeded board's cells, generation 0, no
    /// subscribers, and the run flag set so that the first Run command ticks.
    pub fn new(board: Board) -> (state: Self)
        requires
            board.wf(),
        ensures
            state.wf(),
            state@.running,
            state@.generation_index == 0,
            state@.cells == board.cells@,
            state@.subscribers.len() == 0,
            state.rows == board.rows,
            state.cols == board.cols,
    {
        let rows: i32 = board.rows;
        let cols: i32 = board.cols;
        let cells = board.take_cells();
        let state = SimulationState {
            running: true,
            rows,
            cols,
            cells,
            generation_index: 0,
            subscribers: Vec::new(),
        };
        proof {
            assert(state@.subscribers =~= Seq::<Seq<char>>::empty());
        }
        state
    }
}

/// An exact copy of the current cell set, handed out as a snapshot.
fn snapshot_cells(cells: &Vec<Cell>) -> (snap: Vec<Cell>)
    ensures
        snap@ == cells@,
{
    let mut snap: Vec<Cell> = Vec::new();
    let n: usize = cells.len();
    let mut i: usize = 0;
    while i < n
        invariant
            i <= n,
            n == cells@.len(),
            snap@ == cells@.take(i as int),
        decreases n - i,
    {
        snap.push(cells[i]);
        proof {
            assert(snap@ =~= cells@.take(i as int + 1));
        }
        i = i + 1;
    }
    proof {
        assert(snap@ =~= cells@);
    }
    snap
}

/// One step of the simulation actor: consume one command, mutate the state
/// exactly as `spec_step` says, and return what the event loop must do.
pub fn process_message(state: &mut SimulationState, message: GOLMessage) -> (effect: StepEffect)
    requires
        old(state).wf(),
        (message matches GOLMessage::Run) && old(state).running ==> old(state).generation_index
            < i32::MAX,
    ensures
        final(state).wf(),
        final(state).rows == old(state).rows,
        final(state).cols == old(state).cols,
        final(state)@ == spec_step(old(state)@, message@).0,
        effect_matches(
            effect,
            spec_step(old(state)@, message@).1,
            spec_step(old(state)@, message@).2,
        ),
{
    match message {
        GOLMessage::Run => {
            if !state.running {
                StepEffect { broadcast: Option::None, reschedule_run: false }
            } else {
                let new_cells = cells_transform(&state.cells, state.rows, state.cols);
                state.cells = new_cells;
                state.generation_index = state.generation_index + 1;
                let snap = snapshot_cells(&state.cells);
                StepEffect {
                    broadcast: Option::Some(
                        SubscribeMessage::OnChange {
                            cells: snap,
                            generation_index: state.generation_index,
                        },
                    ),
                    reschedule_run: true,
                }
            }
        },
        GOLMessage::Pause => {
            state.running = false;
            let snap = snapshot_cells(&state.cells);
            StepEffect {
                broadcast: Option::Some(
                    SubscribeMessage::OnPause {
                        cells: snap,
                        generation_index: state.generation_index,
                    },
                ),
                reschedule_run: false,
            }
        },
        GOLMessage::Resume => {
            state.running = true;
            let snap = snapshot_cells(&state.cells);
            StepEffect {
                broadcast: Option::Some(
                    SubscribeMessage::OnResume {
                        cells: snap,
                        generation_index: state.generation_index,
                    },
                ),
                reschedule_run: true,
            }
        },
        GOLMessage::Subscribe { id } => {
            let ghost old_subs = state.subscribers@;
            state.subscribers.push(id);
            proof {
                assert(state.subscribers@.map_values(|s: String| s@) =~= old_subs.map_values(
                    |s: String| s@,
                ).push(state.subscribers@.last()@));
            }
            StepEffect { broadcast: Option::None, reschedule_run: false }
        },
    }
}


// ---------------------------------------------------------------------------
// Laws of the actor.
// ---------------------------------------------------------------------------

/// The generation counter moves by exactly 1 on a processed Run while the
/// run flag is set, and stays put on every other step: it never decreases.
pub proof fn lemma_generation_monotonic(s: SimModel, e: EventModel)
    ensures
        spec_step(s, e).0.generation_index >= s.generation_index,
        (e matches EventModel::Run) && s.running ==> spec_step(s, e).0.generation_index
            == s.generation_index + 1,
        !((e matches EventModel::Run) && s.running) ==> spec_step(s, e).0.generation_index
            == s.generation_index,
{
}

/// The state after `n` consecutive Run commands.
pub open spec fn run_n(s: SimModel, n: nat) -> SimModel
    decreases n,
{
    if n == 0 {
        s
    } else {
        spec_step(run_n(s, (n - 1) as nat), EventModel::Run).0
    }
}

/// After `n` consecutive Run commands on a running simulation, the counter
/// has advanced by exactly `n` and the cells are `n` transitions of the
/// starting cells; the run flag and the subscriber registry are untouched.
pub proof fn lemma_n_runs(s: SimModel, n: nat)
    requires
        s.running,
    ensures
        run_n(s, n).running,
        run_n(s, n).generation_index == s.generation_index + n,
        run_n(s, n).cells == iterate_next_gen(s.cells, n),
        run_n(s, n).subscribers == s.subscribers,
    decreases n,
{
    if n > 0 {
        lemma_n_runs(s, (n - 1) as nat);
    }
}

/// Over any sequence of commands, the generation counter never decreases.
pub proof fn lemma_generation_never_decreases(s: SimModel, events: Seq<EventModel>)
    ensures
        process_all(s, events).generation_index >= s.generation_index,
    decreases events.len(),
{
    if events.len() > 0 {
        lemma_generation_monotonic(s, events[0]);
        lemma_generation_never_decreases(spec_step(s, events[0]).0, events.drop_first());
    }
}

/// The state after a whole sequence of commands, processed in order.
pub open spec fn process_all(s: SimModel, events: Seq<EventModel>) -> SimModel
    decreases events.len(),
{
    if events.len() == 0 {
        s
    } else {
        process_all(spec_step(s, events[0]).0, events.drop_first())
    }
}

/// Registration is never lost: a subscriber on the registry now is still on
/// it after any sequence of commands, since no step removes an entry.
pub proof fn lemma_subscriber_retained(s: SimModel, events: Seq<EventModel>, id: Seq<char>)
    requires
        s.subscribers.contains(id),
    ensures
        process_all(s, events).subscribers.contains(id),
    decreases events.len(),
{
    if events.len() > 0 {
        let s1 = spec_step(s, events[0]).0;
        let k = choose|k: int| 0 <= k < s.subscribers.len() && s.subscribers[k] == id;
        assert(s1.subscribers[k] == id);
        lemma_subscriber_retained(s1, events.drop_first(), id);
    }
}

/// Who a step's notification goes to: every subscriber registered when the
/// broadcast happens, and nobody when there is no broadcast.
pub open spec fn broadcast_recipients(s: SimModel, e: EventModel) -> Seq<Seq<char>> {
    if spec_step(s, e).1 matches Option::Some(_) {
        spec_step(s, e).0.subscribers
    } else {
        Seq::empty()
    }
}

/// Every broadcast reaches every subscriber registered before it: with
/// `lemma_subscriber_retained`, a subscription issued before any Run is in
/// the recipient set of every subsequent OnChange/OnPause/OnResume.
pub proof fn lemma_broadcast_reaches_registered(s: SimModel, e: EventModel, id: Seq<char>)
    requires
        s.subscribers.contains(id),
        spec_step(s, e).1 matches Option::Some(_),
    ensures
        broadcast_recipients(s, e).contains(id),
{
    let k = choose|k: int| 0 <= k < s.subscribers.len() && s.subscribers[k] == id;
    assert(spec_step(s, e).0.subscribers[k] == id);
}

/// Pause then Resume preserves the snapshot: OnResume carries exactly the
/// cells and index that the preceding OnPause carried, and the first Run
/// processed after the Resume broadcasts OnChange with that index + 1 and
/// one transition of those cells.
pub proof fn lemma_pause_resume(s: SimModel)
    ensures
        spec_step(s, EventModel::Pause).1 == Option::Some(
            NoteModel::Paused { cells: s.cells, index: s.generation_index },
        ),
        spec_step(spec_step(s, EventModel::Pause).0, EventModel::Resume).1 == Option::Some(
            NoteModel::Resumed { cells: s.cells, index: s.generation_index },
        ),
        spec_step(
            spec_step(spec_step(s, EventModel::Pause).0, EventModel::Resume).0,
            EventModel::Run,
        ).1 == Option::Some(
            NoteModel::Change { cells: next_gen(s.cells), index: s.generation_index + 1 },
        ),
{
}

} // verus!
