//! The executable engine: cell states, boundary-aware neighbor counting, the
//! transition rule, the per-generation step, and the `Simulator` that owns the
//! validated configuration and drives the generation loop.

use vstd::prelude::*;

use crate::codec::{encode_cells, encode_grid_spec};
use crate::model::{alive_at, gen_k, grid_wf, neighbor_count, next_alive, step_spec};

verus! {

/// The state of one grid cell.
#[derive(Clone, Copy, PartialEq, Eq, Structural, Debug)]
pub enum CellState {
    Dead,
    Alive,
}

impl CellState {
    /// The model of a cell state: `true` exactly for `Alive`.
    pub open spec fn is_alive(self) -> bool {
        self is Alive
    }
}

/// The error kinds of the library. Construction rejects malformed grids with
/// `ConfigurationError`; the snapshot reader rejects malformed input with
/// `ParseError`. `IOError` and `ComputationFault` classify failures of the
/// surrounding collaborators (sinks and workers) that abort a run.
#[derive(Clone, Copy, PartialEq, Eq, Structural, Debug)]
pub enum SimError {
    ConfigurationError,
    ParseError,
    IOError,
    ComputationFault,
}

/// One cell of a generation, tagged with its own position in the grid.
#[derive(Clone, Copy)]
pub struct Cell {
    pub state: CellState,
    pub row: usize,
    pub col: usize,
}

/// The model of one row of `CellState` values.
pub open spec fn row_view(row: Seq<CellState>) -> Seq<bool> {
    row.map(|j: int, c: CellState| c.is_alive())
}

/// The model of a grid given as rows of `CellState`.
pub open spec fn rows_view(rows: Seq<Vec<CellState>>) -> Seq<Seq<bool>> {
    rows.map(|i: int, row: Vec<CellState>| row_view(row@))
}

/// The model of a grid given as rows of position-tagged `Cell`s.
pub open spec fn cells_view(rows: Seq<Vec<Cell>>) -> Seq<Seq<bool>> {
    rows.map(|i: int, row: Vec<Cell>| row@.map(|j: int, c: Cell| c.state.is_alive()))
}

/// Every cell of the grid is tagged with its actual position.
pub open spec fn cells_wf(rows: Seq<Vec<Cell>>) -> bool {
    forall|r: int, c: int|
        0 <= r < rows.len() && 0 <= c < rows[r]@.len() ==> (#[trigger] rows[r]@[c]).row == r
            && rows[r]@[c].col == c
}

/// Whether the cell at `(r, c)` of `g` is alive; `(r, c)` must be in bounds.
fn is_alive_cell(g: &Vec<Vec<Cell>>, r: usize, c: usize) -> (b: bool)
    requires
        r < g@.len(),
        c < g@[r as int]@.len(),
    ensures
        b == alive_at(cells_view(g@), r as int, c as int),
{
    match g[r][c].state {
        CellState::Alive => true,
        CellState::Dead => false,
    }
}

impl Cell {
    /// Count the alive cells among the 8 neighbors of this cell's position in
    /// the previous generation. Positions outside the grid are absent and
    /// contribute nothing, at every edge and corner.
    pub fn count_alive_neighbours(&self, prev_state: &Vec<Vec<Cell>>) -> (n: usize)
        requires
            grid_wf(cells_view(prev_state@)),
            self.row < prev_state@.len(),
            self.col < prev_state@[self.row as int]@.len(),
        ensures
            n == neighbor_count(cells_view(prev_state@), self.row as int, self.col as int),
    {
        proof {
            let g = cells_view(prev_state@);
            assert forall|i: int| 0 <= i < prev_state@.len() implies #[trigger] prev_state@[i]@.len()
                == g[i].len() by {
                assert(g[i] == prev_state@[i]@.map(|j: int, cc: Cell| cc.state.is_alive()));
            }
            assert(g[self.row as int].len() == g[0].len());
        }
        let height = prev_state.len();
        let width = prev_state[0].len();
        let r = self.row;
        let c = self.col;
        let mut n: usize = 0;
        if r > 0 {
            if c > 0 && is_alive_cell(prev_state, r - 1, c - 1) {
                n = n + 1;
            }
            if is_alive_cell(prev_state, r - 1, c) {
                n = n + 1;
            }
            if c + 1 < width && is_alive_cell(prev_state, r - 1, c + 1) {
                n = n + 1;
            }
        }
        if c > 0 && is_alive_cell(prev_state, r, c - 1) {
            n = n + 1;
        }
        if c + 1 < width && is_alive_cell(prev_state, r, c + 1) {
            n = n + 1;
        }
        if r + 1 < height {
            if c > 0 && is_alive_cell(prev_state, r + 1, c - 1) {
                n = n + 1;
            }
            if is_alive_cell(prev_state, r + 1, c) {
                n = n + 1;
            }
            if c + 1 < width && is_alive_cell(prev_state, r + 1, c + 1) {
                n = n + 1;
            }
        }
        n
    }

    /// The transition rule: the next state of this cell given its alive
    /// neighbor count.
    pub fn conways_rules(&self, alive_neighbours: usize) -> (r: CellState)
        ensures
            r.is_alive() == next_alive(self.state.is_alive(), alive_neighbours as int),
    {
        match self.state {
            CellState::Alive => {
                if alive_neighbours < 2 || alive_neighbours > 3 {
                    CellState::Dead
                } else {
                    CellState::Alive
                }
            },
            CellState::Dead => {
                if alive_neighbours == 3 {
                    CellState::Alive
                } else {
                    CellState::Dead
                }
            },
        }
    }

    /// This cell's successor: same position, state given by the transition
    /// rule applied to its neighbor count in the previous generation.
    pub fn iterate(self, prev_state: &Vec<Vec<Cell>>) -> (next: Cell)
        requires
            grid_wf(cells_view(prev_state@)),
            self.row < prev_state@.len(),
            self.col < prev_state@[self.row as int]@.len(),
        ensures
            next.row == self.row,
            next.col == self.col,
            next.state.is_alive() == next_alive(
                self.state.is_alive(),
                neighbor_count(cells_view(prev_state@), self.row as int, self.col as int),
            ),
    {
        let alive_neighbours = self.count_alive_neighbours(prev_state);
        Cell { state: self.conways_rules(alive_neighbours), row: self.row, col: self.col }
    }
}

/// One generation step: a new grid of the same shape where every cell's state
/// is the transition rule applied to its 8-neighborhood in `prev`. The rows
/// are independent of one another, so they may be computed in any order; the
/// result is the same either way.
pub fn step_states(prev: &Vec<Vec<Cell>>) -> (next: Vec<Vec<Cell>>)
    requires
        grid_wf(cells_view(prev@)),
        cells_wf(prev@),
    ensures
        cells_view(next@) == step_spec(cells_view(prev@)),
        cells_wf(next@),
        next@.len() == prev@.len(),
        forall|r: int| 0 <= r < next@.len() ==> #[trigger] next@[r]@.len() == prev@[r]@.len(),
{
    let ghost g = cells_view(prev@);
    let mut next: Vec<Vec<Cell>> = Vec::new();
    let height = prev.len();
    let mut x: usize = 0;
    while x < height
        invariant
            height == prev@.len(),
            grid_wf(g),
            cells_wf(prev@),
            g == cells_view(prev@),
            x <= height,
            next@.len() == x,
            forall|r: int| 0 <= r < x ==> #[trigger] next@[r]@.len() == prev@[r]@.len(),
            forall|r: int, c: int|
                0 <= r < x && 0 <= c < next@[r]@.len() ==> (#[trigger] next@[r]@[c]).row == r
                    && next@[r]@[c].col == c,
            forall|r: int, c: int|
                0 <= r < x && 0 <= c < next@[r]@.len()
                    ==> (#[trigger] next@[r]@[c]).state.is_alive() == next_alive(
                    g[r][c],
                    neighbor_count(g, r, c),
                ),
        decreases height - x,
    {
        let row = &prev[x];
        let width = row.len();
        let mut new_row: Vec<Cell> = Vec::new();
        let mut y: usize = 0;
        while y < width
            invariant
                height == prev@.len(),
                grid_wf(g),
                cells_wf(prev@),
                g == cells_view(prev@),
                x < height,
                width == prev@[x as int]@.len(),
                y <= width,
                new_row@.len() == y,
                forall|c: int|
                    0 <= c < y ==> (#[trigger] new_row@[c]).row == x && new_row@[c].col == c,
                forall|c: int|
                    0 <= c < y ==> (#[trigger] new_row@[c]).state.is_alive() == next_alive(
                        g[x as int][c],
                        neighbor_count(g, x as int, c),
                    ),
            decreases width - y,
        {
            let cell = prev[x][y];
            assert(cell.row == x && cell.col == y);
            assert(g[x as int][y as int] == cell.state.is_alive());
            let new_cell = cell.iterate(prev);
            new_row.push(new_cell);
            y = y + 1;
        }
        next.push(new_row);
        x = x + 1;
    }
    assert(cells_view(next@) =~~= step_spec(g));
    next
}

/// The simulation: the validated configuration (iteration count, optional
/// output sink), the initial grid, and the generation counter.
pub struct Simulator {
    iteration_num: u32,
    height: usize,
    width: usize,
    output_dir: Option<String>,
    starting_states: Vec<Vec<CellState>>,
    current_iteration: u32,
}

impl Simulator {
    /// The model of the initial grid.
    pub closed spec fn initial(self) -> Seq<Seq<bool>> {
        rows_view(self.starting_states@)
    }

    /// The configured number of generation steps.
    pub closed spec fn iterations(self) -> u32 {
        self.iteration_num
    }

    /// How many generation steps have been completed.
    pub closed spec fn counter(self) -> u32 {
        self.current_iteration
    }

    /// The configured output sink; `None` means no persistence.
    pub closed spec fn sink(self) -> Option<String> {
        self.output_dir
    }

    /// The internal invariant: a well-formed initial grid, the cached
    /// dimensions in agreement with it, and the counter within range.
    pub closed spec fn wf(self) -> bool {
        &&& grid_wf(self.initial())
        &&& self.height == self.starting_states@.len()
        &&& self.width == self.starting_states@[0]@.len()
        &&& self.current_iteration <= self.iteration_num
    }

    /// Validate the supplied rows and build a `Simulator`. Construction fails
    /// with `ConfigurationError` exactly when there are zero rows, the first
    /// row is empty, or some row's length differs from the first row's.
    pub fn new(iteration_num: u32, output_dir: Option<String>, starting_states: Vec<Vec<CellState>>) -> (r:
        Result<Simulator, SimError>)
        ensures
            match r {
                Ok(sim) => {
                    &&& grid_wf(rows_view(starting_states@))
                    &&& sim.wf()
                    &&& sim.initial() == rows_view(starting_states@)
                    &&& sim.iterations() == iteration_num
                    &&& sim.counter() == 0
                    &&& sim.sink() == output_dir
                },
                Err(e) => {
                    &&& !grid_wf(rows_view(starting_states@))
                    &&& e == SimError::ConfigurationError
                },
            },
    {
        proof {
            let rows = rows_view(starting_states@);
            assert forall|i: int| 0 <= i < starting_states@.len() implies #[trigger] starting_states@[i]@.len()
                == rows[i].len() by {
                assert(rows[i] == row_view(starting_states@[i]@));
            }
        }
        if starting_states.len() < 1 {
            return Err(SimError::ConfigurationError);
        }
        let row_length = starting_states[0].len();
        if row_length == 0 {
            return Err(SimError::ConfigurationError);
        }
        let mut i: usize = 0;
        while i < starting_states.len()
            invariant
                i <= starting_states@.len(),
                row_length == rows_view(starting_states@)[0].len(),
                forall|r: int|
                    0 <= r < i ==> #[trigger] rows_view(starting_states@)[r].len() == row_length,
                forall|r: int|
                    0 <= r < starting_states@.len() ==> #[trigger] starting_states@[r]@.len()
                        == rows_view(starting_states@)[r].len(),
            decreases starting_states@.len() - i,
        {
            if starting_states[i].len() != row_length {
                return Err(SimError::ConfigurationError);
            }
            i = i + 1;
        }
        Ok(
            Simulator {
                iteration_num,
                height: starting_states.len(),
                width: row_length,
                output_dir,
                starting_states,
                current_iteration: 0,
            },
        )
    }

    /// Build the position-tagged cell grid of generation 0 from the stored
    /// initial states.
    pub fn create_initial_states(&self) -> (states: Vec<Vec<Cell>>)
        requires
            self.wf(),
        ensures
            cells_view(states@) == self.initial(),
            cells_wf(states@),
    {
        let mut states: Vec<Vec<Cell>> = Vec::new();
        let mut x: usize = 0;
        while x < self.starting_states.len()
            invariant
                x <= self.starting_states@.len(),
                states@.len() == x,
                forall|r: int|
                    0 <= r < x ==> #[trigger] states@[r]@.len()
                        == self.starting_states@[r]@.len(),
                forall|r: int, c: int|
                    0 <= r < x && 0 <= c < states@[r]@.len() ==> (#[trigger] states@[r]@[c]).row
                        == r && states@[r]@[c].col == c,
                forall|r: int, c: int|
                    0 <= r < x && 0 <= c < states@[r]@.len()
                        ==> (#[trigger] states@[r]@[c]).state
                        == self.starting_states@[r]@[c],
            decreases self.starting_states@.len() - x,
        {
            let mut row: Vec<Cell> = Vec::new();
            let mut y: usize = 0;
            while y < self.starting_states[x].len()
                invariant
                    x < self.starting_states@.len(),
                    y <= self.starting_states@[x as int]@.len(),
                    row@.len() == y,
                    forall|c: int|
                        0 <= c < y ==> (#[trigger] row@[c]).row == x && row@[c].col == c,
                    forall|c: int|
                        0 <= c < y ==> (#[trigger] row@[c]).state
                            == self.starting_states@[x as int]@[c],
                decreases self.starting_states@[x as int]@.len() - y,
            {
                row.push(Cell { state: self.starting_states[x][y], row: x, col: y });
                y = y + 1;
            }
            states.push(row);
            x = x + 1;
        }
        proof {
            assert forall|r: int| 0 <= r < states@.len() implies #[trigger] cells_view(states@)[r]
                == row_view(self.starting_states@[r]@) by {
                assert(cells_view(states@)[r] == states@[r]@.map(
                    |j: int, c: Cell| c.state.is_alive(),
                ));
                assert(cells_view(states@)[r] =~= row_view(self.starting_states@[r]@));
            }
            assert(cells_view(states@) =~= self.initial());
        }
        states
    }
}

/// The snapshot sequence a run owes: for each of the `n` steps, the rendering
/// of the grid that the step produced (the first computed generation is the
/// first snapshot; the initial grid is never itself snapshotted).
pub open spec fn snapshots_spec(init: Seq<Seq<bool>>, n: nat) -> Seq<Seq<u8>> {
    Seq::new(n, |i: int| encode_grid_spec(gen_k(init, (i + 1) as nat)))
}

/// Determinism: the snapshot sequence of a run is a function of the initial
/// grid and the step count alone, so any two runs that start alike produce
/// byte-identical snapshot sequences, whatever order the per-row computations
/// completed in.
pub proof fn lemma_snapshots_deterministic(
    init: Seq<Seq<bool>>,
    n: nat,
    a: Seq<Seq<u8>>,
    b: Seq<Seq<u8>>,
)
    requires
        a == snapshots_spec(init, n),
        b == snapshots_spec(init, n),
    ensures
        a == b,
{
}

impl Simulator {
    /// Run the generation loop to completion: starting from the initial grid,
    /// repeatedly compute the next generation and render it, until as many
    /// steps as configured are done. Returns the renderings in order; the
    /// caller persists them (or drops them when no sink is configured).
    pub fn run_simulation(&mut self) -> (snapshots: Vec<Vec<u8>>)
        requires
            old(self).wf(),
        ensures
            final(self).wf(),
            final(self).initial() == old(self).initial(),
            final(self).iterations() == old(self).iterations(),
            final(self).sink() == old(self).sink(),
            final(self).counter() == old(self).iterations(),
            snapshots@.map(|i: int, v: Vec<u8>| v@) == snapshots_spec(
                old(self).initial(),
                (old(self).iterations() - old(self).counter()) as nat,
            ),
    {
        let ghost init = self.initial();
        let ghost c0 = self.current_iteration;
        let mut snapshots: Vec<Vec<u8>> = Vec::new();
        let mut current = self.create_initial_states();
        while self.current_iteration < self.iteration_num
            invariant
                self.wf(),
                self.starting_states == old(self).starting_states,
                self.iteration_num == old(self).iteration_num,
                self.output_dir == old(self).output_dir,
                self.height == old(self).height,
                self.width == old(self).width,
                init == self.initial(),
                c0 == old(self).current_iteration,
                c0 <= self.current_iteration <= self.iteration_num,
                grid_wf(cells_view(current@)),
                cells_wf(current@),
                cells_view(current@) == gen_k(init, (self.current_iteration - c0) as nat),
                snapshots@.len() == self.current_iteration - c0,
                forall|i: int|
                    0 <= i < snapshots@.len() ==> snapshots@[i]@ == encode_grid_spec(
                        gen_k(init, (i + 1) as nat),
                    ),
            decreases self.iteration_num - self.current_iteration,
        {
            let ghost k = (self.current_iteration - c0) as nat;
            let next = step_states(&current);
            proof {
                crate::model::lemma_step_preserves_wf(cells_view(current@));
                assert(cells_view(next@) == gen_k(init, (k + 1) as nat));
            }
            let snap = encode_cells(&next);
            snapshots.push(snap);
            current = next;
            self.current_iteration = self.current_iteration + 1;
        }
        proof {
            let n = (old(self).iteration_num - c0) as nat;
            assert(snapshots@.map(|i: int, v: Vec<u8>| v@) =~= snapshots_spec(init, n));
        }
        snapshots
    }
}

/// Relies on `rand::random_range`: returns a value inside the given range,
/// uniformly; the range `0..=1` is never empty, so the call cannot panic.
#[verifier::external_body]
fn random_bit() -> (r: u8)
    ensures
        r == 0 || r == 1,
{
    rand::random_range(0..=1u8)
}

/// A grid of the given dimensions whose cells are drawn independently and
/// uniformly from { `Dead`, `Alive` }. Which states come out is chance; the
/// shape is not.
pub fn generate_grid(height: usize, width: usize) -> (g: Vec<Vec<CellState>>)
    ensures
        g@.len() == height,
        forall|r: int| 0 <= r < height ==> #[trigger] g@[r]@.len() == width,
{
    let mut g: Vec<Vec<CellState>> = Vec::new();
    let mut x: usize = 0;
    while x < height
        invariant
            x <= height,
            g@.len() == x,
            forall|r: int| 0 <= r < x ==> #[trigger] g@[r]@.len() == width,
        decreases height - x,
    {
        let mut row: Vec<CellState> = Vec::new();
        let mut y: usize = 0;
        while y < width
            invariant
                y <= width,
                row@.len() == y,
            decreases width - y,
        {
            let rn = random_bit();
            let cell = if rn == 0 {
                CellState::Dead
            } else {
                CellState::Alive
            };
            row.push(cell);
            y = y + 1;
        }
        g.push(row);
        x = x + 1;
    }
    g
}

} // verus!
