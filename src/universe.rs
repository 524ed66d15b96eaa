use vstd::prelude::*;
use vstd::arithmetic::div_mod::{lemma_fundamental_div_mod_converse, lemma_small_mod};
use crate::cell::{liveness, Cell, CellState};
use crate::chance::draw_ratio;

verus! {

/// Chance that a cell starts out alive: `LIVE_NUMERATOR / LIVE_DENOMINATOR`.
pub const LIVE_NUMERATOR: u32 = 3;

/// See `LIVE_NUMERATOR`.
pub const LIVE_DENOMINATOR: u32 = 20;

/// Construction was asked for a grid that cannot exist.
#[derive(Clone, Copy, Debug, PartialEq, Eq, Structural)]
pub struct InvalidConfiguration;

/// A toroidal grid of cells, stored row-major: the cell at column `x` and
/// row `y` sits at index `x + y * width`.
pub struct Universe {
    width: u32,
    height: u32,
    pub cells: Vec<Cell>,
}

/// Linear index of grid coordinate `(x, y)` on a grid `width` cells wide.
pub open spec fn index_of(width: int, x: int, y: int) -> int {
    x + y * width
}

/// The eight offsets of the Moore neighbourhood.
pub open spec fn neighbor_offsets() -> Seq<(int, int)> {
    seq![(-1, -1), (0, -1), (1, -1), (-1, 0), (1, 0), (-1, 1), (0, 1), (1, 1)]
}

/// The `k`-th neighbour of `(x, y)`, wrapped around both edges.
pub open spec fn neighbor(width: int, height: int, x: int, y: int, k: int) -> (int, int) {
    ((x + neighbor_offsets()[k].0) % width, (y + neighbor_offsets()[k].1) % height)
}

/// One if the cell at grid coordinate `c` is alive, zero otherwise.
pub open spec fn live_at(cells: Seq<Cell>, width: int, c: (int, int)) -> int {
    liveness(cells[index_of(width, c.0, c.1)].state)
}

/// Live cells among the first `k` neighbours of `(x, y)`.
pub open spec fn live_among(cells: Seq<Cell>, width: int, height: int, x: int, y: int, k: nat) -> int
    decreases k,
{
    if k == 0 {
        0
    } else {
        live_among(cells, width, height, x, y, (k - 1) as nat)
            + live_at(cells, width, neighbor(width, height, x, y, k - 1))
    }
}

/// Live cells among all eight neighbours of `(x, y)` on the torus.
pub open spec fn neighbor_count(cells: Seq<Cell>, width: int, height: int, x: int, y: int) -> int {
    live_among(cells, width, height, x, y, 8)
}

/// The transition rule: a cell's next state from its state and its live
/// neighbour count.
pub open spec fn next_state(s: CellState, n: int) -> CellState {
    match s {
        CellState::Alive => if n < 2 {
            CellState::Dead
        } else if n <= 3 {
            CellState::Alive
        } else {
            CellState::Dead
        },
        CellState::Dead => if n == 3 {
            CellState::Alive
        } else {
            CellState::Dead
        },
    }
}

/// The cell at index `i` one generation on: same geometry, next state.
pub open spec fn next_cell(cells: Seq<Cell>, width: int, height: int, i: int) -> Cell {
    Cell {
        state: next_state(cells[i].state, neighbor_count(cells, width, height, i % width, i / width)),
        ..cells[i]
    }
}

/// The whole buffer one generation on.
pub open spec fn next_generation(cells: Seq<Cell>, width: int, height: int) -> Seq<Cell> {
    Seq::new(cells.len(), |i: int| next_cell(cells, width, height, i))
}

/// `a / b` rounded to the nearest integer, halves away from zero.
pub open spec fn rounded_quotient(a: int, b: int) -> int {
    if a >= 0 {
        (2 * a + b) / (2 * b)
    } else {
        -((-2 * a + b) / (2 * b))
    }
}

/// Whether `v` is representable as an `i32`.
pub open spec fn fits_i32(v: int) -> bool {
    i32::MIN <= v <= i32::MAX
}

/// Whether a square grid of `side_length` cells per axis, filling a window of
/// `window_size` pixels, has every pixel coordinate representable and every
/// cell addressable.
pub open spec fn geometry_fits(window_size: int, side_length: int) -> bool {
    &&& fits_i32((side_length - 1) * rounded_quotient(window_size, side_length))
    &&& side_length * side_length <= usize::MAX
}

/// The buffer of a square grid of `side_length` cells per axis in a window of
/// `window_size` pixels, with cell `i` in state `states[i]`.
pub open spec fn laid_out(window_size: int, side_length: int, states: Seq<CellState>) -> Seq<Cell> {
    let offset = rounded_quotient(window_size, side_length);
    Seq::new(
        states.len(),
        |i: int|
            Cell {
                state: states[i],
                x: ((i % side_length) * offset) as i32,
                y: ((i / side_length) * offset) as i32,
                size: offset as i32,
            },
    )
}

/// Wrapped predecessor and successor of `v` on a ring of `n` positions.
pub(crate) proof fn lemma_wrap(v: int, n: int)
    requires
        0 <= v < n,
    ensures
        v % n == v,
        (v - 1) % n == if v == 0 { n - 1 } else { v - 1 },
        (v + 1) % n == if v + 1 == n { 0 } else { v + 1 },
{
    lemma_small_mod(v as nat, n as nat);
    if v == 0 {
        lemma_fundamental_div_mod_converse(v - 1, n, -1, n - 1);
    } else {
        lemma_small_mod((v - 1) as nat, n as nat);
    }
    if v + 1 == n {
        lemma_fundamental_div_mod_converse(v + 1, n, 1, 0);
    } else {
        lemma_small_mod((v + 1) as nat, n as nat);
    }
}

/// The eight neighbours of an in-range `(x, y)`, spelled out with the edges
/// resolved, and the live count as their sum.
pub(crate) proof fn lemma_neighbors_of(cells: Seq<Cell>, width: int, height: int, x: int, y: int)
    requires
        0 <= x < width,
        0 <= y < height,
    ensures
        ({
            let l = if x == 0 { width - 1 } else { x - 1 };
            let r = if x + 1 == width { 0 } else { x + 1 };
            let u = if y == 0 { height - 1 } else { y - 1 };
            let d = if y + 1 == height { 0 } else { y + 1 };
            neighbor_count(cells, width, height, x, y) == live_at(cells, width, (l, u))
                + live_at(cells, width, (x, u)) + live_at(cells, width, (r, u))
                + live_at(cells, width, (l, y)) + live_at(cells, width, (r, y))
                + live_at(cells, width, (l, d)) + live_at(cells, width, (x, d))
                + live_at(cells, width, (r, d))
        }),
{
    lemma_wrap(x, width);
    lemma_wrap(y, height);
    reveal_with_fuel(live_among, 9);
}

impl Universe {
    /// Cells per row.
    pub closed spec fn grid_width(self) -> int {
        self.width as int
    }

    /// Cells per column.
    pub closed spec fn grid_height(self) -> int {
        self.height as int
    }

    /// The cell buffer as a sequence.
    pub closed spec fn buffer(self) -> Seq<Cell> {
        self.cells@
    }

    /// The buffer holds exactly one cell per grid coordinate.
    pub open spec fn wf(self) -> bool {
        &&& self.grid_width() > 0
        &&& self.grid_height() > 0
        &&& self.grid_width() * self.grid_height() <= usize::MAX
        &&& self.buffer().len() == self.grid_width() * self.grid_height()
    }

    /// Builds a square grid of `side_length` cells per axis that fills a
    /// window of `window_size` pixels, each cell alive with chance
    /// `LIVE_NUMERATOR / LIVE_DENOMINATOR`, drawn independently. Fails when
    /// the side is not positive, or when the grid's pixel coordinates or its
    /// cell count do not fit the machine's integers.
    pub fn new(window_size: i32, side_length: i32) -> (r: Result<Universe, InvalidConfiguration>)
        ensures
            r is Err <==> (side_length <= 0 || !geometry_fits(window_size as int, side_length as int)),
            r matches Ok(u) ==> {
                &&& u.wf()
                &&& u.grid_width() == side_length
                &&& u.grid_height() == side_length
                &&& u.buffer().len() == side_length * side_length
                &&& u.buffer() == laid_out(
                    window_size as int,
                    side_length as int,
                    u.buffer().map_values(|c: Cell| c.state),
                )
            },
    {
        if side_length <= 0 || !Self::geometry_fits(window_size, side_length) {
            return Err(InvalidConfiguration);
        }
        let n = side_length as usize * side_length as usize;
        let mut rng = rand::thread_rng();
        let mut states: Vec<CellState> = Vec::new();
        while states.len() < n
            invariant
                states@.len() <= n,
            decreases n - states@.len(),
        {
            let state = if draw_ratio(&mut rng, LIVE_NUMERATOR, LIVE_DENOMINATOR) {
                CellState::Alive
            } else {
                CellState::Dead
            };
            states.push(state);
        }
        let r = Self::from_states(window_size, side_length, states);
        proof {
            if r is Ok {
                let u = r->Ok_0;
                assert(u.buffer().map_values(|c: Cell| c.state) =~= states@);
            }
        }
        r
    }

    /// Builds a square grid of `side_length` cells per axis that fills a
    /// window of `window_size` pixels, with the cell at index `i` in state
    /// `states[i]`. Fails when the side is not positive, when the grid's
    /// pixel coordinates or its cell count do not fit the machine's integers,
    /// or when `states` does not hold one state per cell.
    pub fn from_states(window_size: i32, side_length: i32, states: Vec<CellState>) -> (r: Result<
        Universe,
        InvalidConfiguration,
    >)
        ensures
            r is Err <==> (side_length <= 0 || !geometry_fits(window_size as int, side_length as int)
                || states@.len() != side_length * side_length),
            r matches Ok(u) ==> {
                &&& u.wf()
                &&& u.grid_width() == side_length
                &&& u.grid_height() == side_length
                &&& u.buffer() == laid_out(window_size as int, side_length as int, states@)
            },
    {
        if side_length <= 0 || !Self::geometry_fits(window_size, side_length) {
            return Err(InvalidConfiguration);
        }
        let side = side_length as usize;
        if states.len() != side * side {
            return Err(InvalidConfiguration);
        }
        let offset = Self::cell_size(window_size, side_length);
        let ghost spec_cells = laid_out(window_size as int, side_length as int, states@);
        let mut cells: Vec<Cell> = Vec::new();
        let mut i: usize = 0;
        while i < states.len()
            invariant
                side == side_length,
                side > 0,
                offset == rounded_quotient(window_size as int, side_length as int),
                fits_i32((side - 1) * offset),
                states@.len() == side * side,
                i <= states@.len(),
                cells@.len() == i,
                spec_cells == laid_out(window_size as int, side_length as int, states@),
                forall|j: int| 0 <= j < i ==> cells@[j] == spec_cells[j],
            decreases states@.len() - i,
        {
            let gx = i % side;
            let gy = i / side;
            proof {
                assert(gy < side) by (nonlinear_arith)
                    requires
                        gy == i / side,
                        i < side * side,
                        side > 0,
                ;
                assert(fits_i32(gx * offset) && fits_i32(gy * offset)) by (nonlinear_arith)
                    requires
                        0 <= gx < side,
                        0 <= gy < side,
                        fits_i32((side - 1) * offset),
                ;
            }
            let px = (gx as i64 * offset as i64) as i32;
            let py = (gy as i64 * offset as i64) as i32;
            cells.push(Cell { state: states[i], x: px, y: py, size: offset });
            i = i + 1;
        }
        proof {
            assert(cells@ =~= spec_cells);
        }
        Ok(Universe { width: side_length as u32, height: side_length as u32, cells })
    }

    /// Whether a grid of `side_length` cells per axis in a window of
    /// `window_size` pixels has representable coordinates and cell count.
    fn geometry_fits(window_size: i32, side_length: i32) -> (r: bool)
        requires
            side_length > 0,
        ensures
            r == geometry_fits(window_size as int, side_length as int),
    {
        let offset = Self::cell_size(window_size, side_length) as i64;
        let side = side_length as i64;
        proof {
            assert(-0x4000_0000_0000_0000 <= (side - 1) * offset <= 0x4000_0000_0000_0000) by (nonlinear_arith)
                requires
                    1 <= side <= i32::MAX,
                    i32::MIN <= offset <= i32::MAX,
            ;
            assert(side * side <= 0x4000_0000_0000_0000) by (nonlinear_arith)
                requires
                    1 <= side <= i32::MAX,
            ;
        }
        let corner = (side - 1) * offset;
        let count = (side * side) as u64;
        i32::MIN as i64 <= corner && corner <= i32::MAX as i64 && count <= usize::MAX as u64
    }

    /// Pixel side of one cell: the window size divided by the cells per
    /// axis, rounded to the nearest integer.
    fn cell_size(window_size: i32, side_length: i32) -> (r: i32)
        requires
            side_length > 0,
        ensures
            r == rounded_quotient(window_size as int, side_length as int),
    {
        let a = window_size as i64;
        let b = side_length as i64;
        if a >= 0 {
            proof {
                assert((2 * a + b) / (2 * b) <= a) by (nonlinear_arith)
                    requires
                        a >= 0,
                        b >= 1,
                ;
            }
            ((2 * a + b) / (2 * b)) as i32
        } else {
            proof {
                assert((-2 * a + b) / (2 * b) <= -a) by (nonlinear_arith)
                    requires
                        a < 0,
                        b >= 1,
                ;
            }
            (-((-2 * a + b) / (2 * b))) as i32
        }
    }

    /// Cells per row.
    pub fn width(&self) -> (r: u32)
        ensures
            r == self.grid_width(),
    {
        self.width
    }

    /// Cells per column.
    pub fn height(&self) -> (r: u32)
        ensures
            r == self.grid_height(),
    {
        self.height
    }

    /// Index of the cell at column `x`, row `y`.
    pub fn get_index(&self, x: u32, y: u32) -> (r: usize)
        requires
            self.wf(),
            x < self.grid_width(),
            y < self.grid_height(),
        ensures
            r == index_of(self.grid_width(), x as int, y as int),
            r < self.buffer().len(),
    {
        let w = self.width as usize;
        let h = self.height as usize;
        proof {
            assert((y as int) * (w as int) + (x as int) < (w as int) * (h as int)) by (nonlinear_arith)
                requires
                    x < w,
                    y < h,
            ;
        }
        x as usize + y as usize * w
    }

    /// One if the cell at `(x, y)` is alive, zero if it is dead.
    fn live_value(&self, x: u32, y: u32) -> (r: u8)
        requires
            self.wf(),
            x < self.grid_width(),
            y < self.grid_height(),
        ensures
            r == live_at(self.buffer(), self.grid_width(), (x as int, y as int)),
            r <= 1,
    {
        self.cells[self.get_index(x, y)].state.as_count()
    }

    /// Number of live cells among the eight neighbours of `(x, y)`, with
    /// both edges of the grid wrapping around to the opposite edge.
    pub fn live_neighbor_count(&self, x: u32, y: u32) -> (r: u8)
        requires
            self.wf(),
            x < self.grid_width(),
            y < self.grid_height(),
        ensures
            r == neighbor_count(self.buffer(), self.grid_width(), self.grid_height(), x as int, y as int),
            r <= 8,
    {
        let w = self.width;
        let h = self.height;
        let left = if x == 0 { w - 1 } else { x - 1 };
        let right = if x + 1 == w { 0 } else { x + 1 };
        let up = if y == 0 { h - 1 } else { y - 1 };
        let down = if y + 1 == h { 0 } else { y + 1 };
        proof {
            lemma_neighbors_of(self.buffer(), w as int, h as int, x as int, y as int);
        }
        let mut count: u8 = 0;
        count = count + self.live_value(left, up);
        count = count + self.live_value(x, up);
        count = count + self.live_value(right, up);
        count = count + self.live_value(left, y);
        count = count + self.live_value(right, y);
        count = count + self.live_value(left, down);
        count = count + self.live_value(x, down);
        count = count + self.live_value(right, down);
        count
    }

    /// Advances the grid one generation. Every cell's next state is computed
    /// from the current generation only, then the whole buffer is replaced.
    pub fn update(&mut self)
        requires
            old(self).wf(),
        ensures
            final(self).wf(),
            final(self).grid_width() == old(self).grid_width(),
            final(self).grid_height() == old(self).grid_height(),
            final(self).buffer() == next_generation(
                old(self).buffer(),
                old(self).grid_width(),
                old(self).grid_height(),
            ),
    {
        let w = self.width;
        let h = self.height;
        let ghost cur = self.buffer();
        let mut next: Vec<Cell> = Vec::new();
        let mut y: u32 = 0;
        while y < h
            invariant
                self.wf(),
                self.buffer() == cur,
                w == self.grid_width(),
                h == self.grid_height(),
                y <= h,
                next@.len() == (y as int) * (w as int),
                forall|i: int| 0 <= i < next@.len() ==> next@[i] == next_cell(cur, w as int, h as int, i),
            decreases h - y,
        {
            let mut x: u32 = 0;
            while x < w
                invariant
                    self.wf(),
                    self.buffer() == cur,
                    w == self.grid_width(),
                    h == self.grid_height(),
                    y < h,
                    x <= w,
                    next@.len() == (y as int) * (w as int) + x,
                    forall|i: int| 0 <= i < next@.len() ==> next@[i] == next_cell(cur, w as int, h as int, i),
                decreases w - x,
            {
                let idx = self.get_index(x, y);
                let cell = self.cells[idx];
                let live_neighbors = self.live_neighbor_count(x, y);
                let state = match cell.state {
                    CellState::Alive => if live_neighbors < 2 {
                        CellState::Dead
                    } else if live_neighbors <= 3 {
                        CellState::Alive
                    } else {
                        CellState::Dead
                    },
                    CellState::Dead => if live_neighbors == 3 {
                        CellState::Alive
                    } else {
                        CellState::Dead
                    },
                };
                proof {
                    lemma_fundamental_div_mod_converse(idx as int, w as int, y as int, x as int);
                }
                next.push(Cell { state, ..cell });
                x = x + 1;
            }
            proof {
                assert((y as int) * (w as int) + (w as int) == ((y + 1) as int) * (w as int)) by (nonlinear_arith);
            }
            y = y + 1;
        }
        proof {
            assert((h as int) * (w as int) == (w as int) * (h as int)) by (nonlinear_arith);
        }
        self.cells = next;
        proof {
            assert(self.buffer() =~= next_generation(cur, w as int, h as int));
        }
    }
}

} // verus!
