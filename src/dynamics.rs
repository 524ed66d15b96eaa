use vstd::prelude::*;
use vstd::arithmetic::div_mod::{lemma_fundamental_div_mod_converse, lemma_mod_bound, lemma_small_mod};
use crate::cell::{Cell, CellState};
use crate::universe::{
    index_of, live_among, live_at, neighbor, neighbor_offsets, next_generation, Universe,
};

verus! {

/// `cells` after `n` generations on a `width` by `height` torus.
pub open spec fn evolve(cells: Seq<Cell>, width: int, height: int, n: nat) -> Seq<Cell>
    decreases n,
{
    if n == 0 {
        cells
    } else {
        next_generation(evolve(cells, width, height, (n - 1) as nat), width, height)
    }
}

/// Every cell of `cells` is dead.
pub open spec fn all_dead(cells: Seq<Cell>) -> bool {
    forall|i: int| 0 <= i < cells.len() ==> #[trigger] cells[i].state == CellState::Dead
}

/// The neighbourhood of the corner `(0, 0)` reaches across both edges: it
/// holds the opposite corner and the far ends of the first row and column.
pub proof fn corner_neighbors_wrap(width: int, height: int)
    requires
        width > 0,
        height > 0,
    ensures
        exists|k: int| 0 <= k < 8 && neighbor(width, height, 0, 0, k) == (width - 1, height - 1),
        exists|k: int| 0 <= k < 8 && neighbor(width, height, 0, 0, k) == (width - 1, 0int),
        exists|k: int| 0 <= k < 8 && neighbor(width, height, 0, 0, k) == (0int, height - 1),
{
    lemma_fundamental_div_mod_converse(-1, width, -1, width - 1);
    lemma_fundamental_div_mod_converse(-1, height, -1, height - 1);
    lemma_small_mod(0, width as nat);
    lemma_small_mod(0, height as nat);
    assert(neighbor(width, height, 0, 0, 0) == (width - 1, height - 1));
    assert(neighbor(width, height, 0, 0, 3) == (width - 1, 0int));
    assert(neighbor(width, height, 0, 0, 1) == (0int, height - 1));
}

/// Every neighbour of any coordinate lies on the grid.
proof fn lemma_neighbor_on_grid(width: int, height: int, x: int, y: int, k: int)
    requires
        width > 0,
        height > 0,
        0 <= k < 8,
    ensures
        0 <= index_of(width, neighbor(width, height, x, y, k).0, neighbor(width, height, x, y, k).1)
            < width * height,
{
    let c = neighbor(width, height, x, y, k);
    lemma_mod_bound(x + neighbor_offsets()[k].0, width);
    lemma_mod_bound(y + neighbor_offsets()[k].1, height);
    assert(0 <= c.0 + c.1 * width < width * height) by (nonlinear_arith)
        requires
            0 <= c.0 < width,
            0 <= c.1 < height,
    ;
}

/// On an all-dead grid no cell has a live neighbour.
proof fn lemma_dead_grid_count(cells: Seq<Cell>, width: int, height: int, x: int, y: int, k: nat)
    requires
        width > 0,
        height > 0,
        cells.len() == width * height,
        all_dead(cells),
        k <= 8,
    ensures
        live_among(cells, width, height, x, y, k) == 0,
    decreases k,
{
    if k > 0 {
        lemma_dead_grid_count(cells, width, height, x, y, (k - 1) as nat);
        lemma_neighbor_on_grid(width, height, x, y, k - 1);
        let c = neighbor(width, height, x, y, k - 1);
        assert(cells[index_of(width, c.0, c.1)].state == CellState::Dead);
        assert(live_at(cells, width, c) == 0);
    }
}

/// An all-dead grid stays all dead, however many generations pass.
pub proof fn all_dead_stays_dead(cells: Seq<Cell>, width: int, height: int, n: nat)
    requires
        width > 0,
        height > 0,
        cells.len() == width * height,
        all_dead(cells),
    ensures
        evolve(cells, width, height, n).len() == cells.len(),
        all_dead(evolve(cells, width, height, n)),
    decreases n,
{
    if n > 0 {
        all_dead_stays_dead(cells, width, height, (n - 1) as nat);
        let prev = evolve(cells, width, height, (n - 1) as nat);
        assert forall|i: int| 0 <= i < prev.len() implies #[trigger] next_generation(
            prev,
            width,
            height,
        )[i].state == CellState::Dead by {
            lemma_dead_grid_count(prev, width, height, i % width, i / width, 8);
        }
    }
}

/// Two universes on the same grid that hold the same buffer go through the
/// same generations.
pub proof fn same_start_same_generations(a: Universe, b: Universe, n: nat)
    requires
        a.wf(),
        b.wf(),
        a.grid_width() == b.grid_width(),
        a.grid_height() == b.grid_height(),
        a.buffer() == b.buffer(),
    ensures
        evolve(a.buffer(), a.grid_width(), a.grid_height(), n) == evolve(
            b.buffer(),
            b.grid_width(),
            b.grid_height(),
            n,
        ),
{
}

} // verus!
