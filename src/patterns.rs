use vstd::prelude::*;
use vstd::arithmetic::div_mod::lemma_fundamental_div_mod_converse;
use crate::cell::{Cell, CellState};
use crate::universe::{index_of, lemma_neighbors_of, lemma_wrap, live_at, neighbor_count, next_generation};

verus! {

/// One for true, zero for false.
pub open spec fn indicator(b: bool) -> int {
    if b {
        1
    } else {
        0
    }
}

/// How many of `v - 1`, `v` and `v + 1`, wrapped onto a ring of `n`
/// positions, satisfy `p`.
pub open spec fn ring_hits(p: spec_fn(int) -> bool, n: int, v: int) -> int {
    indicator(p((v - 1) % n)) + indicator(p(v % n)) + indicator(p((v + 1) % n))
}

/// The live cells of `cells` are exactly those whose column satisfies `cols`
/// and whose row satisfies `rows`.
pub open spec fn alive_exactly_on(
    cells: Seq<Cell>,
    width: int,
    cols: spec_fn(int) -> bool,
    rows: spec_fn(int) -> bool,
) -> bool {
    forall|i: int|
        0 <= i < cells.len() ==> (#[trigger] cells[i].state == CellState::Alive <==> (cols(i % width)
            && rows(i / width)))
}

/// Grid coordinates and linear index agree.
proof fn lemma_coords(width: int, height: int, x: int, y: int)
    requires
        0 <= x < width,
        0 <= y < height,
    ensures
        0 <= index_of(width, x, y) < width * height,
        index_of(width, x, y) % width == x,
        index_of(width, x, y) / width == y,
{
    lemma_fundamental_div_mod_converse(x + y * width, width, y, x);
    assert(0 <= x + y * width < width * height) by (nonlinear_arith)
        requires
            0 <= x < width,
            0 <= y < height,
    ;
}

/// A linear index lies at an in-range grid coordinate.
proof fn lemma_index(width: int, height: int, i: int)
    requires
        width > 0,
        0 <= i < width * height,
    ensures
        0 <= i % width < width,
        0 <= i / width < height,
        index_of(width, i % width, i / width) == i,
{
    vstd::arithmetic::div_mod::lemma_fundamental_div_mod(i, width);
    vstd::arithmetic::div_mod::lemma_mod_bound(i, width);
    assert(0 <= i / width < height) by (nonlinear_arith)
        requires
            i == width * (i / width) + i % width,
            0 <= i % width < width,
            0 <= i < width * height,
    ;
    assert(width * (i / width) == (i / width) * width) by (nonlinear_arith);
}

/// Where the live cells form a product of a set of columns and a set of
/// rows, a cell's live neighbour count is the product of the hits on each
/// axis, less the cell itself.
proof fn lemma_product_count(
    cells: Seq<Cell>,
    width: int,
    height: int,
    cols: spec_fn(int) -> bool,
    rows: spec_fn(int) -> bool,
    x: int,
    y: int,
)
    requires
        cells.len() == width * height,
        alive_exactly_on(cells, width, cols, rows),
        0 <= x < width,
        0 <= y < height,
    ensures
        neighbor_count(cells, width, height, x, y) == ring_hits(cols, width, x) * ring_hits(
            rows,
            height,
            y,
        ) - indicator(cols(x)) * indicator(rows(y)),
{
    lemma_neighbors_of(cells, width, height, x, y);
    lemma_wrap(x, width);
    lemma_wrap(y, height);
    let l = if x == 0 { width - 1 } else { x - 1 };
    let r = if x + 1 == width { 0 } else { x + 1 };
    let u = if y == 0 { height - 1 } else { y - 1 };
    let d = if y + 1 == height { 0 } else { y + 1 };
    assert forall|c: int, e: int| 0 <= c < width && 0 <= e < height implies #[trigger] live_at(
        cells,
        width,
        (c, e),
    ) == indicator(cols(c)) * indicator(rows(e)) by {
        lemma_coords(width, height, c, e);
        let i = index_of(width, c, e);
        assert(cells[i].state == CellState::Alive <==> (cols(i % width) && rows(i / width)));
    }
    let a0 = indicator(cols(l));
    let a1 = indicator(cols(x));
    let a2 = indicator(cols(r));
    let b0 = indicator(rows(u));
    let b1 = indicator(rows(y));
    let b2 = indicator(rows(d));
    assert(live_at(cells, width, (l, u)) == a0 * b0);
    assert(live_at(cells, width, (x, u)) == a1 * b0);
    assert(live_at(cells, width, (r, u)) == a2 * b0);
    assert(live_at(cells, width, (l, y)) == a0 * b1);
    assert(live_at(cells, width, (r, y)) == a2 * b1);
    assert(live_at(cells, width, (l, d)) == a0 * b2);
    assert(live_at(cells, width, (x, d)) == a1 * b2);
    assert(live_at(cells, width, (r, d)) == a2 * b2);
    assert(a0 * b0 + a1 * b0 + a2 * b0 + a0 * b1 + a2 * b1 + a0 * b2 + a1 * b2 + a2 * b2 == (a0 + a1
        + a2) * (b0 + b1 + b2) - a1 * b1) by (nonlinear_arith);
}

/// Two neighbouring positions `b` and `b + 1` on a ring of `n`.
pub open spec fn pair_from(b: int, n: int) -> spec_fn(int) -> bool {
    |c: int| c == b || c == (b + 1) % n
}

/// On a ring of at least four, a position of a pair sees both of the pair
/// in its neighbourhood, and any other position at most one.
proof fn lemma_pair_hits(n: int, b: int, v: int)
    requires
        n >= 4,
        0 <= b < n,
        0 <= v < n,
    ensures
        pair_from(b, n)(v) ==> ring_hits(pair_from(b, n), n, v) == 2,
        !pair_from(b, n)(v) ==> 0 <= ring_hits(pair_from(b, n), n, v) <= 1,
{
    lemma_wrap(v, n);
    lemma_wrap(b, n);
}

/// Whether `(x, y)` lies in the two-by-two block whose top-left cell is
/// `(bx, by)`; the block may straddle an edge of the torus.
pub open spec fn in_block(width: int, height: int, bx: int, by: int, x: int, y: int) -> bool {
    &&& (x == bx || x == (bx + 1) % width)
    &&& (y == by || y == (by + 1) % height)
}

/// A two-by-two block of live cells on an otherwise dead grid of at least
/// four by four is left unchanged by a generation.
pub proof fn block_is_still_life(cells: Seq<Cell>, width: int, height: int, bx: int, by: int)
    requires
        width >= 4,
        height >= 4,
        cells.len() == width * height,
        0 <= bx < width,
        0 <= by < height,
        forall|i: int|
            0 <= i < cells.len() ==> (#[trigger] cells[i].state == CellState::Alive <==> in_block(
                width,
                height,
                bx,
                by,
                i % width,
                i / width,
            )),
    ensures
        next_generation(cells, width, height) == cells,
{
    let cols = pair_from(bx, width);
    let rows = pair_from(by, height);
    assert(alive_exactly_on(cells, width, cols, rows));
    assert forall|i: int| 0 <= i < cells.len() implies #[trigger] next_generation(cells, width, height)[i]
        == cells[i] by {
        lemma_index(width, height, i);
        let x = i % width;
        let y = i / width;
        lemma_product_count(cells, width, height, cols, rows, x, y);
        lemma_pair_hits(width, bx, x);
        lemma_pair_hits(height, by, y);
        let a = ring_hits(cols, width, x);
        let b = ring_hits(rows, height, y);
        if cols(x) && rows(y) {
            assert(a * b == 4) by (nonlinear_arith)
                requires
                    a == 2,
                    b == 2,
            ;
        } else if cols(x) {
            assert(a * b <= 2) by (nonlinear_arith)
                requires
                    a == 2,
                    0 <= b <= 1,
            ;
        } else {
            assert(0 <= a * b <= 2) by (nonlinear_arith)
                requires
                    0 <= a <= 1,
                    0 <= b <= 2,
            ;
        }
    }
    assert(next_generation(cells, width, height) =~= cells);
}

/// The positions `c - 1`, `c` and `c + 1` on a ring of `n`.
pub open spec fn triple_around(c: int, n: int) -> spec_fn(int) -> bool {
    |v: int| v == (c - 1) % n || v == c || v == (c + 1) % n
}

/// The single position `c`.
pub open spec fn single_at(c: int) -> spec_fn(int) -> bool {
    |v: int| v == c
}

/// On a ring of at least four, only the middle of a run of three sees all
/// three in its neighbourhood.
proof fn lemma_triple_hits(n: int, c: int, v: int)
    requires
        n >= 4,
        0 <= c < n,
        0 <= v < n,
    ensures
        v == c ==> ring_hits(triple_around(c, n), n, v) == 3,
        v != c ==> 0 <= ring_hits(triple_around(c, n), n, v) <= 2,
{
    lemma_wrap(v, n);
    lemma_wrap(c, n);
}

/// On a ring of at least three, a position sees `c` in its neighbourhood
/// exactly when it is `c` or next to it.
proof fn lemma_single_hits(n: int, c: int, v: int)
    requires
        n >= 3,
        0 <= c < n,
        0 <= v < n,
    ensures
        ring_hits(single_at(c), n, v) == indicator(triple_around(c, n)(v)),
{
    lemma_wrap(v, n);
    lemma_wrap(c, n);
}

/// Whether `(x, y)` lies on the row of three cells centred on `(cx, cy)`.
pub open spec fn horizontal_line(width: int, height: int, cx: int, cy: int, x: int, y: int) -> bool {
    &&& y == cy
    &&& (x == (cx - 1) % width || x == cx || x == (cx + 1) % width)
}

/// Whether `(x, y)` lies on the column of three cells centred on `(cx, cy)`.
pub open spec fn vertical_line(width: int, height: int, cx: int, cy: int, x: int, y: int) -> bool {
    &&& x == cx
    &&& (y == (cy - 1) % height || y == cy || y == (cy + 1) % height)
}

/// A row of three live cells turns into a column of three.
proof fn lemma_row_turns(cells: Seq<Cell>, width: int, height: int, cx: int, cy: int)
    requires
        width >= 4,
        height >= 4,
        cells.len() == width * height,
        0 <= cx < width,
        0 <= cy < height,
        alive_exactly_on(cells, width, triple_around(cx, width), single_at(cy)),
    ensures
        alive_exactly_on(next_generation(cells, width, height), width, single_at(cx), triple_around(cy, height)),
{
    let cols = triple_around(cx, width);
    let rows = single_at(cy);
    let next = next_generation(cells, width, height);
    assert forall|i: int| 0 <= i < next.len() implies (#[trigger] next[i].state == CellState::Alive <==> (
    single_at(cx)(i % width) && triple_around(cy, height)(i / width))) by {
        lemma_index(width, height, i);
        let x = i % width;
        let y = i / width;
        lemma_product_count(cells, width, height, cols, rows, x, y);
        lemma_triple_hits(width, cx, x);
        lemma_single_hits(height, cy, y);
        let a = ring_hits(cols, width, x);
        let b = ring_hits(rows, height, y);
        if b == 1 {
            assert(a * b == a);
        } else {
            assert(a * b == 0);
        }
    }
}

/// A column of three live cells turns into a row of three.
proof fn lemma_column_turns(cells: Seq<Cell>, width: int, height: int, cx: int, cy: int)
    requires
        width >= 4,
        height >= 4,
        cells.len() == width * height,
        0 <= cx < width,
        0 <= cy < height,
        alive_exactly_on(cells, width, single_at(cx), triple_around(cy, height)),
    ensures
        alive_exactly_on(next_generation(cells, width, height), width, triple_around(cx, width), single_at(cy)),
{
    let cols = single_at(cx);
    let rows = triple_around(cy, height);
    let next = next_generation(cells, width, height);
    assert forall|i: int| 0 <= i < next.len() implies (#[trigger] next[i].state == CellState::Alive <==> (
    triple_around(cx, width)(i % width) && single_at(cy)(i / width))) by {
        lemma_index(width, height, i);
        let x = i % width;
        let y = i / width;
        lemma_product_count(cells, width, height, cols, rows, x, y);
        lemma_single_hits(width, cx, x);
        lemma_triple_hits(height, cy, y);
        let a = ring_hits(cols, width, x);
        let b = ring_hits(rows, height, y);
        if a == 1 {
            assert(a * b == b);
        } else {
            assert(a * b == 0);
        }
    }
}

/// A row of three live cells on an otherwise dead grid of at least five by
/// five becomes a column of three through the same centre after one
/// generation, and is back to the row after a second.
pub proof fn blinker_oscillates(cells: Seq<Cell>, width: int, height: int, cx: int, cy: int)
    requires
        width >= 5,
        height >= 5,
        cells.len() == width * height,
        0 <= cx < width,
        0 <= cy < height,
        forall|i: int|
            0 <= i < cells.len() ==> (#[trigger] cells[i].state == CellState::Alive <==> horizontal_line(
                width,
                height,
                cx,
                cy,
                i % width,
                i / width,
            )),
    ensures
        forall|i: int|
            0 <= i < cells.len() ==> (#[trigger] next_generation(cells, width, height)[i].state
                == CellState::Alive <==> vertical_line(width, height, cx, cy, i % width, i / width)),
        next_generation(next_generation(cells, width, height), width, height) == cells,
{
    let next = next_generation(cells, width, height);
    assert(alive_exactly_on(cells, width, triple_around(cx, width), single_at(cy)));
    lemma_row_turns(cells, width, height, cx, cy);
    assert forall|i: int| 0 <= i < cells.len() implies (#[trigger] next[i].state == CellState::Alive
        <==> vertical_line(width, height, cx, cy, i % width, i / width)) by {
        assert(next[i].state == CellState::Alive <==> (single_at(cx)(i % width) && triple_around(
            cy,
            height,
        )(i / width)));
    }
    lemma_column_turns(next, width, height, cx, cy);
    let back = next_generation(next, width, height);
    assert forall|i: int| 0 <= i < cells.len() implies #[trigger] back[i] == cells[i] by {
        assert(back[i].state == CellState::Alive <==> (triple_around(cx, width)(i % width)
            && single_at(cy)(i / width)));
        assert(cells[i].state == CellState::Alive <==> horizontal_line(
            width,
            height,
            cx,
            cy,
            i % width,
            i / width,
        ));
    }
    assert(back =~= cells);
}

} // verus!
