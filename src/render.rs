use vstd::prelude::*;
use crate::cell::{Cell, CellState};

verus! {

/// The squares a renderer draws for `cells`, in order: one per live cell, at
/// the cell's pixel position, one pixel narrower than the cell so that a
/// grid line shows between neighbours. Dead cells are not drawn.
pub open spec fn drawn_squares(cells: Seq<Cell>) -> Seq<(i32, i32, i32)>
    decreases cells.len(),
{
    if cells.len() == 0 {
        seq![]
    } else {
        let rest = drawn_squares(cells.drop_last());
        let c = cells.last();
        if c.state == CellState::Alive {
            rest.push((c.x, c.y, (c.size - 1) as i32))
        } else {
            rest
        }
    }
}

/// The `(x, y, side)` of each square to draw for `cells`.
pub fn alive_squares(cells: &[Cell]) -> (r: Vec<(i32, i32, i32)>)
    requires
        forall|i: int| 0 <= i < cells@.len() ==> cells@[i].size > i32::MIN,
    ensures
        r@ == drawn_squares(cells@),
{
    let mut r: Vec<(i32, i32, i32)> = Vec::new();
    let mut i: usize = 0;
    while i < cells.len()
        invariant
            i <= cells@.len(),
            forall|j: int| 0 <= j < cells@.len() ==> cells@[j].size > i32::MIN,
            r@ == drawn_squares(cells@.subrange(0, i as int)),
        decreases cells@.len() - i,
    {
        let c = cells[i];
        proof {
            assert(cells@.subrange(0, i as int + 1).drop_last() =~= cells@.subrange(0, i as int));
        }
        if c.state == CellState::Alive {
            r.push((c.x, c.y, c.size - 1));
        }
        i = i + 1;
    }
    proof {
        assert(cells@.subrange(0, cells@.len() as int) =~= cells@);
    }
    r
}

} // verus!
