use vstd::prelude::*;

verus! {

/// The state of one cell of the grid.
#[derive(Clone, Copy, Debug, PartialEq, Eq, Structural)]
pub enum CellState {
    Dead,
    Alive,
}

/// One cell: its state, the pixel position of its top-left corner, and the
/// pixel length of its side.
#[derive(Clone, Copy, Debug, PartialEq, Eq, Structural)]
pub struct Cell {
    pub state: CellState,
    pub x: i32,
    pub y: i32,
    pub size: i32,
}

/// What a cell contributes to its neighbours' live count.
pub open spec fn liveness(s: CellState) -> int {
    match s {
        CellState::Alive => 1,
        CellState::Dead => 0,
    }
}

impl CellState {
    /// One for `Alive`, zero for `Dead`: live counts are sums of these.
    pub fn as_count(self) -> (r: u8)
        ensures
            r == liveness(self),
    {
        match self {
            CellState::Alive => 1,
            CellState::Dead => 0,
        }
    }
}

} // verus!
