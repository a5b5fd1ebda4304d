use vstd::prelude::*;

verus! {

/// Whether a cell holds a typed character.
#[derive(Debug, Clone, Copy, PartialEq, Eq, Structural)]
pub enum CellState {
    Written,
    NotWritten,
}

/// One character cell of the terminal grid.
#[derive(Debug, Clone, Copy, PartialEq, Eq, Structural)]
pub struct Cell {
    pub codepoint: u32,
    pub state: CellState,
}

/// An empty cell: a space, not written.
pub open spec fn blank_cell() -> Cell {
    Cell { codepoint: 32, state: CellState::NotWritten }
}

/// An empty cell: a space, not written.
pub fn blank() -> (c: Cell)
    ensures
        c == blank_cell(),
{
    Cell { codepoint: 32, state: CellState::NotWritten }
}

} // verus!
