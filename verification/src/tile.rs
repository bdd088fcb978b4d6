//! The per-cell data model.

use vstd::prelude::*;

verus! {

/// What a cell holds, fixed when the board is generated.
#[derive(Clone, Copy, Debug, PartialEq, Eq, Structural)]
pub enum TileValue {
    Bomb,
    /// A mine-free cell with the number of mines among its neighbours.
    Safe(u8),
}

/// What the player sees of a cell.
#[derive(Clone, Copy, Debug, PartialEq, Eq, Structural)]
pub enum TileState {
    Hidden,
    Flag,
    Open,
}

/// One cell of the grid.
#[derive(Clone, Copy, Debug, PartialEq, Eq, Structural)]
pub struct Tile {
    pub state: TileState,
    pub value: TileValue,
}

impl TileValue {
    /// Whether this value marks a mine.
    pub open spec fn bomb(self) -> bool {
        self == TileValue::Bomb
    }

    /// Whether this value marks a mine.
    pub fn is_bomb(&self) -> (r: bool)
        ensures
            r == self.bomb(),
    {
        match self {
            TileValue::Bomb => true,
            TileValue::Safe(_) => false,
        }
    }
}

} // verus!
