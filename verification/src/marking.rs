//! The values a game is made of: markings, cells and moves.

use vstd::prelude::*;

verus! {

/// One of the two player symbols.
#[derive(Clone, Copy, Debug, PartialEq, Eq, Structural)]
pub enum CellMarking {
    X,
    O,
}

/// A single square of the board: empty, or occupied by one marking.
#[derive(Clone, Copy, Debug, PartialEq, Eq, Structural)]
pub struct Cell {
    pub mark: Option<CellMarking>,
}

/// Placing (or taking back) a marking at a `(row, column)` position.
#[derive(Debug, PartialEq)]
pub struct Move {
    pub position: (usize, usize),
    pub marking: CellMarking,
}

impl Clone for Move {
    fn clone(&self) -> (copy: Move)
        ensures
            copy == *self,
    {
        Move { position: (self.position.0, self.position.1), marking: self.marking }
    }
}

/// The marking of the other player.
pub open spec fn opponent(marking: CellMarking) -> CellMarking {
    match marking {
        CellMarking::X => CellMarking::O,
        CellMarking::O => CellMarking::X,
    }
}

impl CellMarking {
    /// The marking of the other player.
    pub fn opposite(self) -> (other: CellMarking)
        ensures
            other == opponent(self),
    {
        match self {
            CellMarking::X => CellMarking::O,
            CellMarking::O => CellMarking::X,
        }
    }
}

} // verus!
