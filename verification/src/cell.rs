//! The three-valued mark domain of a single board cell.

use vstd::prelude::*;

verus! {

/// A cell of the board: a player's mark or empty.
///
/// `Empty` is never an actual player, but stands for "draw" in the
/// cached terminal state of a board.
#[derive(Debug, PartialEq, Eq, Structural, Clone, Copy)]
pub enum Cell {
    Cross,
    Circle,
    Empty,
}

impl Cell {
    /// The mark that plays after `self`: `Cross -> Circle`, anything
    /// else -> `Cross`. Used to advance the turn marker.
    pub fn next(self) -> (r: Cell)
        ensures
            r == self.spec_next(),
    {
        match self {
            Cell::Cross => Cell::Circle,
            _ => Cell::Cross,
        }
    }

    /// What `next` returns.
    pub open spec fn spec_next(self) -> Cell {
        match self {
            Cell::Cross => Cell::Circle,
            _ => Cell::Cross,
        }
    }
}

} // verus!
