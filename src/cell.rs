use vstd::prelude::*;

verus! {

/// What a board cell holds: nothing, or the colour of a settled piece.
#[derive(Clone, Copy, PartialEq, Eq, Structural, Debug, Hash)]
pub enum Cell {
    Free,
    Blue,
    Purple,
    Orange,
    Green,
    Yellow,
}

} // verus!
