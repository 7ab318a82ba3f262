use vstd::prelude::*;

use crate::position::Position;

verus! {

/// A square region of the board, the frame in which a piece turns.
#[derive(Clone, Copy, PartialEq, Eq, Structural, Debug, Hash)]
pub struct Cutout {
    top_left: Position,
    size: i32,
}

/// `v / 2` rounded toward zero, as Rust's integer division does.
pub open spec fn half_toward_zero(v: int) -> int {
    if v >= 0 {
        v / 2
    } else {
        -((-v) / 2)
    }
}

impl Cutout {
    pub closed spec fn spec_top_left(self) -> Position {
        self.top_left
    }

    pub closed spec fn spec_size(self) -> i32 {
        self.size
    }

    /// The square of side `size` whose centre is `middle`: its top-left
    /// corner lies `size / 2` up and to the left of `middle`.
    pub fn new(middle: Position, size: i32) -> (r: Cutout)
        requires
            size > i32::MIN,
            middle.can_move(-half_toward_zero(size as int), -half_toward_zero(size as int)),
        ensures
            r.spec_top_left() == middle.moved(-half_toward_zero(size as int), -half_toward_zero(size as int)),
            r.spec_top_left().x == middle.x - half_toward_zero(size as int),
            r.spec_top_left().y == middle.y - half_toward_zero(size as int),
            r.spec_size() == size,
    {
        let half = -size / 2;
        Cutout { top_left: middle.move_to(half, half), size: size }
    }

    pub fn get_top_left(&self) -> (r: Position)
        ensures
            r == self.spec_top_left(),
    {
        self.top_left
    }

    pub fn size(&self) -> (r: i32)
        ensures
            r == self.spec_size(),
    {
        self.size
    }

    /// Whether the top-left corner lies on a board of side `board_length`.
    pub fn is_valid(&self, board_length: i32) -> (r: bool)
        ensures
            r == self.spec_top_left().valid(board_length as int),
    {
        self.top_left.is_valid(board_length)
    }
}

} // verus!
