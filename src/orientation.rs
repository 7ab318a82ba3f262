use vstd::prelude::*;

verus! {

/// The board's turn, in clockwise quarter turns from upright.
#[derive(Clone, Copy, PartialEq, Eq, Structural, Debug, Hash)]
pub enum Orientation {
    Zero,
    Ninety,
    OneEighty,
    TwoSeventy,
}

impl Orientation {
    /// The next orientation in the clockwise four-cycle.
    pub open spec fn spec_clockwise(self) -> Orientation {
        match self {
            Orientation::Zero => Orientation::Ninety,
            Orientation::Ninety => Orientation::OneEighty,
            Orientation::OneEighty => Orientation::TwoSeventy,
            Orientation::TwoSeventy => Orientation::Zero,
        }
    }

    /// The previous orientation in the clockwise four-cycle.
    pub open spec fn spec_counter_clockwise(self) -> Orientation {
        match self {
            Orientation::Zero => Orientation::TwoSeventy,
            Orientation::Ninety => Orientation::Zero,
            Orientation::OneEighty => Orientation::Ninety,
            Orientation::TwoSeventy => Orientation::OneEighty,
        }
    }

    /// Unit step, as `(dx, dy)`, toward which pieces fall.
    pub open spec fn down(self) -> (int, int) {
        match self {
            Orientation::Zero => (0, 1),
            Orientation::Ninety => (1, 0),
            Orientation::OneEighty => (0, -1),
            Orientation::TwoSeventy => (-1, 0),
        }
    }

    /// Unit step, as `(dx, dy)`, that the player sees as a move to the left:
    /// a quarter turn clockwise from `down`.
    pub open spec fn left(self) -> (int, int) {
        (-self.down().1, self.down().0)
    }

    /// Unit step, as `(dx, dy)`, that the player sees as a move to the right.
    pub open spec fn right(self) -> (int, int) {
        (self.down().1, -self.down().0)
    }

    /// The step that the player sees as a move to the left.
    pub fn left_step(&self) -> (r: (i32, i32))
        ensures
            r.0 == self.left().0,
            r.1 == self.left().1,
    {
        match self {
            Orientation::Zero => (-1, 0),
            Orientation::Ninety => (0, 1),
            Orientation::OneEighty => (1, 0),
            Orientation::TwoSeventy => (0, -1),
        }
    }

    /// The step that the player sees as a move to the right.
    pub fn right_step(&self) -> (r: (i32, i32))
        ensures
            r.0 == self.right().0,
            r.1 == self.right().1,
    {
        match self {
            Orientation::Zero => (1, 0),
            Orientation::Ninety => (0, -1),
            Orientation::OneEighty => (-1, 0),
            Orientation::TwoSeventy => (0, 1),
        }
    }

    pub fn clockwise(&self) -> (r: Orientation)
        ensures
            r == self.spec_clockwise(),
    {
        match self {
            Orientation::Zero => Orientation::Ninety,
            Orientation::Ninety => Orientation::OneEighty,
            Orientation::OneEighty => Orientation::TwoSeventy,
            Orientation::TwoSeventy => Orientation::Zero,
        }
    }

    pub fn counter_clockwise(&self) -> (r: Orientation)
        ensures
            r == self.spec_counter_clockwise(),
    {
        match self {
            Orientation::Zero => Orientation::TwoSeventy,
            Orientation::Ninety => Orientation::Zero,
            Orientation::OneEighty => Orientation::Ninety,
            Orientation::TwoSeventy => Orientation::OneEighty,
        }
    }
}

/// A clockwise and a counter-clockwise turn undo each other, and four turns
/// in one direction come back to the start.
pub proof fn lemma_orientation_cycle(o: Orientation)
    ensures
        o.spec_clockwise().spec_counter_clockwise() == o,
        o.spec_counter_clockwise().spec_clockwise() == o,
        o.spec_clockwise().spec_clockwise().spec_clockwise().spec_clockwise() == o,
        o.spec_counter_clockwise().spec_counter_clockwise().spec_counter_clockwise().spec_counter_clockwise() == o,
{
}

} // verus!
