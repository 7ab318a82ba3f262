use vstd::prelude::*;

use crate::board::{Board, BOARD_LENGTH};
use crate::cell::Cell;
use crate::cutout::Cutout;
use crate::orientation::Orientation;
use crate::position::{fits_i32, Position};

verus! {

/// Number of distinct piece shapes.
pub const SHAPE_COUNT: usize = 5;

/// The piece shapes, each a set of four cells around a centre and a colour.
#[derive(Clone, Copy, PartialEq, Eq, Structural, Debug, Hash)]
pub enum Shape {
    I,
    L,
    O,
    J,
    Z,
}

/// Relies on rand's `Uniform::from(low..high)`, sampled with `thread_rng()`:
/// the value drawn lies in `[low, high)`. `Uniform::new` panics when
/// `low >= high`.
#[verifier::external_body]
fn draw_between(low: usize, high: usize) -> (r: usize)
    requires
        low < high,
    ensures
        low <= r < high,
{
    let mut rng = rand::thread_rng();
    rand::distributions::Distribution::sample(&rand::distributions::Uniform::from(low..high), &mut rng)
}

impl Shape {
    /// Offsets `(dx, dy)` of the four cells from the piece's pivot.
    pub open spec fn spec_offsets(self) -> Seq<(i32, i32)> {
        match self {
            Shape::I => seq![(0i32, -2i32), (0i32, -1i32), (0i32, 0i32), (0i32, 1i32)],
            Shape::L => seq![(-1i32, -1i32), (0i32, -1i32), (0i32, 0i32), (0i32, 1i32)],
            Shape::O => seq![(-1i32, -1i32), (0i32, -1i32), (-1i32, 0i32), (0i32, 0i32)],
            Shape::J => seq![(1i32, -1i32), (0i32, -1i32), (0i32, 0i32), (0i32, 1i32)],
            Shape::Z => seq![(-1i32, -1i32), (0i32, -1i32), (0i32, 0i32), (1i32, 0i32)],
        }
    }

    pub open spec fn spec_color(self) -> Cell {
        match self {
            Shape::I => Cell::Blue,
            Shape::L => Cell::Green,
            Shape::O => Cell::Orange,
            Shape::J => Cell::Purple,
            Shape::Z => Cell::Yellow,
        }
    }

    /// Position of the shapes in the table that a draw selects from.
    pub open spec fn spec_from_index(i: int) -> Shape {
        if i == 0 {
            Shape::I
        } else if i == 1 {
            Shape::L
        } else if i == 2 {
            Shape::O
        } else if i == 3 {
            Shape::J
        } else {
            Shape::Z
        }
    }

    pub fn offsets(&self) -> (r: [(i32, i32); 4])
        ensures
            r@ == self.spec_offsets(),
    {
        let mut r = [(0i32, 0i32); 4];
        match self {
            Shape::I => {
                r[0] = (0, -2);
                r[1] = (0, -1);
                r[2] = (0, 0);
                r[3] = (0, 1);
            },
            Shape::L => {
                r[0] = (-1, -1);
                r[1] = (0, -1);
                r[2] = (0, 0);
                r[3] = (0, 1);
            },
            Shape::O => {
                r[0] = (-1, -1);
                r[1] = (0, -1);
                r[2] = (-1, 0);
                r[3] = (0, 0);
            },
            Shape::J => {
                r[0] = (1, -1);
                r[1] = (0, -1);
                r[2] = (0, 0);
                r[3] = (0, 1);
            },
            Shape::Z => {
                r[0] = (-1, -1);
                r[1] = (0, -1);
                r[2] = (0, 0);
                r[3] = (1, 0);
            },
        }
        assert(r@ =~= self.spec_offsets());
        r
    }

    pub fn color(&self) -> (r: Cell)
        ensures
            r == self.spec_color(),
    {
        match self {
            Shape::I => Cell::Blue,
            Shape::L => Cell::Green,
            Shape::O => Cell::Orange,
            Shape::J => Cell::Purple,
            Shape::Z => Cell::Yellow,
        }
    }

    /// The shape that a draw of `i` selects.
    pub fn from_index(i: usize) -> (r: Shape)
        requires
            i < SHAPE_COUNT,
        ensures
            r == Shape::spec_from_index(i as int),
    {
        if i == 0 {
            Shape::I
        } else if i == 1 {
            Shape::L
        } else if i == 2 {
            Shape::O
        } else if i == 3 {
            Shape::J
        } else {
            Shape::Z
        }
    }

    /// A shape drawn uniformly at random.
    pub fn random() -> (r: Shape)
        ensures
            exists|i: int| 0 <= i < SHAPE_COUNT && r == Shape::spec_from_index(i),
    {
        let i = draw_between(0, SHAPE_COUNT);
        Shape::from_index(i)
    }
}

/// Each of `cells` after `n` falls under orientation `o`.
pub open spec fn lowered(cells: Seq<Position>, o: Orientation, n: nat) -> Seq<Position> {
    Seq::new(cells.len(), |i: int| cells[i].fallen(o, n))
}

/// Where a piece appears: the centre of the board.
pub open spec fn spawn_pivot() -> Position {
    Position { x: (BOARD_LENGTH / 2) as i32, y: (BOARD_LENGTH / 2) as i32 }
}

/// The falling piece: four distinct cells, the pivot it turns about, and
/// its colour.
#[derive(Clone, Copy, Debug, Hash)]
pub struct Stone {
    consists_of: [Position; 4],
    middle: Position,
    color: Cell,
}

impl Stone {
    pub closed spec fn cells(self) -> Seq<Position> {
        self.consists_of@
    }

    pub closed spec fn pivot(self) -> Position {
        self.middle
    }

    pub closed spec fn spec_color(self) -> Cell {
        self.color
    }

    /// Top-left corner of the square of side 4 in which the piece turns.
    pub open spec fn frame_corner(self) -> Position {
        self.pivot().moved(-2, -2)
    }

    /// Whether `p` lies in the square in which the piece turns.
    pub open spec fn in_frame(self, p: Position) -> bool {
        &&& self.pivot().x - 2 <= p.x <= self.pivot().x + 1
        &&& self.pivot().y - 2 <= p.y <= self.pivot().y + 1
    }

    /// Four distinct cells on the board, within the turning square, with a
    /// colour other than `Free`.
    pub open spec fn wf(self) -> bool {
        &&& self.cells().len() == 4
        &&& forall|i: int, j: int|
            0 <= i < 4 && 0 <= j < 4 && i != j ==> self.cells()[i] != self.cells()[j]
        &&& forall|i: int|
            0 <= i < 4 ==> (#[trigger] self.cells()[i]).valid(BOARD_LENGTH as int)
                && self.in_frame(self.cells()[i])
        &&& self.spec_color() != Cell::Free
    }

    /// The cells of `shape` placed at the centre of the board.
    pub open spec fn spawn_cells(shape: Shape) -> Seq<Position> {
        Seq::new(
            4,
            |i: int|
                spawn_pivot().moved(
                    shape.spec_offsets()[i].0 as int,
                    shape.spec_offsets()[i].1 as int,
                ),
        )
    }

    /// The piece as `shape` appears at the centre of the board.
    pub open spec fn spawned_as(self, shape: Shape) -> bool {
        &&& self.pivot() == spawn_pivot()
        &&& self.spec_color() == shape.spec_color()
        &&& self.cells() == Stone::spawn_cells(shape)
    }

    /// The piece `shape` at the centre of the board.
    pub fn spawn(shape: Shape) -> (r: Stone)
        ensures
            r.wf(),
            r.spawned_as(shape),
    {
        let m = (BOARD_LENGTH / 2) as i32;
        let middle = Position::new(m, m);
        let offsets = shape.offsets();
        let mut consists_of = [middle; 4];
        let mut k: usize = 0;
        while k < 4
            invariant
                0 <= k <= 4,
                middle == spawn_pivot(),
                offsets@ == shape.spec_offsets(),
                forall|i: int|
                    0 <= i < k ==> #[trigger] consists_of@[i] == spawn_pivot().moved(
                        shape.spec_offsets()[i].0 as int,
                        shape.spec_offsets()[i].1 as int,
                    ),
            decreases 4 - k,
        {
            let (dx, dy) = offsets[k];
            consists_of[k] = middle.move_to(dx, dy);
            k = k + 1;
        }
        let r = Stone { consists_of, middle, color: shape.color() };
        assert(r.cells() =~= Stone::spawn_cells(shape));
        assert(r.wf());
        r
    }

    /// A piece of a shape drawn at random, at the centre of the board.
    pub fn new() -> (r: Stone)
        ensures
            r.wf(),
            exists|s: Shape| r.spawned_as(s),
    {
        let shape = Shape::random();
        Stone::spawn(shape)
    }

    /// `self` is `from` moved by `(dx, dy)`.
    pub open spec fn is_shift_of(self, from: Stone, dx: int, dy: int) -> bool {
        &&& self.cells().len() == 4
        &&& forall|i: int|
            0 <= i < 4 ==> #[trigger] self.cells()[i] == from.cells()[i].moved(dx, dy)
        &&& self.pivot() == from.pivot().moved(dx, dy)
        &&& self.spec_color() == from.spec_color()
    }

    /// `self` is `from` one step down under orientation `o`.
    pub open spec fn is_fall_of(self, from: Stone, o: Orientation) -> bool {
        self.is_shift_of(from, o.down().0, o.down().1)
    }

    /// `self` is `from` after `n` falls under orientation `o`.
    pub open spec fn is_lowering_of(self, from: Stone, o: Orientation, n: nat) -> bool {
        &&& self.cells().len() == 4
        &&& forall|i: int| 0 <= i < 4 ==> #[trigger] self.cells()[i] == from.cells()[i].fallen(o, n)
        &&& self.pivot() == from.pivot().fallen(o, n)
        &&& self.spec_color() == from.spec_color()
    }

    /// `self` is `from` turned a quarter clockwise in its frame.
    pub open spec fn is_clockwise_turn_of(self, from: Stone) -> bool {
        &&& self.cells().len() == 4
        &&& forall|i: int|
            0 <= i < 4 ==> #[trigger] self.cells()[i] == from.cells()[i].turned_clockwise(
                from.frame_corner(),
                4,
            )
        &&& self.pivot() == from.pivot()
        &&& self.spec_color() == from.spec_color()
    }

    /// `self` is `from` turned a quarter counter-clockwise in its frame.
    pub open spec fn is_counter_clockwise_turn_of(self, from: Stone) -> bool {
        &&& self.cells().len() == 4
        &&& forall|i: int|
            0 <= i < 4 ==> #[trigger] self.cells()[i] == from.cells()[i].turned_counter_clockwise(
                from.frame_corner(),
                4,
            )
        &&& self.pivot() == from.pivot()
        &&& self.spec_color() == from.spec_color()
    }

    /// Whether every cell moved by `(dx, dy)` lies on the board and is free.
    pub open spec fn can_shift(self, board: Board, dx: int, dy: int) -> bool {
        forall|i: int|
            0 <= i < 4 ==> {
                let p = (#[trigger] self.cells()[i]).moved(dx, dy);
                p.valid(BOARD_LENGTH as int) && board.free_at(p)
            }
    }

    /// Whether the turning frame lies on the board, and every cell turned a
    /// quarter clockwise in it lies on the board and is free.
    pub open spec fn can_turn_clockwise(self, board: Board) -> bool {
        &&& self.frame_corner().valid(BOARD_LENGTH as int)
        &&& forall|i: int|
            0 <= i < 4 ==> {
                let p = (#[trigger] self.cells()[i]).turned_clockwise(self.frame_corner(), 4);
                p.valid(BOARD_LENGTH as int) && board.free_at(p)
            }
    }

    /// As `can_turn_clockwise`, for a counter-clockwise turn.
    pub open spec fn can_turn_counter_clockwise(self, board: Board) -> bool {
        &&& self.frame_corner().valid(BOARD_LENGTH as int)
        &&& forall|i: int|
            0 <= i < 4 ==> {
                let p = (#[trigger] self.cells()[i]).turned_counter_clockwise(self.frame_corner(), 4);
                p.valid(BOARD_LENGTH as int) && board.free_at(p)
            }
    }

    /// The pivot lies within two steps of the board.
    pub proof fn lemma_pivot_near_board(self)
        requires
            self.wf(),
        ensures
            -1 <= self.pivot().x <= BOARD_LENGTH + 1,
            -1 <= self.pivot().y <= BOARD_LENGTH + 1,
    {
        assert(self.cells()[0].valid(BOARD_LENGTH as int));
    }

    /// Moves every cell and the pivot one step down; the cells below must
    /// lie on the board.
    pub fn fall(&mut self, orientation: &Orientation)
        requires
            old(self).wf(),
            forall|i: int|
                0 <= i < 4 ==> (#[trigger] old(self).cells()[i]).under(*orientation).valid(
                    BOARD_LENGTH as int,
                ),
        ensures
            final(self).wf(),
            final(self).is_fall_of(*old(self), *orientation),
    {
        let ghost before = *self;
        let mut k: usize = 0;
        while k < 4
            invariant
                0 <= k <= 4,
                before.wf(),
                forall|i: int|
                    0 <= i < 4 ==> (#[trigger] before.cells()[i]).under(*orientation).valid(
                        BOARD_LENGTH as int,
                    ),
                self.pivot() == before.pivot(),
                self.spec_color() == before.spec_color(),
                self.cells().len() == 4,
                forall|i: int| 0 <= i < k ==> #[trigger] self.cells()[i] == before.cells()[i].under(*orientation),
                forall|i: int| k <= i < 4 ==> #[trigger] self.cells()[i] == before.cells()[i],
            decreases 4 - k,
        {
            self.consists_of[k] = self.consists_of[k].get_under(orientation);
            k = k + 1;
        }
        proof {
            before.lemma_pivot_near_board();
        }
        self.middle = self.middle.get_under(orientation);
    }

    /// Moves the piece by `(dx, dy)` if every cell it would cover lies on the
    /// board and is free; otherwise leaves it as it is.
    fn shift_unless_blocked(&mut self, board: &Board, dx: i32, dy: i32) -> (r: bool)
        requires
            old(self).wf(),
            -1 <= dx <= 1,
            -1 <= dy <= 1,
        ensures
            final(self).wf(),
            r == old(self).can_shift(*board, dx as int, dy as int),
            r ==> final(self).is_shift_of(*old(self), dx as int, dy as int),
            !r ==> *final(self) == *old(self),
    {
        let mut k: usize = 0;
        while k < 4
            invariant
                0 <= k <= 4,
                self.wf(),
                -1 <= dx <= 1,
                -1 <= dy <= 1,
                forall|i: int|
                    0 <= i < k ==> {
                        let p = (#[trigger] self.cells()[i]).moved(dx as int, dy as int);
                        p.valid(BOARD_LENGTH as int) && board.free_at(p)
                    },
            decreases 4 - k,
        {
            let new_position = self.consists_of[k].move_to(dx, dy);
            if !new_position.is_valid(BOARD_LENGTH as i32) || !board.is_cell_free(&new_position) {
                return false;
            }
            k = k + 1;
        }
        let ghost before = *self;
        let mut k: usize = 0;
        while k < 4
            invariant
                0 <= k <= 4,
                before.wf(),
                -1 <= dx <= 1,
                -1 <= dy <= 1,
                before.can_shift(*board, dx as int, dy as int),
                self.pivot() == before.pivot(),
                self.spec_color() == before.spec_color(),
                self.cells().len() == 4,
                forall|i: int|
                    0 <= i < k ==> #[trigger] self.cells()[i] == before.cells()[i].moved(dx as int, dy as int),
                forall|i: int| k <= i < 4 ==> #[trigger] self.cells()[i] == before.cells()[i],
            decreases 4 - k,
        {
            self.consists_of[k] = self.consists_of[k].move_to(dx, dy);
            k = k + 1;
        }
        proof {
            before.lemma_pivot_near_board();
        }
        self.middle = self.middle.move_to(dx, dy);
        true
    }

    /// Moves the piece one step to the player's left, if the cells there lie
    /// on the board and are free.
    pub fn move_left_unless_blocked(&mut self, board: &Board) -> (r: bool)
        requires
            old(self).wf(),
        ensures
            final(self).wf(),
            r == old(self).can_shift(
                *board,
                board.spec_orientation().left().0,
                board.spec_orientation().left().1,
            ),
            r ==> final(self).is_shift_of(
                *old(self),
                board.spec_orientation().left().0,
                board.spec_orientation().left().1,
            ),
            !r ==> *final(self) == *old(self),
    {
        let (dx, dy) = board.get_orientation().left_step();
        self.shift_unless_blocked(board, dx, dy)
    }

    /// Moves the piece one step to the player's right, if the cells there
    /// lie on the board and are free.
    pub fn move_right_unless_blocked(&mut self, board: &Board) -> (r: bool)
        requires
            old(self).wf(),
        ensures
            final(self).wf(),
            r == old(self).can_shift(
                *board,
                board.spec_orientation().right().0,
                board.spec_orientation().right().1,
            ),
            r ==> final(self).is_shift_of(
                *old(self),
                board.spec_orientation().right().0,
                board.spec_orientation().right().1,
            ),
            !r ==> *final(self) == *old(self),
    {
        let (dx, dy) = board.get_orientation().right_step();
        self.shift_unless_blocked(board, dx, dy)
    }

    /// Turns the piece a quarter clockwise in the square of side 4 around its
    /// pivot, if that square starts on the board and every turned cell lies
    /// on the board and is free; otherwise leaves it as it is.
    pub fn rotate_clockwise_unless_blocked(&mut self, board: &Board) -> (r: bool)
        requires
            old(self).wf(),
        ensures
            final(self).wf(),
            r == old(self).can_turn_clockwise(*board),
            r ==> final(self).is_clockwise_turn_of(*old(self)),
            !r ==> *final(self) == *old(self),
    {
        proof {
            self.lemma_pivot_near_board();
        }
        let cutout = Cutout::new(self.middle, 4);
        if !cutout.is_valid(BOARD_LENGTH as i32) {
            return false;
        }
        let mut k: usize = 0;
        while k < 4
            invariant
                0 <= k <= 4,
                self.wf(),
                cutout.spec_top_left() == self.frame_corner(),
                cutout.spec_size() == 4,
                forall|i: int|
                    0 <= i < k ==> {
                        let p = (#[trigger] self.cells()[i]).turned_clockwise(self.frame_corner(), 4);
                        p.valid(BOARD_LENGTH as int) && board.free_at(p)
                    },
            decreases 4 - k,
        {
            let new_position = self.consists_of[k].rotate_clockwise(cutout);
            if !new_position.is_valid(BOARD_LENGTH as i32) || !board.is_cell_free(&new_position) {
                return false;
            }
            k = k + 1;
        }
        let ghost before = *self;
        let mut k: usize = 0;
        while k < 4
            invariant
                0 <= k <= 4,
                before.wf(),
                before.can_turn_clockwise(*board),
                cutout.spec_top_left() == before.frame_corner(),
                cutout.spec_size() == 4,
                self.pivot() == before.pivot(),
                self.spec_color() == before.spec_color(),
                self.cells().len() == 4,
                forall|i: int|
                    0 <= i < k ==> #[trigger] self.cells()[i] == before.cells()[i].turned_clockwise(
                        before.frame_corner(),
                        4,
                    ),
                forall|i: int| k <= i < 4 ==> #[trigger] self.cells()[i] == before.cells()[i],
            decreases 4 - k,
        {
            self.consists_of[k] = self.consists_of[k].rotate_clockwise(cutout);
            k = k + 1;
        }
        true
    }

    /// As `rotate_clockwise_unless_blocked`, turning counter-clockwise.
    pub fn rotate_counter_clockwise_unless_blocked(&mut self, board: &Board) -> (r: bool)
        requires
            old(self).wf(),
        ensures
            final(self).wf(),
            r == old(self).can_turn_counter_clockwise(*board),
            r ==> final(self).is_counter_clockwise_turn_of(*old(self)),
            !r ==> *final(self) == *old(self),
    {
        proof {
            self.lemma_pivot_near_board();
        }
        let cutout = Cutout::new(self.middle, 4);
        if !cutout.is_valid(BOARD_LENGTH as i32) {
            return false;
        }
        let mut k: usize = 0;
        while k < 4
            invariant
                0 <= k <= 4,
                self.wf(),
                cutout.spec_top_left() == self.frame_corner(),
                cutout.spec_size() == 4,
                forall|i: int|
                    0 <= i < k ==> {
                        let p = (#[trigger] self.cells()[i]).turned_counter_clockwise(
                            self.frame_corner(),
                            4,
                        );
                        p.valid(BOARD_LENGTH as int) && board.free_at(p)
                    },
            decreases 4 - k,
        {
            let new_position = self.consists_of[k].rotate_counter_clockwise(cutout);
            if !new_position.is_valid(BOARD_LENGTH as i32) || !board.is_cell_free(&new_position) {
                return false;
            }
            k = k + 1;
        }
        let ghost before = *self;
        let mut k: usize = 0;
        while k < 4
            invariant
                0 <= k <= 4,
                before.wf(),
                before.can_turn_counter_clockwise(*board),
                cutout.spec_top_left() == before.frame_corner(),
                cutout.spec_size() == 4,
                self.pivot() == before.pivot(),
                self.spec_color() == before.spec_color(),
                self.cells().len() == 4,
                forall|i: int|
                    0 <= i < k ==> #[trigger] self.cells()[i]
                        == before.cells()[i].turned_counter_clockwise(before.frame_corner(), 4),
                forall|i: int| k <= i < 4 ==> #[trigger] self.cells()[i] == before.cells()[i],
            decreases 4 - k,
        {
            self.consists_of[k] = self.consists_of[k].rotate_counter_clockwise(cutout);
            k = k + 1;
        }
        true
    }

    pub fn color(&self) -> (r: &Cell)
        ensures
            *r == self.spec_color(),
    {
        &self.color
    }

    pub fn positions(&self) -> (r: &[Position; 4])
        ensures
            r@ == self.cells(),
    {
        &self.consists_of
    }
}

/// Four clockwise quarter turns within a square bring every position of the
/// square back, and a counter-clockwise turn undoes a clockwise one.
pub proof fn lemma_four_turns_in_square(p: Position, tl: Position, size: int)
    requires
        0 <= p.x - tl.x < size,
        0 <= p.y - tl.y < size,
        fits_i32(tl.x + size),
        fits_i32(tl.y + size),
    ensures
        p.turned_clockwise(tl, size).turned_clockwise(tl, size).turned_clockwise(
            tl,
            size,
        ).turned_clockwise(tl, size) == p,
        p.turned_clockwise(tl, size).turned_counter_clockwise(tl, size) == p,
{
}

/// Four clockwise turns of a piece in a row, each of them allowed, bring
/// every cell back to where it was.
pub proof fn lemma_four_clockwise_turns(s0: Stone, s1: Stone, s2: Stone, s3: Stone, s4: Stone)
    requires
        s0.wf(),
        s1.is_clockwise_turn_of(s0),
        s2.is_clockwise_turn_of(s1),
        s3.is_clockwise_turn_of(s2),
        s4.is_clockwise_turn_of(s3),
    ensures
        s4.cells() == s0.cells(),
        s4.pivot() == s0.pivot(),
        s4.spec_color() == s0.spec_color(),
{
    s0.lemma_pivot_near_board();
    let tl = s0.frame_corner();
    assert forall|i: int| 0 <= i < 4 implies #[trigger] s4.cells()[i] == s0.cells()[i] by {
        assert(s0.in_frame(s0.cells()[i]));
        lemma_four_turns_in_square(s0.cells()[i], tl, 4);
        assert(s1.cells()[i] == s0.cells()[i].turned_clockwise(tl, 4));
        assert(s2.cells()[i] == s1.cells()[i].turned_clockwise(tl, 4));
        assert(s3.cells()[i] == s2.cells()[i].turned_clockwise(tl, 4));
        assert(s4.cells()[i] == s3.cells()[i].turned_clockwise(tl, 4));
    }
    assert(s4.cells() =~= s0.cells());
}

/// Under every orientation, a piece with a cell on the edge of the board
/// toward which a move to the left or right would take it cannot make that
/// move: the move is refused and the piece is left whole.
pub proof fn lemma_edge_stops_move(s: Stone, board: Board, i: int, step: (int, int))
    requires
        s.wf(),
        0 <= i < 4,
        step == board.spec_orientation().left() || step == board.spec_orientation().right(),
        (step.0 == -1 && s.cells()[i].x == 0) || (step.0 == 1 && s.cells()[i].x == BOARD_LENGTH
            - 1) || (step.1 == -1 && s.cells()[i].y == 0) || (step.1 == 1 && s.cells()[i].y
            == BOARD_LENGTH - 1),
    ensures
        !s.can_shift(board, step.0, step.1),
{
    assert(!s.cells()[i].moved(step.0, step.1).valid(BOARD_LENGTH as int));
}

} // verus!
