use vstd::arithmetic::div_mod::{
    lemma_fundamental_div_mod, lemma_fundamental_div_mod_converse, lemma_mod_pos_bound,
    lemma_multiply_divide_lt,
};
use vstd::prelude::*;

use crate::cutout::Cutout;
use crate::orientation::Orientation;

verus! {

/// Whether `v` is representable as an `i32`.
pub open spec fn fits_i32(v: int) -> bool {
    i32::MIN <= v <= i32::MAX
}

/// Row on screen, counted from the top, of the logical cell `(x, y)` of a
/// board of side `l` turned to `o`.
pub open spec fn screen_row(x: int, y: int, l: int, o: Orientation) -> int {
    match o {
        Orientation::Zero => y,
        Orientation::Ninety => x,
        Orientation::OneEighty => l - y - 1,
        Orientation::TwoSeventy => l - x - 1,
    }
}

/// Column on screen, counted from the left, of the logical cell `(x, y)`.
pub open spec fn screen_col(x: int, y: int, l: int, o: Orientation) -> int {
    match o {
        Orientation::Zero => x,
        Orientation::Ninety => l - y - 1,
        Orientation::OneEighty => l - x - 1,
        Orientation::TwoSeventy => y,
    }
}

/// Row-major index of the logical cell `(x, y)` in the stored cells of a
/// board of side `l` turned to `o`.
pub open spec fn index_of(x: int, y: int, l: int, o: Orientation) -> int {
    l * screen_row(x, y, l, o) + screen_col(x, y, l, o)
}

/// A cell of the board, in logical coordinates.
#[derive(Clone, Copy, PartialEq, Eq, Structural, Debug, Hash)]
pub struct Position {
    pub x: i32,
    pub y: i32,
}

impl Position {
    /// On a board of side `l`.
    pub open spec fn valid(self, l: int) -> bool {
        0 <= self.x < l && 0 <= self.y < l
    }

    pub open spec fn index(self, l: int, o: Orientation) -> int {
        index_of(self.x as int, self.y as int, l, o)
    }

    /// Whether moving by `(dx, dy)` stays within `i32`.
    pub open spec fn can_move(self, dx: int, dy: int) -> bool {
        fits_i32(self.x + dx) && fits_i32(self.y + dy)
    }

    /// The position `(dx, dy)` away; exact where `can_move(dx, dy)`.
    pub open spec fn moved(self, dx: int, dy: int) -> Position {
        Position { x: (self.x + dx) as i32, y: (self.y + dy) as i32 }
    }

    /// The neighbour one step down under orientation `o`.
    pub open spec fn under(self, o: Orientation) -> Position {
        self.moved(o.down().0, o.down().1)
    }

    /// The position reached after falling `n` steps under `o`.
    pub open spec fn fallen(self, o: Orientation, n: nat) -> Position
        decreases n,
    {
        if n == 0 {
            self
        } else {
            self.fallen(o, (n - 1) as nat).under(o)
        }
    }

    /// Steps this position can fall under `o` before it leaves a board of
    /// side `l`: the screen rows beneath it, itself included.
    pub open spec fn fall_distance(self, l: int, o: Orientation) -> int {
        l - screen_row(self.x as int, self.y as int, l, o)
    }

    /// Image under a clockwise quarter turn of the square with top-left
    /// corner `tl` and side `size`.
    pub open spec fn turned_clockwise(self, tl: Position, size: int) -> Position {
        Position {
            x: (tl.x + (size - (self.y - tl.y) - 1)) as i32,
            y: (tl.y + (self.x - tl.x)) as i32,
        }
    }

    /// Image under a counter-clockwise quarter turn of the same square.
    pub open spec fn turned_counter_clockwise(self, tl: Position, size: int) -> Position {
        Position {
            x: (tl.x + (self.y - tl.y)) as i32,
            y: (tl.y + (size - (self.x - tl.x) - 1)) as i32,
        }
    }

    pub open spec fn can_turn_clockwise(self, tl: Position, size: int) -> bool {
        fits_i32(tl.x + (size - (self.y - tl.y) - 1)) && fits_i32(tl.y + (self.x - tl.x))
    }

    pub open spec fn can_turn_counter_clockwise(self, tl: Position, size: int) -> bool {
        fits_i32(tl.x + (self.y - tl.y)) && fits_i32(tl.y + (size - (self.x - tl.x) - 1))
    }

    pub fn new(x: i32, y: i32) -> (r: Position)
        ensures
            r.x == x,
            r.y == y,
    {
        Position { x: x, y: y }
    }

    /// Index of this cell in the stored cells of a board of side `l`
    /// turned to `orientation`.
    pub fn get_index(&self, l: usize, orientation: &Orientation) -> (r: usize)
        requires
            self.valid(l as int),
            l * l <= usize::MAX,
        ensures
            r == self.index(l as int, *orientation),
            r < l * l,
    {
        let x = self.x as usize;
        let y = self.y as usize;
        let row: usize = match orientation {
            Orientation::Zero => y,
            Orientation::Ninety => x,
            Orientation::OneEighty => l - y - 1,
            Orientation::TwoSeventy => l - x - 1,
        };
        let col: usize = match orientation {
            Orientation::Zero => x,
            Orientation::Ninety => l - y - 1,
            Orientation::OneEighty => l - x - 1,
            Orientation::TwoSeventy => y,
        };
        assert(l * row + col < l * l) by (nonlinear_arith)
            requires
                row < l,
                col < l,
        ;
        l * row + col
    }

    /// The neighbour one step down; it may lie off the board.
    pub fn get_under(&self, orientation: &Orientation) -> (r: Position)
        requires
            self.can_move(orientation.down().0, orientation.down().1),
        ensures
            r == self.under(*orientation),
    {
        match orientation {
            Orientation::Zero => Position::new(self.x, self.y + 1),
            Orientation::Ninety => Position::new(self.x + 1, self.y),
            Orientation::OneEighty => Position::new(self.x, self.y - 1),
            Orientation::TwoSeventy => Position::new(self.x - 1, self.y),
        }
    }

    pub fn move_to(&self, x_diff: i32, y_diff: i32) -> (r: Position)
        requires
            self.can_move(x_diff as int, y_diff as int),
        ensures
            r == self.moved(x_diff as int, y_diff as int),
            r.x == self.x + x_diff,
            r.y == self.y + y_diff,
    {
        Position::new(self.x + x_diff, self.y + y_diff)
    }

    /// Quarter turn clockwise within `cutout`.
    pub fn rotate_clockwise(&self, cutout: Cutout) -> (r: Position)
        requires
            self.can_turn_clockwise(cutout.spec_top_left(), cutout.spec_size() as int),
        ensures
            r == self.turned_clockwise(cutout.spec_top_left(), cutout.spec_size() as int),
    {
        let tl = cutout.get_top_left();
        let size = cutout.size() as i64;
        let x_in_cutout = self.x as i64 - tl.x as i64;
        let y_in_cutout = self.y as i64 - tl.y as i64;
        Position::new(
            (tl.x as i64 + (size - y_in_cutout - 1)) as i32,
            (tl.y as i64 + x_in_cutout) as i32,
        )
    }

    /// Quarter turn counter-clockwise within `cutout`.
    pub fn rotate_counter_clockwise(&self, cutout: Cutout) -> (r: Position)
        requires
            self.can_turn_counter_clockwise(cutout.spec_top_left(), cutout.spec_size() as int),
        ensures
            r == self.turned_counter_clockwise(cutout.spec_top_left(), cutout.spec_size() as int),
    {
        let tl = cutout.get_top_left();
        let size = cutout.size() as i64;
        let x_in_cutout = self.x as i64 - tl.x as i64;
        let y_in_cutout = self.y as i64 - tl.y as i64;
        Position::new(
            (tl.x as i64 + y_in_cutout) as i32,
            (tl.y as i64 + (size - x_in_cutout - 1)) as i32,
        )
    }

    pub fn is_valid(&self, board_length: i32) -> (r: bool)
        ensures
            r == self.valid(board_length as int),
    {
        self.x >= 0 && self.x < board_length && self.y >= 0 && self.y < board_length
    }
}

/// The stored index of a position on the board is its screen row and
/// column, read row by row.
proof fn lemma_index_splits(p: Position, l: int, o: Orientation)
    requires
        0 < l,
        p.valid(l),
    ensures
        0 <= p.index(l, o) < l * l,
        p.index(l, o) / l == screen_row(p.x as int, p.y as int, l, o),
        p.index(l, o) % l == screen_col(p.x as int, p.y as int, l, o),
{
    let row = screen_row(p.x as int, p.y as int, l, o);
    let col = screen_col(p.x as int, p.y as int, l, o);
    assert(p.index(l, o) == row * l + col) by (nonlinear_arith)
        requires
            p.index(l, o) == l * row + col,
    ;
    lemma_fundamental_div_mod_converse(p.index(l, o), l, row, col);
    assert(0 <= l * row + col < l * l) by (nonlinear_arith)
        requires
            0 <= row < l,
            0 <= col < l,
    ;
}

/// Whether `i` is the index of some position on a board of side `l`
/// turned to `o`.
pub open spec fn index_reached(l: int, o: Orientation, i: int) -> bool {
    exists|p: Position| p.valid(l) && #[trigger] p.index(l, o) == i
}

/// Under every orientation, `index` maps the positions of a board of side
/// `l` one to one onto `0 .. l * l`: no two positions share an index, and
/// every index belongs to a position.
pub proof fn lemma_index_bijective(l: int, o: Orientation)
    requires
        0 < l <= i32::MAX,
    ensures
        forall|p: Position| p.valid(l) ==> 0 <= #[trigger] p.index(l, o) < l * l,
        forall|p: Position, q: Position|
            p.valid(l) && q.valid(l) && #[trigger] p.index(l, o) == #[trigger] q.index(l, o) ==> p
                == q,
        forall|i: int| 0 <= i < l * l ==> #[trigger] index_reached(l, o, i),
{
    assert forall|p: Position| p.valid(l) implies 0 <= #[trigger] p.index(l, o) < l * l by {
        lemma_index_splits(p, l, o);
    }
    assert forall|p: Position, q: Position|
        p.valid(l) && q.valid(l) && #[trigger] p.index(l, o) == #[trigger] q.index(l, o) implies p
        == q by {
        lemma_index_splits(p, l, o);
        lemma_index_splits(q, l, o);
    }
    assert forall|i: int| 0 <= i < l * l implies #[trigger] index_reached(l, o, i) by {
        lemma_fundamental_div_mod(i, l);
        lemma_mod_pos_bound(i, l);
        lemma_multiply_divide_lt(i, l, l);
        assert(0 <= i / l) by (nonlinear_arith)
            requires
                0 <= i,
                0 < l,
        ;
        let row = i / l;
        let col = i % l;
        let p = match o {
            Orientation::Zero => Position { x: col as i32, y: row as i32 },
            Orientation::Ninety => Position { x: row as i32, y: (l - 1 - col) as i32 },
            Orientation::OneEighty => Position { x: (l - 1 - col) as i32, y: (l - 1 - row) as i32 },
            Orientation::TwoSeventy => Position { x: (l - 1 - row) as i32, y: col as i32 },
        };
        assert(p.valid(l) && p.index(l, o) == i);
    }
}

/// A position lies on a board of side `l` exactly when its screen row and
/// column do.
pub proof fn lemma_valid_on_screen(p: Position, l: int, o: Orientation)
    ensures
        p.valid(l) <==> (0 <= screen_row(p.x as int, p.y as int, l, o) < l && 0 <= screen_col(
            p.x as int,
            p.y as int,
            l,
            o,
        ) < l),
{
}

/// Under every orientation, one step down is one screen row down in the
/// same screen column.
pub proof fn lemma_under_is_screen_down(p: Position, l: int, o: Orientation)
    requires
        p.can_move(o.down().0, o.down().1),
    ensures
        screen_row(p.under(o).x as int, p.under(o).y as int, l, o) == screen_row(
            p.x as int,
            p.y as int,
            l,
            o,
        ) + 1,
        screen_col(p.under(o).x as int, p.under(o).y as int, l, o) == screen_col(
            p.x as int,
            p.y as int,
            l,
            o,
        ),
{
}

/// After `k` falls from a position on the board, no more than its fall
/// distance, the position is `k` screen rows lower in the same column.
pub proof fn lemma_fallen_on_screen(p: Position, l: int, o: Orientation, k: nat)
    requires
        0 < l <= i32::MAX,
        p.valid(l),
        k <= p.fall_distance(l, o),
    ensures
        screen_row(p.fallen(o, k).x as int, p.fallen(o, k).y as int, l, o) == screen_row(
            p.x as int,
            p.y as int,
            l,
            o,
        ) + k,
        screen_col(p.fallen(o, k).x as int, p.fallen(o, k).y as int, l, o) == screen_col(
            p.x as int,
            p.y as int,
            l,
            o,
        ),
    decreases k,
{
    if k > 0 {
        let q = p.fallen(o, (k - 1) as nat);
        lemma_fallen_on_screen(p, l, o, (k - 1) as nat);
        lemma_valid_on_screen(p, l, o);
        lemma_valid_on_screen(q, l, o);
        lemma_under_is_screen_down(q, l, o);
    }
}

/// Falling from a position on the board shortens its distance to the floor
/// by one; the position stays on the board for fewer falls than that
/// distance, and has left it after exactly that many.
pub proof fn lemma_fall_leaves_board(p: Position, l: int, o: Orientation)
    requires
        0 < l <= i32::MAX,
        p.valid(l),
    ensures
        0 < p.fall_distance(l, o) <= l,
        p.under(o).fall_distance(l, o) == p.fall_distance(l, o) - 1,
        forall|k: nat| k < p.fall_distance(l, o) ==> #[trigger] p.fallen(o, k).valid(l),
        !p.fallen(o, p.fall_distance(l, o) as nat).valid(l),
{
    lemma_valid_on_screen(p, l, o);
    lemma_under_is_screen_down(p, l, o);
    assert forall|k: nat| k < p.fall_distance(l, o) implies #[trigger] p.fallen(o, k).valid(l) by {
        lemma_fallen_on_screen(p, l, o, k);
        lemma_valid_on_screen(p.fallen(o, k), l, o);
    }
    let d = p.fall_distance(l, o) as nat;
    lemma_fallen_on_screen(p, l, o, d);
    lemma_valid_on_screen(p.fallen(o, d), l, o);
}

} // verus!
