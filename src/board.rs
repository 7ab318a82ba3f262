use vstd::arithmetic::div_mod::{
    lemma_fundamental_div_mod, lemma_mod_pos_bound, lemma_multiply_divide_lt,
};
use vstd::prelude::*;

use crate::cell::Cell;
use crate::orientation::Orientation;
use crate::position::{screen_col, screen_row, Position};
use crate::stone::Stone;

verus! {

/// Side of the square board.
pub const BOARD_LENGTH: usize = 30;

/// Number of cells of the board.
pub const BOARD_CELLS: usize = BOARD_LENGTH * BOARD_LENGTH;

/// The cell at screen row `r` and column `c` of cells stored row by row on
/// the board.
pub open spec fn at(cells: Seq<Cell>, r: int, c: int) -> Cell {
    cells[BOARD_LENGTH * r + c]
}

/// Writing the cell at row `r0` and column `c0` leaves every other cell.
proof fn lemma_at_update(s: Seq<Cell>, r0: int, c0: int, v: Cell)
    requires
        s.len() == BOARD_CELLS,
        0 <= r0 < BOARD_LENGTH,
        0 <= c0 < BOARD_LENGTH,
    ensures
        forall|r: int, c: int|
            0 <= r < BOARD_LENGTH && 0 <= c < BOARD_LENGTH ==> #[trigger] at(
                s.update(BOARD_LENGTH * r0 + c0, v),
                r,
                c,
            ) == if r == r0 && c == c0 {
                v
            } else {
                at(s, r, c)
            },
{
}

/// The rows of cells stored row by row on the board, top row first.
pub open spec fn grid_of(cells: Seq<Cell>) -> Seq<Seq<Cell>> {
    Seq::new(BOARD_LENGTH as nat, |r: int| Seq::new(BOARD_LENGTH as nat, |c: int| at(cells, r, c)))
}

/// Whether every cell of `row` is occupied.
pub open spec fn row_full(row: Seq<Cell>) -> bool {
    forall|c: int| 0 <= c < row.len() ==> row[c] != Cell::Free
}

/// The test that a row survives row-clearing.
pub open spec fn keeps_row() -> spec_fn(Seq<Cell>) -> bool {
    |row: Seq<Cell>| !row_full(row)
}

/// The rows of `g` that are not full, in their order.
pub open spec fn kept_rows(g: Seq<Seq<Cell>>) -> Seq<Seq<Cell>> {
    g.filter(keeps_row())
}

pub open spec fn free_row() -> Seq<Cell> {
    Seq::new(BOARD_LENGTH as nat, |c: int| Cell::Free)
}

/// `g` with its full rows taken out: the other rows keep their order and
/// sink to the bottom, and free rows fill the top.
pub open spec fn cleared(g: Seq<Seq<Cell>>) -> Seq<Seq<Cell>> {
    Seq::new((g.len() - kept_rows(g).len()) as nat, |r: int| free_row()) + kept_rows(g)
}

/// Whether one of the first `n` cells of `stone` is stored at index `i`
/// under orientation `o`.
pub open spec fn covers_first(stone: Stone, o: Orientation, n: int, i: int) -> bool {
    exists|k: int| 0 <= k < n && (#[trigger] stone.cells()[k]).index(BOARD_LENGTH as int, o) == i
}

/// Whether a cell of `stone` is stored at index `i` under orientation `o`.
pub open spec fn covers(stone: Stone, o: Orientation, i: int) -> bool {
    covers_first(stone, o, 4, i)
}

/// `cells` with the cells of `stone` set to its colour.
pub open spec fn painted(cells: Seq<Cell>, stone: Stone, o: Orientation) -> Seq<Cell> {
    Seq::new(
        cells.len(),
        |i: int|
            if covers(stone, o, i) {
                stone.spec_color()
            } else {
                cells[i]
            },
    )
}

/// Sets the cells of `stone` to its colour.
fn paint(cells: &mut [Cell; BOARD_CELLS], stone: &Stone, orientation: &Orientation)
    requires
        stone.wf(),
    ensures
        final(cells)@ == painted(old(cells)@, *stone, *orientation),
{
    let ghost before = cells@;
    let positions = stone.positions();
    let color = *stone.color();
    let mut k: usize = 0;
    while k < 4
        invariant
            0 <= k <= 4,
            stone.wf(),
            positions@ == stone.cells(),
            color == stone.spec_color(),
            cells@.len() == before.len(),
            forall|i: int|
                0 <= i < before.len() ==> #[trigger] cells@[i] == if covers_first(
                    *stone,
                    *orientation,
                    k as int,
                    i,
                ) {
                    color
                } else {
                    before[i]
                },
        decreases 4 - k,
    {
        let i = positions[k].get_index(BOARD_LENGTH, orientation);
        let ghost prev = cells@;
        cells[i] = color;
        assert forall|j: int| 0 <= j < before.len() implies #[trigger] covers_first(
            *stone,
            *orientation,
            k + 1,
            j,
        ) == (covers_first(*stone, *orientation, k as int, j) || j == i) by {
            if j == i {
                assert(stone.cells()[k as int].index(BOARD_LENGTH as int, *orientation) == j);
            }
            if covers_first(*stone, *orientation, k + 1, j) && j != i {
                let w = choose|w: int|
                    0 <= w < k + 1 && (#[trigger] stone.cells()[w]).index(
                        BOARD_LENGTH as int,
                        *orientation,
                    ) == j;
                assert(w < k);
            }
        }
        k = k + 1;
    }
    assert(cells@ =~= painted(before, *stone, *orientation));
}

/// A square grid turned a quarter clockwise: what was row `r` becomes
/// column `l - 1 - r`.
pub open spec fn turned_grid_clockwise(g: Seq<Seq<Cell>>) -> Seq<Seq<Cell>> {
    Seq::new(g.len(), |r: int| Seq::new(g.len(), |c: int| g[g.len() - 1 - c][r]))
}

/// A square grid turned a quarter counter-clockwise: what was row `r`
/// becomes column `r`, read upward.
pub open spec fn turned_grid_counter_clockwise(g: Seq<Seq<Cell>>) -> Seq<Seq<Cell>> {
    Seq::new(g.len(), |r: int| Seq::new(g.len(), |c: int| g[c][g.len() - 1 - r]))
}

/// The settled cells and the board's orientation. Cells are stored row by
/// row as they appear on screen; a logical position reaches its cell only
/// through `Position::index` under the current orientation.
#[derive(Clone, Copy, Debug)]
pub struct Board {
    cells: [Cell; BOARD_CELLS],
    orientation: Orientation,
}

impl Board {
    pub closed spec fn stored(self) -> Seq<Cell> {
        self.cells@
    }

    pub closed spec fn spec_orientation(self) -> Orientation {
        self.orientation
    }

    /// The stored cells as rows on screen, top row first.
    pub open spec fn grid(self) -> Seq<Seq<Cell>> {
        grid_of(self.stored())
    }

    /// What the board holds at logical position `p`.
    pub open spec fn cell_at(self, p: Position) -> Cell {
        self.stored()[p.index(BOARD_LENGTH as int, self.spec_orientation())]
    }

    pub open spec fn free_at(self, p: Position) -> bool {
        self.cell_at(p) == Cell::Free
    }

    /// Whether one of the four `cells` has, under it, the edge of the board
    /// or an occupied cell.
    pub open spec fn blocks(self, cells: Seq<Position>) -> bool {
        exists|i: int|
            0 <= i < 4 && {
                let below = (#[trigger] cells[i]).under(self.spec_orientation());
                !below.valid(BOARD_LENGTH as int) || !self.free_at(below)
            }
    }

    /// Whether `stone` cannot fall one step further.
    pub open spec fn blocked_below(self, stone: Stone) -> bool {
        self.blocks(stone.cells())
    }

    proof fn lemma_stored_len(self)
        ensures
            self.stored().len() == BOARD_CELLS,
    {
    }

    /// An empty board, upright.
    pub fn new() -> (r: Board)
        ensures
            r.stored().len() == BOARD_CELLS,
            forall|i: int| 0 <= i < BOARD_CELLS ==> #[trigger] r.stored()[i] == Cell::Free,
            r.spec_orientation() == Orientation::Zero,
    {
        Board { cells: [Cell::Free; BOARD_CELLS], orientation: Orientation::Zero }
    }

    /// A board holding `cells`, stored row by row as on screen, turned to
    /// `orientation`.
    pub fn from_cells(cells: [Cell; BOARD_CELLS], orientation: Orientation) -> (r: Board)
        ensures
            r.stored() == cells@,
            r.spec_orientation() == orientation,
    {
        Board { cells, orientation }
    }

    pub fn get_orientation(&self) -> (r: &Orientation)
        ensures
            *r == self.spec_orientation(),
    {
        &self.orientation
    }

    /// Whether the cell at `position` is free; `position` must lie on the
    /// board.
    pub fn is_cell_free(&self, position: &Position) -> (r: bool)
        requires
            position.valid(BOARD_LENGTH as int),
        ensures
            r == self.free_at(*position),
    {
        let i = position.get_index(BOARD_LENGTH, &self.orientation);
        self.cells[i] == Cell::Free
    }

    /// Whether `stone` cannot fall one step further.
    pub fn is_blocked_below(&self, stone: &Stone) -> (r: bool)
        requires
            stone.wf(),
        ensures
            r == self.blocked_below(*stone),
    {
        let positions = stone.positions();
        let mut k: usize = 0;
        while k < 4
            invariant
                0 <= k <= 4,
                stone.wf(),
                positions@ == stone.cells(),
                forall|i: int|
                    0 <= i < k ==> {
                        let below = (#[trigger] stone.cells()[i]).under(self.spec_orientation());
                        below.valid(BOARD_LENGTH as int) && self.free_at(below)
                    },
            decreases 4 - k,
        {
            let position_under = positions[k].get_under(&self.orientation);
            if !position_under.is_valid(BOARD_LENGTH as i32) || !self.is_cell_free(&position_under) {
                return true;
            }
            k = k + 1;
        }
        false
    }

    /// Settles `stone`: its cells take its colour.
    pub fn add(&mut self, stone: &Stone)
        requires
            stone.wf(),
        ensures
            final(self).stored() == painted(old(self).stored(), *stone, old(self).spec_orientation()),
            final(self).spec_orientation() == old(self).spec_orientation(),
    {
        let orientation = self.orientation;
        paint(&mut self.cells, stone, &orientation);
    }

    /// The stored cells with `stone` drawn in.
    pub fn cells_with(&self, stone: &Stone) -> (r: [Cell; BOARD_CELLS])
        requires
            stone.wf(),
        ensures
            r@ == painted(self.stored(), *stone, self.spec_orientation()),
    {
        let mut cells = self.cells;
        paint(&mut cells, stone, &self.orientation);
        cells
    }

    /// The stored cells, row by row as on screen.
    pub fn get_cells(&self) -> (r: [Cell; BOARD_CELLS])
        ensures
            r@ == self.stored(),
    {
        self.cells
    }

    /// Takes out every full row: the rows above sink by the number of full
    /// rows beneath them, and free rows fill the top.
    pub fn maybe_delete_rows(&mut self)
        ensures
            final(self).grid() == cleared(old(self).grid()),
            final(self).spec_orientation() == old(self).spec_orientation(),
    {
        broadcast use Seq::lemma_filter_len, Seq::lemma_filter_prepend;

        let l = BOARD_LENGTH;
        let ghost g = self.grid();
        let mut kept_cells = [Cell::Free; BOARD_CELLS];
        let mut dst: usize = l;
        let mut y: usize = l;
        while y > 0
            invariant
                l == BOARD_LENGTH,
                y <= dst <= l,
                g == self.grid(),
                kept_rows(g.subrange(y as int, l as int)).len() == l - dst,
                forall|r: int, c: int|
                    dst <= r < l && 0 <= c < l ==> #[trigger] at(kept_cells@, r, c) == kept_rows(
                        g.subrange(y as int, l as int),
                    )[r - dst][c],
                forall|r: int, c: int|
                    0 <= r < dst && 0 <= c < l ==> #[trigger] at(kept_cells@, r, c) == Cell::Free,
            decreases y,
        {
            y = y - 1;
            let mut full = true;
            let mut x: usize = 0;
            while x < l
                invariant
                    l == BOARD_LENGTH,
                    y < l,
                    0 <= x <= l,
                    full == forall|c: int| 0 <= c < x ==> #[trigger] at(self.cells@, y as int, c) != Cell::Free,
                decreases l - x,
            {
                assert(y * l + x == BOARD_LENGTH * y + x) by (nonlinear_arith)
                    requires l == BOARD_LENGTH;
                assert(at(self.cells@, y as int, x as int) == self.cells@[(y * l + x) as int]);
                if self.cells[y * l + x] == Cell::Free {
                    full = false;
                }
                x = x + 1;
            }
            let ghost rest = g.subrange(y + 1, l as int);
            assert(g.subrange(y as int, l as int) =~= seq![g[y as int]] + rest);
            assert(full == row_full(g[y as int])) by {
                assert forall|c: int| 0 <= c < l implies #[trigger] g[y as int][c] == at(
                    self.cells@,
                    y as int,
                    c,
                ) by {}
                if !full {
                    let c = choose|c: int| 0 <= c < l && at(self.cells@, y as int, c) == Cell::Free;
                    assert(g[y as int][c] == Cell::Free);
                }
            }
            proof {
                rest.lemma_filter_prepend(g[y as int], keeps_row());
            }
            if !full {
                dst = dst - 1;
                let mut x: usize = 0;
                while x < l
                    invariant
                        l == BOARD_LENGTH,
                        y < l,
                        y <= dst < l,
                        0 <= x <= l,
                        forall|r: int, c: int|
                            dst < r < l && 0 <= c < l ==> #[trigger] at(kept_cells@, r, c)
                                == kept_rows(rest)[r - dst - 1][c],
                        forall|r: int, c: int|
                            0 <= r < dst && 0 <= c < l ==> #[trigger] at(kept_cells@, r, c)
                                == Cell::Free,
                        forall|c: int|
                            0 <= c < x ==> #[trigger] at(kept_cells@, dst as int, c) == at(
                                self.cells@,
                                y as int,
                                c,
                            ),
                    decreases l - x,
                {
                    assert(dst * l + x == BOARD_LENGTH * dst + x && y * l + x == BOARD_LENGTH * y
                        + x) by (nonlinear_arith)
                        requires l == BOARD_LENGTH;
                    let ghost prev = kept_cells@;
                    kept_cells[dst * l + x] = self.cells[y * l + x];
                    proof {
                        lemma_at_update(prev, dst as int, x as int, self.cells@[BOARD_LENGTH * y + x]);
                    }
                    x = x + 1;
                }
            }
        }
        assert(g.subrange(0, l as int) =~= g);
        let ghost kept = kept_rows(g);
        assert(kept.len() == l - dst);
        self.cells = kept_cells;
        assert forall|r: int| 0 <= r < l implies #[trigger] self.grid()[r] =~= cleared(g)[r] by {
            if r < dst {
                assert(cleared(g)[r] == free_row());
                assert forall|c: int| 0 <= c < l implies #[trigger] self.grid()[r][c] == Cell::Free by {
                    assert(at(kept_cells@, r, c) == Cell::Free);
                }
            } else {
                assert(cleared(g)[r] == kept[r - dst]);
                assert(kept.contains(kept[r - dst]));
                g.lemma_filter_contains_rev(keeps_row(), kept[r - dst]);
                assert(kept[r - dst].len() == l);
                assert forall|c: int| 0 <= c < l implies #[trigger] self.grid()[r][c] == kept[r
                    - dst][c] by {
                    assert(at(kept_cells@, r, c) == kept[r - dst][c]);
                }
            }
        }
        assert(self.grid() =~= cleared(g));
    }

    /// Turns the whole board a quarter clockwise: the picture turns and the
    /// orientation advances, so that every settled cell keeps its logical
    /// position.
    pub fn rotate_clockwise(&mut self)
        ensures
            final(self).grid() == turned_grid_clockwise(old(self).grid()),
            final(self).spec_orientation() == old(self).spec_orientation().spec_clockwise(),
            forall|p: Position|
                p.valid(BOARD_LENGTH as int) ==> #[trigger] final(self).cell_at(p) == old(
                    self,
                ).cell_at(p),
    {
        let l: usize = BOARD_LENGTH;
        let mut rotated_cells = [Cell::Free; BOARD_CELLS];
        let mut y: usize = 0;
        while y < l
            invariant
                l == BOARD_LENGTH,
                0 <= y <= l,
                forall|r: int, c: int|
                    0 <= r < l && l - y <= c < l ==> #[trigger] at(rotated_cells@, r, c) == at(
                        self.cells@,
                        l - 1 - c,
                        r,
                    ),
            decreases l - y,
        {
            let mut x: usize = 0;
            while x < l
                invariant
                    l == BOARD_LENGTH,
                    0 <= y < l,
                    0 <= x <= l,
                    forall|r: int, c: int|
                        0 <= r < l && l - y <= c < l ==> #[trigger] at(rotated_cells@, r, c) == at(
                            self.cells@,
                            l - 1 - c,
                            r,
                        ),
                    forall|r: int|
                        0 <= r < x ==> #[trigger] at(rotated_cells@, r, l - 1 - y) == at(self.cells@, y as int, r),
                decreases l - x,
            {
                let new_x = l - y - 1;
                let new_y = x;
                assert(new_y * l + new_x == BOARD_LENGTH * new_y + new_x && y * l + x == BOARD_LENGTH * y + x) by (nonlinear_arith)
                    requires l == BOARD_LENGTH;
                let ghost prev = rotated_cells@;
                rotated_cells[new_y * l + new_x] = self.cells[y * l + x];
                proof {
                    lemma_at_update(prev, new_y as int, new_x as int, self.cells@[BOARD_LENGTH * y + x]);
                }
                x = x + 1;
            }
            assert forall|r: int, c: int| 0 <= r < l && l - (y + 1) <= c < l implies #[trigger] at(
                rotated_cells@,
                r,
                c,
            ) == at(self.cells@, l - 1 - c, r) by {
                if c == l - 1 - y {
                    assert(at(rotated_cells@, r, l - 1 - y) == at(self.cells@, y as int, r));
                }
            }
            y = y + 1;
        }
        let ghost before = *self;
        self.cells = rotated_cells;
        self.orientation = self.orientation.clockwise();
        assert(self.grid() =~~= turned_grid_clockwise(before.grid()));
        assert forall|p: Position| p.valid(BOARD_LENGTH as int) implies #[trigger] self.cell_at(p)
            == before.cell_at(p) by {
            let o = before.spec_orientation();
            let n = self.spec_orientation();
            let row = screen_row(p.x as int, p.y as int, l as int, o);
            let col = screen_col(p.x as int, p.y as int, l as int, o);
            let new_row = screen_row(p.x as int, p.y as int, l as int, n);
            let new_col = screen_col(p.x as int, p.y as int, l as int, n);
            assert(self.cell_at(p) == self.grid()[new_row][new_col]);
            assert(before.cell_at(p) == before.grid()[row][col]);
        }
    }

    /// Turns the whole board a quarter counter-clockwise.
    pub fn rotate_counter_clockwise(&mut self)
        ensures
            final(self).grid() == turned_grid_counter_clockwise(old(self).grid()),
            final(self).spec_orientation() == old(self).spec_orientation().spec_counter_clockwise(),
            forall|p: Position|
                p.valid(BOARD_LENGTH as int) ==> #[trigger] final(self).cell_at(p) == old(
                    self,
                ).cell_at(p),
    {
        let l: usize = BOARD_LENGTH;
        let mut rotated_cells = [Cell::Free; BOARD_CELLS];
        let mut y: usize = 0;
        while y < l
            invariant
                l == BOARD_LENGTH,
                0 <= y <= l,
                forall|r: int, c: int|
                    0 <= r < l && 0 <= c < y ==> #[trigger] at(rotated_cells@, r, c) == at(
                        self.cells@,
                        c,
                        l - 1 - r,
                    ),
            decreases l - y,
        {
            let mut x: usize = 0;
            while x < l
                invariant
                    l == BOARD_LENGTH,
                    0 <= y < l,
                    0 <= x <= l,
                    forall|r: int, c: int|
                        0 <= r < l && 0 <= c < y ==> #[trigger] at(rotated_cells@, r, c) == at(
                            self.cells@,
                            c,
                            l - 1 - r,
                        ),
                    forall|r: int|
                        l - x <= r < l ==> #[trigger] at(rotated_cells@, r, y as int) == at(self.cells@, y as int, l - 1 - r),
                decreases l - x,
            {
                let new_x = y;
                let new_y = l - x - 1;
                assert(new_y * l + new_x == BOARD_LENGTH * new_y + new_x && y * l + x == BOARD_LENGTH * y + x) by (nonlinear_arith)
                    requires l == BOARD_LENGTH;
                let ghost prev = rotated_cells@;
                rotated_cells[new_y * l + new_x] = self.cells[y * l + x];
                proof {
                    lemma_at_update(prev, new_y as int, new_x as int, self.cells@[BOARD_LENGTH * y + x]);
                }
                x = x + 1;
            }
            y = y + 1;
        }
        let ghost before = *self;
        self.cells = rotated_cells;
        self.orientation = self.orientation.counter_clockwise();
        assert(self.grid() =~~= turned_grid_counter_clockwise(before.grid()));
        assert forall|p: Position| p.valid(BOARD_LENGTH as int) implies #[trigger] self.cell_at(p)
            == before.cell_at(p) by {
            let o = before.spec_orientation();
            let n = self.spec_orientation();
            let row = screen_row(p.x as int, p.y as int, l as int, o);
            let col = screen_col(p.x as int, p.y as int, l as int, o);
            let new_row = screen_row(p.x as int, p.y as int, l as int, n);
            let new_col = screen_col(p.x as int, p.y as int, l as int, n);
            assert(self.cell_at(p) == self.grid()[new_row][new_col]);
            assert(before.cell_at(p) == before.grid()[row][col]);
        }
    }
}

/// The number of full rows of `g`.
pub open spec fn full_count(g: Seq<Seq<Cell>>) -> int {
    g.len() - kept_rows(g).len()
}

/// The number of full rows of `g` below row `r`.
pub open spec fn full_rows_below(g: Seq<Seq<Cell>>, r: int) -> int {
    full_count(g.subrange(r + 1, g.len() as int))
}

/// Clearing rows leaves one free row on top for each full row, and moves
/// every row that is not full down by the number of full rows beneath it,
/// its content unchanged. Rows with no full row beneath them stay where they
/// are; rows above every full row sink by the number of full rows.
pub proof fn lemma_clearing_rows(g: Seq<Seq<Cell>>)
    ensures
        cleared(g).len() == g.len(),
        forall|r: int| 0 <= r < full_count(g) ==> #[trigger] cleared(g)[r] == free_row(),
        forall|r: int|
            0 <= r < g.len() && !row_full(g[r]) ==> 0 <= r + full_rows_below(g, r) < g.len()
                && cleared(g)[r + #[trigger] full_rows_below(g, r)] == g[r],
{
    broadcast use Seq::lemma_filter_len;

    assert forall|r: int| 0 <= r < g.len() && !row_full(g[r]) implies 0 <= r + full_rows_below(
        g,
        r,
    ) < g.len() && cleared(g)[r + #[trigger] full_rows_below(g, r)] == g[r] by {
        let above = g.subrange(0, r);
        let rest = g.subrange(r + 1, g.len() as int);
        assert(g =~= above + (seq![g[r]] + rest));
        Seq::filter_distributes_over_add(above, seq![g[r]] + rest, keeps_row());
        rest.lemma_filter_prepend(g[r], keeps_row());
        let kept = kept_rows(g);
        let j = kept_rows(above).len() as int;
        assert(kept =~= kept_rows(above) + (seq![g[r]] + kept_rows(rest)));
        assert(kept[j] == g[r]);
        assert(cleared(g)[full_count(g) + j] == kept[j]);
    }
}

/// Two sequences of board cells with the same rows are equal.
pub proof fn lemma_grid_determines_cells(a: Seq<Cell>, b: Seq<Cell>)
    requires
        a.len() == BOARD_CELLS,
        b.len() == BOARD_CELLS,
        grid_of(a) == grid_of(b),
    ensures
        a == b,
{
    let l = BOARD_LENGTH as int;
    assert forall|i: int| 0 <= i < BOARD_CELLS implies a[i] == b[i] by {
        lemma_fundamental_div_mod(i, l);
        lemma_mod_pos_bound(i, l);
        lemma_multiply_divide_lt(i, l, l);
        let r = i / l;
        let c = i % l;
        assert(0 <= r) by (nonlinear_arith)
            requires
                0 <= i,
                0 < l,
                r == i / l,
        ;
        assert(0 <= r < l && 0 <= c < l);
        assert(i == BOARD_LENGTH * r + c);
        assert(grid_of(a)[r][c] == a[i]);
        assert(grid_of(b)[r][c] == b[i]);
    }
    assert(a =~= b);
}

/// Four quarter turns clockwise of the whole board bring back its
/// orientation and every stored cell, whatever the cells hold.
pub proof fn lemma_four_clockwise_turns(b0: Board, b1: Board, b2: Board, b3: Board, b4: Board)
    requires
        b1.grid() == turned_grid_clockwise(b0.grid()),
        b1.spec_orientation() == b0.spec_orientation().spec_clockwise(),
        b2.grid() == turned_grid_clockwise(b1.grid()),
        b2.spec_orientation() == b1.spec_orientation().spec_clockwise(),
        b3.grid() == turned_grid_clockwise(b2.grid()),
        b3.spec_orientation() == b2.spec_orientation().spec_clockwise(),
        b4.grid() == turned_grid_clockwise(b3.grid()),
        b4.spec_orientation() == b3.spec_orientation().spec_clockwise(),
    ensures
        b4.stored() == b0.stored(),
        b4.spec_orientation() == b0.spec_orientation(),
{
    b0.lemma_stored_len();
    b4.lemma_stored_len();
    assert(b4.grid() =~~= b0.grid());
    lemma_grid_determines_cells(b4.stored(), b0.stored());
}

/// A quarter turn of the whole board clockwise and one counter-clockwise
/// undo each other.
pub proof fn lemma_turns_undo(b0: Board, b1: Board, b2: Board)
    requires
        b1.grid() == turned_grid_clockwise(b0.grid()),
        b1.spec_orientation() == b0.spec_orientation().spec_clockwise(),
        b2.grid() == turned_grid_counter_clockwise(b1.grid()),
        b2.spec_orientation() == b1.spec_orientation().spec_counter_clockwise(),
    ensures
        b2.stored() == b0.stored(),
        b2.spec_orientation() == b0.spec_orientation(),
{
    b0.lemma_stored_len();
    b2.lemma_stored_len();
    assert(b2.grid() =~~= b0.grid());
    lemma_grid_determines_cells(b2.stored(), b0.stored());
}

} // verus!
