//! Rule engine of a falling-block puzzle on a square board whose orientation
//! can itself be turned by quarter turns.

pub mod board;
pub mod cell;
pub mod cutout;
pub mod orientation;
pub mod position;
pub mod stone;

use vstd::prelude::*;

use crate::board::{cleared, grid_of, painted, Board, BOARD_CELLS, BOARD_LENGTH};
use crate::cell::Cell;
use crate::orientation::Orientation;
use crate::position::{lemma_fall_leaves_board, Position};
use crate::stone::{lowered, Shape, Stone};

verus! {

/// One falling piece over a board of settled cells.
pub struct Game {
    falling_stone: Option<Stone>,
    board: Board,
    over: bool,
}

/// Whether every cell of `stone` is free on `board`.
pub open spec fn fits(board: Board, stone: Stone) -> bool {
    forall|i: int| 0 <= i < 4 ==> board.free_at(#[trigger] stone.cells()[i])
}

/// `after` is `before` once `stone`, if any, has settled and the full rows
/// are cleared.
pub open spec fn settled(before: Board, after: Board, stone: Option<Stone>) -> bool {
    let stored = match stone {
        Some(s) => painted(before.stored(), s, before.spec_orientation()),
        None => before.stored(),
    };
    &&& after.grid() == cleared(grid_of(stored))
    &&& after.spec_orientation() == before.spec_orientation()
}

impl Game {
    pub closed spec fn falling(self) -> Option<Stone> {
        self.falling_stone
    }

    pub closed spec fn spec_board(self) -> Board {
        self.board
    }

    /// Whether a piece could not be placed and the game has ended.
    pub closed spec fn is_over(self) -> bool {
        self.over
    }

    /// A falling piece is well formed and overlaps no settled cell.
    pub open spec fn wf(self) -> bool {
        match self.falling() {
            Some(s) => s.wf() && fits(self.spec_board(), s),
            None => true,
        }
    }

    /// What a tick does from `before` to `after`, returning `r`, where `next`
    /// is the shape placed if a new piece is due.
    pub open spec fn ticked(before: Game, after: Game, next: Shape, r: bool) -> bool {
        if before.is_over() {
            !r && after == before
        } else if before.falling() is Some && !before.spec_board().blocked_below(
            before.falling()->0,
        ) {
            &&& r
            &&& !after.is_over()
            &&& after.spec_board() == before.spec_board()
            &&& after.falling() is Some
            &&& after.falling()->0.is_fall_of(
                before.falling()->0,
                before.spec_board().spec_orientation(),
            )
        } else {
            &&& settled(before.spec_board(), after.spec_board(), before.falling())
            &&& r == (forall|i: int|
                0 <= i < 4 ==> after.spec_board().free_at(
                    #[trigger] Stone::spawn_cells(next)[i],
                ))
            &&& r ==> !after.is_over() && after.falling() is Some
                && after.falling()->0.spawned_as(next)
            &&& !r ==> after.is_over() && after.falling() is None
        }
    }

    /// An empty upright board, with no piece yet: the first tick places one.
    pub fn new() -> (r: Game)
        ensures
            r.wf(),
            r.falling() is None,
            !r.is_over(),
            r.spec_board().spec_orientation() == Orientation::Zero,
            forall|i: int| 0 <= i < BOARD_CELLS ==> #[trigger] r.spec_board().stored()[i] == Cell::Free,
    {
        Game { board: Board::new(), falling_stone: None, over: false }
    }

    /// The falling piece of `before` has fallen `n` steps to the first
    /// place where it is blocked, in `after`.
    pub open spec fn dropped(before: Game, after: Game, n: nat) -> bool {
        let o = before.spec_board().spec_orientation();
        let from = before.falling()->0;
        &&& after.falling() is Some
        &&& after.falling()->0.is_lowering_of(from, o, n)
        &&& before.spec_board().blocked_below(after.falling()->0)
        &&& forall|m: nat| m < n ==> !before.spec_board().blocks(#[trigger] lowered(from.cells(), o, m))
    }

    /// Lets the falling piece, if any, fall until it is blocked, at once.
    pub fn drop_stone(&mut self)
        requires
            old(self).wf(),
        ensures
            final(self).wf(),
            final(self).spec_board() == old(self).spec_board(),
            final(self).is_over() == old(self).is_over(),
            old(self).falling() is None ==> *final(self) == *old(self),
            old(self).falling() is Some ==> exists|n: nat| #[trigger]
                Game::dropped(*old(self), *final(self), n),
    {
        match self.falling_stone {
            None => {},
            Some(start) => {
                let ghost o = self.board.spec_orientation();
                let mut stone = start;
                let ghost mut n: nat = 0;
                assert(stone.is_lowering_of(start, o, 0));
                while !self.board.is_blocked_below(&stone)
                    invariant
                        o == self.board.spec_orientation(),
                        start.wf(),
                        stone.wf(),
                        fits(self.board, stone),
                        stone.is_lowering_of(start, o, n),
                        forall|m: nat|
                            m < n ==> !self.board.blocks(#[trigger] lowered(start.cells(), o, m)),
                    decreases stone.cells()[0].fall_distance(BOARD_LENGTH as int, o),
                {
                    proof {
                        assert(lowered(start.cells(), o, n) =~= stone.cells());
                        lemma_fall_leaves_board(stone.cells()[0], BOARD_LENGTH as int, o);
                    }
                    let ghost before = stone;
                    stone.fall(self.board.get_orientation());
                    proof {
                        assert forall|i: int| 0 <= i < 4 implies #[trigger] stone.cells()[i]
                            == start.cells()[i].fallen(o, n + 1) by {
                            assert(stone.cells()[i] == before.cells()[i].under(o));
                        }
                        assert(stone.pivot() == start.pivot().fallen(o, n + 1));
                        n = n + 1;
                    }
                }
                self.falling_stone = Some(stone);
                assert(Game::dropped(*old(self), *self, n));
            },
        }
    }

    /// Cells as the player sees them: the settled cells with the falling
    /// piece drawn in, row by row as on screen.
    pub fn snapshot(&self) -> (r: [Cell; BOARD_CELLS])
        requires
            self.wf(),
        ensures
            r@ == match self.falling() {
                Some(s) => painted(self.spec_board().stored(), s, self.spec_board().spec_orientation()),
                None => self.spec_board().stored(),
            },
    {
        match self.falling_stone {
            None => self.board.get_cells(),
            Some(stone) => self.board.cells_with(&stone),
        }
    }

    /// The side of the board.
    pub fn length(&self) -> (r: usize)
        ensures
            r == BOARD_LENGTH,
    {
        BOARD_LENGTH
    }

    /// Turns the whole board a quarter counter-clockwise; always succeeds.
    pub fn rotate_counter_clockwise(&mut self)
        requires
            old(self).wf(),
        ensures
            final(self).wf(),
            final(self).falling() == old(self).falling(),
            final(self).is_over() == old(self).is_over(),
            final(self).spec_board().grid() == crate::board::turned_grid_counter_clockwise(
                old(self).spec_board().grid(),
            ),
            final(self).spec_board().spec_orientation() == old(
                self,
            ).spec_board().spec_orientation().spec_counter_clockwise(),
    {
        self.board.rotate_counter_clockwise();
        proof {
            self.lemma_stone_keeps_fitting(*old(self));
        }
    }

    /// Turns the whole board a quarter clockwise; always succeeds.
    pub fn rotate_clockwise(&mut self)
        requires
            old(self).wf(),
        ensures
            final(self).wf(),
            final(self).falling() == old(self).falling(),
            final(self).is_over() == old(self).is_over(),
            final(self).spec_board().grid() == crate::board::turned_grid_clockwise(
                old(self).spec_board().grid(),
            ),
            final(self).spec_board().spec_orientation() == old(
                self,
            ).spec_board().spec_orientation().spec_clockwise(),
    {
        self.board.rotate_clockwise();
        proof {
            self.lemma_stone_keeps_fitting(*old(self));
        }
    }

    /// A board that holds the same cell at every logical position keeps the
    /// falling piece free.
    proof fn lemma_stone_keeps_fitting(self, before: Game)
        requires
            before.wf(),
            self.falling() == before.falling(),
            forall|p: Position|
                p.valid(BOARD_LENGTH as int) ==> #[trigger] self.spec_board().cell_at(p)
                    == before.spec_board().cell_at(p),
        ensures
            self.wf(),
    {
        if let Some(s) = self.falling() {
            assert forall|i: int| 0 <= i < 4 implies self.spec_board().free_at(
                #[trigger] s.cells()[i],
            ) by {
                assert(before.spec_board().free_at(s.cells()[i]));
            }
        }
    }

    /// Turns the falling piece a quarter clockwise, unless there is none or
    /// the turn is blocked.
    pub fn rotate_stone_clockwise(&mut self) -> (r: bool)
        requires
            old(self).wf(),
        ensures
            final(self).wf(),
            r == (old(self).falling() is Some && old(self).falling()->0.can_turn_clockwise(
                old(self).spec_board(),
            )),
            r ==> final(self).falling() is Some && final(self).falling()->0.is_clockwise_turn_of(
                old(self).falling()->0,
            ) && final(self).spec_board() == old(self).spec_board() && final(self).is_over()
                == old(self).is_over(),
            !r ==> *final(self) == *old(self),
    {
        match self.falling_stone {
            None => false,
            Some(stone) => {
                let mut stone = stone;
                let r = stone.rotate_clockwise_unless_blocked(&self.board);
                self.falling_stone = Some(stone);
                r
            },
        }
    }

    /// Turns the falling piece a quarter counter-clockwise, unless there is
    /// none or the turn is blocked.
    pub fn rotate_stone_counter_clockwise(&mut self) -> (r: bool)
        requires
            old(self).wf(),
        ensures
            final(self).wf(),
            r == (old(self).falling() is Some
                && old(self).falling()->0.can_turn_counter_clockwise(old(self).spec_board())),
            r ==> final(self).falling() is Some
                && final(self).falling()->0.is_counter_clockwise_turn_of(old(self).falling()->0)
                && final(self).spec_board() == old(self).spec_board() && final(self).is_over()
                == old(self).is_over(),
            !r ==> *final(self) == *old(self),
    {
        match self.falling_stone {
            None => false,
            Some(stone) => {
                let mut stone = stone;
                let r = stone.rotate_counter_clockwise_unless_blocked(&self.board);
                self.falling_stone = Some(stone);
                r
            },
        }
    }

    /// Moves the falling piece one step to the player's left, unless there
    /// is none or the cells there are off the board or occupied.
    pub fn move_stone_left(&mut self) -> (r: bool)
        requires
            old(self).wf(),
        ensures
            final(self).wf(),
            ({
                let o = old(self).spec_board().spec_orientation();
                &&& r == (old(self).falling() is Some && old(self).falling()->0.can_shift(
                    old(self).spec_board(),
                    o.left().0,
                    o.left().1,
                ))
                &&& r ==> final(self).falling() is Some && final(self).falling()->0.is_shift_of(
                    old(self).falling()->0,
                    o.left().0,
                    o.left().1,
                ) && final(self).spec_board() == old(self).spec_board() && final(self).is_over()
                    == old(self).is_over()
            }),
            !r ==> *final(self) == *old(self),
    {
        match self.falling_stone {
            None => false,
            Some(stone) => {
                let mut stone = stone;
                let r = stone.move_left_unless_blocked(&self.board);
                self.falling_stone = Some(stone);
                r
            },
        }
    }

    /// Moves the falling piece one step to the player's right, unless there
    /// is none or the cells there are off the board or occupied.
    pub fn move_stone_right(&mut self) -> (r: bool)
        requires
            old(self).wf(),
        ensures
            final(self).wf(),
            ({
                let o = old(self).spec_board().spec_orientation();
                &&& r == (old(self).falling() is Some && old(self).falling()->0.can_shift(
                    old(self).spec_board(),
                    o.right().0,
                    o.right().1,
                ))
                &&& r ==> final(self).falling() is Some && final(self).falling()->0.is_shift_of(
                    old(self).falling()->0,
                    o.right().0,
                    o.right().1,
                ) && final(self).spec_board() == old(self).spec_board() && final(self).is_over()
                    == old(self).is_over()
            }),
            !r ==> *final(self) == *old(self),
    {
        match self.falling_stone {
            None => false,
            Some(stone) => {
                let mut stone = stone;
                let r = stone.move_right_unless_blocked(&self.board);
                self.falling_stone = Some(stone);
                r
            },
        }
    }

    /// Places `stone` as the falling piece if all its cells are free; if not,
    /// the game is over. The board is left as it is either way.
    fn add_stone(&mut self, stone: Stone) -> (r: bool)
        requires
            stone.wf(),
            old(self).falling() is None,
        ensures
            final(self).wf(),
            final(self).spec_board() == old(self).spec_board(),
            r == fits(old(self).spec_board(), stone),
            r ==> final(self).falling() == Some(stone) && !final(self).is_over(),
            !r ==> final(self).falling() is None && final(self).is_over(),
    {
        let ghost before = *self;
        let positions = stone.positions();
        let mut k: usize = 0;
        while k < 4
            invariant
                0 <= k <= 4,
                *self == before,
                before == *old(self),
                before.falling() is None,
                stone.wf(),
                positions@ == stone.cells(),
                forall|i: int| 0 <= i < k ==> self.board.free_at(#[trigger] stone.cells()[i]),
            decreases 4 - k,
        {
            if !self.board.is_cell_free(&positions[k]) {
                assert(!self.board.free_at(stone.cells()[k as int]));
                self.over = true;
                return false;
            }
            k = k + 1;
        }
        self.falling_stone = Some(stone);
        self.over = false;
        true
    }

    /// Moves the falling piece one step down, unless there is none or it is
    /// blocked.
    fn stone_falls(&mut self) -> (r: bool)
        requires
            old(self).wf(),
        ensures
            final(self).wf(),
            final(self).spec_board() == old(self).spec_board(),
            final(self).is_over() == old(self).is_over(),
            r == (old(self).falling() is Some && !old(self).spec_board().blocked_below(
                old(self).falling()->0,
            )),
            r ==> final(self).falling() is Some && final(self).falling()->0.is_fall_of(
                old(self).falling()->0,
                old(self).spec_board().spec_orientation(),
            ),
            !r ==> *final(self) == *old(self),
    {
        match self.falling_stone {
            None => false,
            Some(stone) => {
                if self.board.is_blocked_below(&stone) {
                    return false;
                }
                let mut stone = stone;
                stone.fall(self.board.get_orientation());
                self.falling_stone = Some(stone);
                true
            },
        }
    }

    /// Settles the falling piece, if any, and clears full rows.
    fn settle(&mut self)
        requires
            old(self).wf(),
        ensures
            final(self).wf(),
            final(self).falling() is None,
            final(self).is_over() == old(self).is_over(),
            settled(old(self).spec_board(), final(self).spec_board(), old(self).falling()),
    {
        match self.falling_stone {
            None => {},
            Some(stone) => {
                self.board.add(&stone);
            },
        }
        self.falling_stone = None;
        self.board.maybe_delete_rows();
    }

    /// Advances the game by one tick, placing a piece of shape `next` if one
    /// is due. Returns false once the game is over.
    pub fn tick_with(&mut self, next: Shape) -> (r: bool)
        requires
            old(self).wf(),
        ensures
            final(self).wf(),
            Game::ticked(*old(self), *final(self), next, r),
    {
        if self.over {
            return false;
        }
        if self.stone_falls() {
            return true;
        }
        self.settle();
        self.add_stone(Stone::spawn(next))
    }

    /// Advances the game by one tick: the falling piece moves down; if it
    /// cannot, it settles, full rows are cleared and a piece of a shape drawn
    /// at random is placed. Returns false once the game is over.
    pub fn tick(&mut self) -> (r: bool)
        requires
            old(self).wf(),
        ensures
            final(self).wf(),
            exists|next: Shape| Game::ticked(*old(self), *final(self), next, r),
    {
        if self.over {
            proof {
                assert(Game::ticked(*old(self), *self, Shape::I, false));
            }
            return false;
        }
        if self.stone_falls() {
            proof {
                assert(Game::ticked(*old(self), *self, Shape::I, true));
            }
            return true;
        }
        self.settle();
        let stone = Stone::new();
        let ghost next = choose|s: Shape| stone.spawned_as(s);
        let r = self.add_stone(stone);
        assert(Game::ticked(*old(self), *self, next, r));
        r
    }
}

/// When a new piece is due and one of its cells is taken once the previous
/// piece has settled, the tick fails and ends the game, and the settled cells
/// are not written over.
pub proof fn lemma_blocked_spawn_fails(before: Game, after: Game, next: Shape, r: bool, i: int)
    requires
        Game::ticked(before, after, next, r),
        !before.is_over(),
        before.falling() is None || before.spec_board().blocked_below(before.falling()->0),
        0 <= i < 4,
        !after.spec_board().free_at(Stone::spawn_cells(next)[i]),
    ensures
        !r,
        after.is_over(),
        after.falling() is None,
        settled(before.spec_board(), after.spec_board(), before.falling()),
{
}

} // verus!
