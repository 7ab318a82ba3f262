use spin_tetris::board::{BOARD_CELLS, BOARD_LENGTH};
use spin_tetris::cell::Cell;
use spin_tetris::stone::Shape;
use spin_tetris::Game;

const L: usize = BOARD_LENGTH;

fn colored(cells: &[Cell; BOARD_CELLS], color: Cell) -> Vec<(usize, usize)> {
    (0..BOARD_CELLS)
        .filter(|i| cells[*i] == color)
        .map(|i| (i % L, i / L))
        .collect()
}

#[test]
fn first_tick_spawns_a_piece() {
    let mut game = Game::new();
    assert_eq!(game.length(), 30);
    assert!(game.snapshot().iter().all(|c| *c == Cell::Free));
    assert!(game.tick_with(Shape::I));
    assert_eq!(colored(&game.snapshot(), Cell::Blue), vec![(15, 13), (15, 14), (15, 15), (15, 16)]);
}

#[test]
fn end_to_end_fall_and_settle() {
    let mut game = Game::new();
    assert!(game.tick_with(Shape::I));
    let n = 5;
    for _ in 0..n {
        assert!(game.tick_with(Shape::O));
    }
    assert_eq!(
        colored(&game.snapshot(), Cell::Blue),
        vec![(15, 13 + n), (15, 14 + n), (15, 15 + n), (15, 16 + n)]
    );
    // the bottom cell reaches the floor after 13 falls in all
    for _ in n..13 {
        assert!(game.tick_with(Shape::O));
    }
    assert_eq!(colored(&game.snapshot(), Cell::Blue), vec![(15, 26), (15, 27), (15, 28), (15, 29)]);
    // blocked: it settles and the next piece appears
    assert!(game.tick_with(Shape::O));
    let snapshot = game.snapshot();
    assert_eq!(colored(&snapshot, Cell::Blue), vec![(15, 26), (15, 27), (15, 28), (15, 29)]);
    assert_eq!(colored(&snapshot, Cell::Orange), vec![(14, 14), (15, 14), (14, 15), (15, 15)]);
}

#[test]
fn hard_drop_lands_at_once() {
    let mut game = Game::new();
    assert!(game.tick_with(Shape::Z));
    game.drop_stone();
    assert_eq!(colored(&game.snapshot(), Cell::Yellow), vec![(14, 28), (15, 28), (15, 29), (16, 29)]);
    // dropping again changes nothing
    game.drop_stone();
    assert_eq!(colored(&game.snapshot(), Cell::Yellow), vec![(14, 28), (15, 28), (15, 29), (16, 29)]);
}

#[test]
fn drop_without_a_piece_does_nothing() {
    let mut game = Game::new();
    game.drop_stone();
    assert!(game.snapshot().iter().all(|c| *c == Cell::Free));
}

#[test]
fn occupied_spawn_ends_the_game() {
    let mut game = Game::new();
    // stack vertical I pieces in column 15 until the stack reaches the spawn cells
    for _ in 0..4 {
        assert!(game.tick_with(Shape::I));
        game.drop_stone();
    }
    let before = game.snapshot();
    assert_eq!(colored(&before, Cell::Blue).len(), 16);
    assert!(!game.tick_with(Shape::I));
    let after = game.snapshot();
    // nothing was written over, and no piece is falling
    assert_eq!(after, before);
    assert!(!game.tick_with(Shape::O));
    assert!(!game.tick());
    assert!(!game.move_stone_left());
    assert!(!game.rotate_stone_clockwise());
    assert_eq!(game.snapshot(), before);
}

#[test]
fn full_row_clears_when_the_piece_settles() {
    let mut game = Game::new();
    // fill the bottom row with lying I pieces: 7 pieces of 4 cells cover columns 1..=28
    for k in 0..7 {
        assert!(game.tick_with(Shape::I));
        assert!(game.rotate_stone_clockwise());
        // lying piece at x = 13..=16
        let target_left = 1 + 4 * k;
        for _ in target_left..13 {
            assert!(game.move_stone_left());
        }
        for _ in 13..target_left {
            assert!(game.move_stone_right());
        }
        game.drop_stone();
    }
    // two vertical pieces in the corners complete the bottom row
    assert!(game.tick_with(Shape::I));
    while game.move_stone_left() {}
    game.drop_stone();
    assert!(game.tick_with(Shape::I));
    while game.move_stone_right() {}
    game.drop_stone();
    let before = game.snapshot();
    assert!(before[29 * L..].iter().all(|c| *c != Cell::Free));
    assert!(game.tick_with(Shape::O));
    let after = game.snapshot();
    // the bottom row is gone; the corner columns sank by one
    assert_eq!(colored(&after, Cell::Blue), vec![(0, 27), (29, 27), (0, 28), (29, 28), (0, 29), (29, 29)]);
}

#[test]
fn board_rotation_keeps_the_falling_piece() {
    let mut game = Game::new();
    assert!(game.tick_with(Shape::I));
    game.rotate_clockwise();
    // under a quarter turn the vertical piece lies along screen row 15
    assert_eq!(colored(&game.snapshot(), Cell::Blue), vec![(13, 15), (14, 15), (15, 15), (16, 15)]);
    // it now falls along +x, which is down the screen
    assert!(game.tick_with(Shape::O));
    assert_eq!(colored(&game.snapshot(), Cell::Blue), vec![(13, 16), (14, 16), (15, 16), (16, 16)]);
    game.rotate_counter_clockwise();
    assert_eq!(colored(&game.snapshot(), Cell::Blue), vec![(16, 13), (16, 14), (16, 15), (16, 16)]);
}

#[test]
fn stone_commands_need_a_piece() {
    let mut game = Game::new();
    assert!(!game.rotate_stone_clockwise());
    assert!(!game.rotate_stone_counter_clockwise());
    assert!(!game.move_stone_left());
    assert!(!game.move_stone_right());
}

#[test]
fn random_tick_spawns_some_piece() {
    let mut game = Game::new();
    assert!(game.tick());
    let occupied = game.snapshot().iter().filter(|c| **c != Cell::Free).count();
    assert_eq!(occupied, 4);
    assert!(game.tick());
}
