use spin_tetris::board::{Board, BOARD_CELLS, BOARD_LENGTH};
use spin_tetris::cell::Cell;
use spin_tetris::orientation::Orientation;
use spin_tetris::position::Position;
use spin_tetris::stone::{Shape, Stone};

const L: usize = BOARD_LENGTH;

fn pattern() -> [Cell; BOARD_CELLS] {
    let colors = [Cell::Free, Cell::Blue, Cell::Purple, Cell::Orange, Cell::Green, Cell::Yellow];
    let mut cells = [Cell::Free; BOARD_CELLS];
    for i in 0..BOARD_CELLS {
        cells[i] = colors[(i * 7 + i / 3) % colors.len()];
    }
    cells
}

#[test]
fn new_board_is_empty_and_upright() {
    let b = Board::new();
    assert!(b.get_cells().iter().all(|c| *c == Cell::Free));
    assert_eq!(*b.get_orientation(), Orientation::Zero);
    assert!(b.is_cell_free(&Position::new(0, 0)));
}

#[test]
fn rotate_board_moves_cells_a_quarter() {
    let mut cells = [Cell::Free; BOARD_CELLS];
    // screen row 0, column 3
    cells[3] = Cell::Green;
    let mut b = Board::from_cells(cells, Orientation::Zero);
    b.rotate_clockwise();
    assert_eq!(*b.get_orientation(), Orientation::Ninety);
    // row 0 becomes the last column; column 3 becomes row 3
    assert_eq!(b.get_cells()[3 * L + (L - 1)], Cell::Green);
    assert_eq!(b.get_cells().iter().filter(|c| **c != Cell::Free).count(), 1);
    // the logical position keeps its cell
    assert!(!b.is_cell_free(&Position::new(3, 0)));
    b.rotate_counter_clockwise();
    assert_eq!(*b.get_orientation(), Orientation::Zero);
    assert_eq!(b.get_cells()[3], Cell::Green);
}

#[test]
fn four_board_rotations_restore() {
    let cells = pattern();
    let mut b = Board::from_cells(cells, Orientation::OneEighty);
    b.rotate_clockwise();
    assert_ne!(b.get_cells(), cells);
    b.rotate_clockwise();
    b.rotate_clockwise();
    b.rotate_clockwise();
    assert_eq!(b.get_cells(), cells);
    assert_eq!(*b.get_orientation(), Orientation::OneEighty);
}

#[test]
fn clockwise_then_counter_clockwise_restores() {
    let cells = pattern();
    let mut b = Board::from_cells(cells, Orientation::TwoSeventy);
    b.rotate_clockwise();
    assert_eq!(*b.get_orientation(), Orientation::Zero);
    b.rotate_counter_clockwise();
    assert_eq!(b.get_cells(), cells);
    assert_eq!(*b.get_orientation(), Orientation::TwoSeventy);
}

#[test]
fn board_rotation_keeps_logical_cells() {
    let cells = pattern();
    let mut b = Board::from_cells(cells, Orientation::Zero);
    let before: Vec<bool> = (0..L as i32)
        .flat_map(|x| (0..L as i32).map(move |y| (x, y)))
        .map(|(x, y)| b.is_cell_free(&Position::new(x, y)))
        .collect();
    b.rotate_clockwise();
    let after: Vec<bool> = (0..L as i32)
        .flat_map(|x| (0..L as i32).map(move |y| (x, y)))
        .map(|(x, y)| b.is_cell_free(&Position::new(x, y)))
        .collect();
    assert_eq!(before, after);
}

fn fill_row(cells: &mut [Cell; BOARD_CELLS], row: usize, color: Cell) {
    for x in 0..L {
        cells[row * L + x] = color;
    }
}

#[test]
fn clearing_two_separated_full_rows() {
    // The bottom four rows: row 26 partial, 27 full, 28 partial, 29 full.
    let mut cells = [Cell::Free; BOARD_CELLS];
    cells[26 * L + 0] = Cell::Blue;
    cells[26 * L + 5] = Cell::Green;
    fill_row(&mut cells, 27, Cell::Orange);
    cells[28 * L + 1] = Cell::Purple;
    cells[28 * L + 29] = Cell::Yellow;
    fill_row(&mut cells, 29, Cell::Blue);
    let mut b = Board::from_cells(cells, Orientation::Zero);
    b.maybe_delete_rows();
    let out = b.get_cells();
    // the two partial rows keep their order and content at the bottom
    assert_eq!(out[29 * L + 1], Cell::Purple);
    assert_eq!(out[29 * L + 29], Cell::Yellow);
    assert_eq!(out[28 * L + 0], Cell::Blue);
    assert_eq!(out[28 * L + 5], Cell::Green);
    let occupied = out.iter().filter(|c| **c != Cell::Free).count();
    assert_eq!(occupied, 4);
    // everything above is free
    assert!(out[..28 * L].iter().all(|c| *c == Cell::Free));
}

#[test]
fn clearing_keeps_rows_below_the_lowest_full_row() {
    let mut cells = [Cell::Free; BOARD_CELLS];
    cells[3 * L + 2] = Cell::Green;
    fill_row(&mut cells, 10, Cell::Orange);
    fill_row(&mut cells, 12, Cell::Orange);
    cells[20 * L + 7] = Cell::Yellow;
    let mut b = Board::from_cells(cells, Orientation::Zero);
    b.maybe_delete_rows();
    let out = b.get_cells();
    assert_eq!(out[20 * L + 7], Cell::Yellow);
    // above every full row: down by the number of full rows
    assert_eq!(out[5 * L + 2], Cell::Green);
    assert_eq!(out.iter().filter(|c| **c != Cell::Free).count(), 2);
}

#[test]
fn clearing_without_full_rows_changes_nothing() {
    let mut cells = pattern();
    cells[0] = Cell::Free;
    for row in 0..L {
        cells[row * L + row] = Cell::Free;
    }
    let mut b = Board::from_cells(cells, Orientation::Ninety);
    b.maybe_delete_rows();
    assert_eq!(b.get_cells(), cells);
    assert_eq!(*b.get_orientation(), Orientation::Ninety);
}

#[test]
fn clearing_a_full_board_empties_it() {
    let cells = [Cell::Purple; BOARD_CELLS];
    let mut b = Board::from_cells(cells, Orientation::Zero);
    b.maybe_delete_rows();
    assert!(b.get_cells().iter().all(|c| *c == Cell::Free));
}

#[test]
fn add_writes_the_stone_colour() {
    let mut b = Board::new();
    let stone = Stone::spawn(Shape::O);
    b.add(&stone);
    let cells = b.get_cells();
    for p in stone.positions().iter() {
        assert_eq!(cells[p.get_index(L, &Orientation::Zero)], Cell::Orange);
        assert!(!b.is_cell_free(p));
    }
    assert_eq!(cells.iter().filter(|c| **c != Cell::Free).count(), 4);
}

#[test]
fn add_under_a_turned_board_uses_the_mapping() {
    let mut b = Board::new();
    b.rotate_clockwise();
    let stone = Stone::spawn(Shape::I);
    b.add(&stone);
    let cells = b.get_cells();
    for p in stone.positions().iter() {
        assert_eq!(cells[p.get_index(L, &Orientation::Ninety)], Cell::Blue);
    }
    // the vertical piece lies along a screen row once the board is turned
    let row = 15;
    for col in [L - 1 - 13, L - 1 - 14, L - 1 - 15, L - 1 - 16] {
        assert_eq!(cells[row * L + col], Cell::Blue);
    }
}

#[test]
fn cells_with_leaves_the_board() {
    let b = Board::new();
    let stone = Stone::spawn(Shape::Z);
    let drawn = b.cells_with(&stone);
    assert_eq!(drawn.iter().filter(|c| **c == Cell::Yellow).count(), 4);
    assert!(b.get_cells().iter().all(|c| *c == Cell::Free));
}

#[test]
fn blocked_at_the_floor_and_on_cells() {
    let b = Board::new();
    let mut stone = Stone::spawn(Shape::I);
    assert!(!b.is_blocked_below(&stone));
    for _ in 0..13 {
        stone.fall(b.get_orientation());
    }
    assert_eq!(stone.positions()[3], Position::new(15, 29));
    assert!(b.is_blocked_below(&stone));

    let mut cells = [Cell::Free; BOARD_CELLS];
    cells[17 * L + 15] = Cell::Green;
    let occupied = Board::from_cells(cells, Orientation::Zero);
    assert!(occupied.is_blocked_below(&Stone::spawn(Shape::I)));
}
