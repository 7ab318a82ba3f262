use spin_tetris::cutout::Cutout;
use spin_tetris::orientation::Orientation;
use spin_tetris::position::Position;

const ALL: [Orientation; 4] = [
    Orientation::Zero,
    Orientation::Ninety,
    Orientation::OneEighty,
    Orientation::TwoSeventy,
];

#[test]
fn index_formula_per_orientation() {
    let p = Position::new(1, 2);
    assert_eq!(p.get_index(4, &Orientation::Zero), 4 * 2 + 1);
    assert_eq!(p.get_index(4, &Orientation::Ninety), 4 * 1 + (4 - 2 - 1));
    assert_eq!(p.get_index(4, &Orientation::OneEighty), 4 * (4 - 2 - 1) + (4 - 1 - 1));
    assert_eq!(p.get_index(4, &Orientation::TwoSeventy), 4 * (4 - 1 - 1) + 2);
}

#[test]
fn index_is_a_bijection_for_every_orientation() {
    for l in [1usize, 4, 30] {
        for o in ALL.iter() {
            let mut seen = vec![false; l * l];
            for x in 0..l as i32 {
                for y in 0..l as i32 {
                    let i = Position::new(x, y).get_index(l, o);
                    assert!(i < l * l);
                    assert!(!seen[i], "index {} reached twice", i);
                    seen[i] = true;
                }
            }
            assert!(seen.iter().all(|s| *s));
        }
    }
}

#[test]
fn under_follows_orientation() {
    let p = Position::new(5, 7);
    assert_eq!(p.get_under(&Orientation::Zero), Position::new(5, 8));
    assert_eq!(p.get_under(&Orientation::Ninety), Position::new(6, 7));
    assert_eq!(p.get_under(&Orientation::OneEighty), Position::new(5, 6));
    assert_eq!(p.get_under(&Orientation::TwoSeventy), Position::new(4, 7));
}

#[test]
fn falling_reaches_the_edge_after_its_distance() {
    let l = 30usize;
    for o in ALL.iter() {
        for start in [Position::new(0, 0), Position::new(29, 29), Position::new(3, 17)] {
            let row = start.get_index(l, o) / l;
            let mut p = start;
            let mut steps = 0;
            while p.is_valid(l as i32) {
                assert_eq!(p.get_index(l, o) / l, row + steps);
                p = p.get_under(o);
                steps += 1;
            }
            assert_eq!(steps, l - row);
        }
    }
}

#[test]
fn move_to_adds_offsets() {
    assert_eq!(Position::new(3, 4).move_to(-2, 5), Position::new(1, 9));
}

#[test]
fn validity_bounds() {
    assert!(Position::new(0, 0).is_valid(30));
    assert!(Position::new(29, 29).is_valid(30));
    assert!(!Position::new(30, 0).is_valid(30));
    assert!(!Position::new(0, 30).is_valid(30));
    assert!(!Position::new(-1, 5).is_valid(30));
    assert!(!Position::new(5, -1).is_valid(30));
}

#[test]
fn cutout_corner_is_half_size_away() {
    let c = Cutout::new(Position::new(10, 10), 4);
    assert_eq!(c.get_top_left(), Position::new(8, 8));
    assert_eq!(c.size(), 4);
    let odd = Cutout::new(Position::new(10, 10), 5);
    assert_eq!(odd.get_top_left(), Position::new(8, 8));
    let negative = Cutout::new(Position::new(10, 10), -5);
    assert_eq!(negative.get_top_left(), Position::new(12, 12));
}

#[test]
fn cutout_validity_is_its_corner() {
    assert!(Cutout::new(Position::new(2, 2), 4).is_valid(30));
    assert!(!Cutout::new(Position::new(1, 5), 4).is_valid(30));
    assert!(!Cutout::new(Position::new(5, 1), 4).is_valid(30));
}

#[test]
fn local_rotation_exact_values() {
    let c = Cutout::new(Position::new(2, 2), 4);
    // top-right corner of the frame goes to the bottom-right corner
    assert_eq!(Position::new(3, 0).rotate_clockwise(c), Position::new(3, 3));
    assert_eq!(Position::new(3, 3).rotate_counter_clockwise(c), Position::new(3, 0));
    assert_eq!(Position::new(1, 2).rotate_clockwise(c), Position::new(1, 1));
}

#[test]
fn four_local_rotations_are_identity() {
    let c = Cutout::new(Position::new(12, 7), 4);
    for x in 10..14 {
        for y in 5..9 {
            let p = Position::new(x, y);
            let q = p
                .rotate_clockwise(c)
                .rotate_clockwise(c)
                .rotate_clockwise(c)
                .rotate_clockwise(c);
            assert_eq!(q, p);
            assert_eq!(p.rotate_clockwise(c).rotate_counter_clockwise(c), p);
            assert_ne!(p.rotate_clockwise(c).rotate_clockwise(c), p);
        }
    }
}

#[test]
fn orientation_cycles() {
    for o in ALL.iter() {
        assert_eq!(o.clockwise().counter_clockwise(), *o);
        assert_eq!(o.clockwise().clockwise().clockwise().clockwise(), *o);
        assert_ne!(o.clockwise(), *o);
    }
    assert_eq!(Orientation::Zero.clockwise(), Orientation::Ninety);
    assert_eq!(Orientation::Zero.counter_clockwise(), Orientation::TwoSeventy);
}

#[test]
fn lateral_steps_per_orientation() {
    assert_eq!(Orientation::Zero.left_step(), (-1, 0));
    assert_eq!(Orientation::Zero.right_step(), (1, 0));
    assert_eq!(Orientation::Ninety.left_step(), (0, 1));
    assert_eq!(Orientation::OneEighty.left_step(), (1, 0));
    assert_eq!(Orientation::TwoSeventy.right_step(), (0, 1));
}
