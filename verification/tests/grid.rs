use snake::{Direction, Position, ARENA_SIZE};

const DIRECTIONS: [Direction; 4] =
    [Direction::Up, Direction::Right, Direction::Down, Direction::Left];

#[test]
fn arena_has_twenty_five_cells_a_side() {
    assert_eq!(ARENA_SIZE, 25);
}

#[test]
fn step_moves_one_cell_along_the_heading() {
    let p = Position { x: 12, y: 12 };
    assert_eq!(p.do_move(Direction::Up), Position { x: 12, y: 13 });
    assert_eq!(p.do_move(Direction::Right), Position { x: 13, y: 12 });
    assert_eq!(p.do_move(Direction::Down), Position { x: 12, y: 11 });
    assert_eq!(p.do_move(Direction::Left), Position { x: 11, y: 12 });
}

#[test]
fn step_left_from_first_column_wraps_to_last() {
    let head = Position { x: 0, y: 12 };
    assert_eq!(head.do_move(Direction::Left), Position { x: 24, y: 12 });
}

#[test]
fn step_right_from_last_column_wraps_to_first() {
    let p = Position { x: 24, y: 5 };
    assert_eq!(p.do_move(Direction::Right), Position { x: 0, y: 5 });
}

#[test]
fn step_wraps_on_the_vertical_axis() {
    assert_eq!(Position { x: 3, y: 24 }.do_move(Direction::Up), Position { x: 3, y: 0 });
    assert_eq!(Position { x: 3, y: 0 }.do_move(Direction::Down), Position { x: 3, y: 24 });
}

#[test]
fn step_stays_in_the_arena_from_every_cell() {
    for x in 0..ARENA_SIZE as i32 {
        for y in 0..ARENA_SIZE as i32 {
            let p = Position { x, y };
            assert!(p.is_in_arena());
            for d in DIRECTIONS {
                let q = p.do_move(d);
                assert!(q.is_in_arena(), "{:?} {:?} -> {:?}", p, d, q);
                assert_ne!(p, q);
            }
        }
    }
}

#[test]
fn step_there_and_back_returns_to_the_start() {
    for x in 0..ARENA_SIZE as i32 {
        for y in 0..ARENA_SIZE as i32 {
            let p = Position { x, y };
            for d in DIRECTIONS {
                assert_eq!(p.do_move(d).do_move(d.opposite()), p);
            }
        }
    }
}

#[test]
fn step_reduces_coordinates_outside_the_arena() {
    let p = Position { x: -1, y: 30 };
    assert!(!p.is_in_arena());
    assert_eq!(p.do_move(Direction::Left), Position { x: 23, y: 30 });
    assert_eq!(p.do_move(Direction::Up), Position { x: -1, y: 6 });
    let far = Position { x: i32::MAX, y: i32::MIN };
    assert_eq!(far.do_move(Direction::Right), Position { x: 23, y: i32::MIN });
    assert_eq!(far.do_move(Direction::Down), Position { x: i32::MAX, y: 1 });
}

#[test]
fn arena_bounds_are_half_open() {
    assert!(Position { x: 0, y: 0 }.is_in_arena());
    assert!(Position { x: 24, y: 24 }.is_in_arena());
    assert!(!Position { x: 25, y: 0 }.is_in_arena());
    assert!(!Position { x: 0, y: 25 }.is_in_arena());
    assert!(!Position { x: -1, y: 0 }.is_in_arena());
    assert!(!Position { x: 0, y: -1 }.is_in_arena());
}

#[test]
fn opposites_pair_up() {
    assert_eq!(Direction::Up.opposite(), Direction::Down);
    assert_eq!(Direction::Down.opposite(), Direction::Up);
    assert_eq!(Direction::Left.opposite(), Direction::Right);
    assert_eq!(Direction::Right.opposite(), Direction::Left);
    for d in DIRECTIONS {
        assert_ne!(d.opposite(), d);
        assert_eq!(d.opposite().opposite(), d);
    }
}
