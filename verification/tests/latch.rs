use snake::{Direction, SnakeHead};

const DIRECTIONS: [Direction; 4] =
    [Direction::Up, Direction::Right, Direction::Down, Direction::Left];

#[test]
fn new_latch_holds_the_heading_twice() {
    let latch = SnakeHead::new(Direction::Left);
    assert_eq!(latch.direction, Direction::Left);
    assert_eq!(latch.next_direction, Direction::Left);
}

#[test]
fn reversal_is_rejected_at_request_time() {
    let mut latch = SnakeHead::new(Direction::Left);
    latch.request(Direction::Right);
    assert_eq!(latch.next_direction, Direction::Left);
    assert_eq!(latch.commit(), Direction::Left);
    assert_eq!(latch.direction, Direction::Left);
}

#[test]
fn turn_is_taken_up_at_commit() {
    let mut latch = SnakeHead::new(Direction::Left);
    latch.request(Direction::Up);
    assert_eq!(latch.direction, Direction::Left);
    assert_eq!(latch.next_direction, Direction::Up);
    assert_eq!(latch.commit(), Direction::Up);
    assert_eq!(latch.direction, Direction::Up);
    assert_eq!(latch.next_direction, Direction::Up);
}

#[test]
fn last_valid_request_wins() {
    let mut latch = SnakeHead::new(Direction::Left);
    latch.request(Direction::Up);
    latch.request(Direction::Right);
    latch.request(Direction::Down);
    latch.request(Direction::Right);
    assert_eq!(latch.commit(), Direction::Down);
}

#[test]
fn reversal_after_a_turn_keeps_the_turn() {
    let mut latch = SnakeHead::new(Direction::Left);
    latch.request(Direction::Up);
    latch.request(Direction::Right);
    assert_eq!(latch.commit(), Direction::Up);
}

#[test]
fn reversal_is_judged_against_the_heading_in_force() {
    let mut latch = SnakeHead::new(Direction::Left);
    latch.request(Direction::Up);
    latch.request(Direction::Down);
    assert_eq!(latch.commit(), Direction::Down);
    latch.request(Direction::Up);
    assert_eq!(latch.commit(), Direction::Down);
}

#[test]
fn commit_never_reverses_whatever_is_requested() {
    for current in DIRECTIONS {
        for first in DIRECTIONS {
            for second in DIRECTIONS {
                let mut latch = SnakeHead::new(current);
                latch.request(first);
                latch.request(second);
                assert_ne!(latch.commit(), current.opposite());
            }
        }
    }
}

#[test]
fn commit_without_request_keeps_heading() {
    let mut latch = SnakeHead::new(Direction::Down);
    assert_eq!(latch.commit(), Direction::Down);
    assert_eq!(latch.commit(), Direction::Down);
}

#[test]
fn keys_are_looked_at_in_order() {
    let mut latch = SnakeHead::new(Direction::Left);
    latch.handle_input(true, true, true, true);
    assert_eq!(latch.next_direction, Direction::Up);
    let mut latch = SnakeHead::new(Direction::Left);
    latch.handle_input(false, false, true, true);
    assert_eq!(latch.next_direction, Direction::Down);
    let mut latch = SnakeHead::new(Direction::Up);
    latch.handle_input(false, false, false, true);
    assert_eq!(latch.next_direction, Direction::Left);
}

#[test]
fn reversing_key_gives_way_to_the_next_key() {
    let mut latch = SnakeHead::new(Direction::Down);
    latch.handle_input(true, true, false, false);
    assert_eq!(latch.next_direction, Direction::Right);
    let mut latch = SnakeHead::new(Direction::Left);
    latch.handle_input(false, true, true, false);
    assert_eq!(latch.next_direction, Direction::Down);
}

#[test]
fn reversing_key_alone_changes_nothing() {
    let mut latch = SnakeHead::new(Direction::Left);
    latch.request(Direction::Up);
    latch.handle_input(false, true, false, false);
    assert_eq!(latch.direction, Direction::Left);
    assert_eq!(latch.next_direction, Direction::Up);
}

#[test]
fn no_key_changes_nothing() {
    let mut latch = SnakeHead::new(Direction::Right);
    latch.request(Direction::Down);
    latch.handle_input(false, false, false, false);
    assert_eq!(latch.direction, Direction::Right);
    assert_eq!(latch.next_direction, Direction::Down);
}
