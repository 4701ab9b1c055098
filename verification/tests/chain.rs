use snake::{spawn_snake, Direction, Position, Snake, SnakeSegment};

fn cells(points: &[(i32, i32)]) -> Vec<Position> {
    points.iter().map(|&(x, y)| Position { x, y }).collect()
}

fn segment(x: i32, y: i32, next: Option<usize>) -> SnakeSegment {
    SnakeSegment { position: Position { x, y }, next }
}

fn walk(snake: &Snake) -> Vec<Position> {
    let segments = snake.segments();
    let mut seen = vec![false; segments.len()];
    let mut cells = Vec::new();
    let mut slot = Some(snake.head_index());
    while let Some(at) = slot {
        assert!(!seen[at], "the links run in a cycle");
        seen[at] = true;
        cells.push(segments[at].position);
        slot = segments[at].next;
    }
    assert!(seen.iter().all(|&visited| visited));
    cells
}

#[test]
fn seed_arena_holds_the_tail_first_and_the_head_last() {
    let snake = spawn_snake();
    assert_eq!(
        snake.segments(),
        &vec![segment(14, 12, None), segment(13, 12, Some(0)), segment(12, 12, Some(1))]
    );
    assert_eq!(snake.head_index(), 2);
}

#[test]
fn grow_links_the_old_tail_to_a_fresh_slot() {
    let mut snake = spawn_snake();
    snake.grow(Position { x: 15, y: 12 });
    assert_eq!(
        snake.segments(),
        &vec![
            segment(14, 12, Some(3)),
            segment(13, 12, Some(0)),
            segment(12, 12, Some(1)),
            segment(15, 12, None),
        ]
    );
    assert_eq!(snake.head_index(), 2);
    snake.grow(Position { x: 15, y: 12 });
    assert_eq!(snake.segments()[3], segment(15, 12, Some(4)));
    assert_eq!(snake.segments()[4], segment(15, 12, None));
}

#[test]
fn movement_changes_positions_and_no_link() {
    let mut snake = spawn_snake();
    snake.grow(Position { x: 14, y: 12 });
    snake.request(Direction::Down);
    snake.move_snake();
    assert_eq!(
        snake.segments(),
        &vec![
            segment(13, 12, Some(3)),
            segment(12, 12, Some(0)),
            segment(12, 11, Some(1)),
            segment(14, 12, None),
        ]
    );
    assert_eq!(snake.head_index(), 2);
}

#[test]
fn links_lead_from_head_to_tail_through_every_segment() {
    let mut snake = spawn_snake();
    assert_eq!(walk(&snake), snake.positions());
    for round in 0..30 {
        if round % 4 == 0 {
            snake.grow(snake.tail_position());
        }
        if round % 7 == 0 {
            snake.request(Direction::Up);
        } else if round % 5 == 0 {
            snake.request(Direction::Left);
        }
        snake.move_snake();
        assert_eq!(walk(&snake), snake.positions());
        let tails = snake.segments().iter().filter(|s| s.next.is_none()).count();
        assert_eq!(tails, 1);
        let head = snake.head_index();
        assert!(snake.segments().iter().all(|s| s.next != Some(head)));
    }
    assert_eq!(snake.len(), 3 + 8);
}

#[test]
fn seed_is_three_segments_heading_left() {
    let snake = spawn_snake();
    assert_eq!(snake.len(), 3);
    assert_eq!(snake.positions(), cells(&[(12, 12), (13, 12), (14, 12)]));
    assert_eq!(snake.head_position(), Position { x: 12, y: 12 });
    assert_eq!(snake.tail_position(), Position { x: 14, y: 12 });
    assert_eq!(snake.direction(), Direction::Left);
    assert_eq!(snake.next_direction(), Direction::Left);
}

#[test]
fn one_tick_shifts_the_chain_left() {
    let mut snake = spawn_snake();
    snake.move_snake();
    assert_eq!(snake.positions(), cells(&[(11, 12), (12, 12), (13, 12)]));
    assert_eq!(snake.len(), 3);
}

#[test]
fn each_segment_takes_the_cell_of_its_predecessor() {
    let mut snake = spawn_snake();
    let turns = [
        Direction::Up,
        Direction::Up,
        Direction::Right,
        Direction::Down,
        Direction::Left,
        Direction::Left,
        Direction::Up,
    ];
    snake.grow(Position { x: 14, y: 12 });
    snake.grow(Position { x: 14, y: 12 });
    for turn in turns {
        let before = snake.positions();
        snake.request(turn);
        let heading = snake.next_direction();
        snake.move_snake();
        let after = snake.positions();
        assert_eq!(after.len(), before.len());
        assert_eq!(after[0], before[0].do_move(heading));
        assert_eq!(after[1..], before[..before.len() - 1]);
        assert_eq!(snake.direction(), heading);
    }
}

#[test]
fn turn_takes_effect_on_the_next_tick() {
    let mut snake = spawn_snake();
    snake.request(Direction::Up);
    assert_eq!(snake.direction(), Direction::Left);
    snake.move_snake();
    assert_eq!(snake.direction(), Direction::Up);
    assert_eq!(snake.positions(), cells(&[(12, 13), (12, 12), (13, 12)]));
}

#[test]
fn reversal_request_does_not_turn_the_chain() {
    let mut snake = spawn_snake();
    snake.request(Direction::Right);
    snake.move_snake();
    assert_eq!(snake.direction(), Direction::Left);
    assert_eq!(snake.positions(), cells(&[(11, 12), (12, 12), (13, 12)]));
}

#[test]
fn chain_wraps_around_the_left_edge() {
    let mut snake = spawn_snake();
    for _ in 0..13 {
        snake.move_snake();
    }
    assert_eq!(snake.positions(), cells(&[(24, 12), (0, 12), (1, 12)]));
    snake.move_snake();
    snake.move_snake();
    assert_eq!(snake.positions(), cells(&[(22, 12), (23, 12), (24, 12)]));
}

#[test]
fn a_full_lap_returns_to_the_seed() {
    let mut snake = spawn_snake();
    for _ in 0..25 {
        snake.move_snake();
    }
    assert_eq!(snake.positions(), cells(&[(12, 12), (13, 12), (14, 12)]));
}

#[test]
fn grow_appends_a_new_tail() {
    let mut snake = spawn_snake();
    snake.grow(Position { x: 15, y: 12 });
    assert_eq!(snake.len(), 4);
    assert_eq!(snake.tail_position(), Position { x: 15, y: 12 });
    assert_eq!(snake.head_position(), Position { x: 12, y: 12 });
    assert_eq!(snake.positions(), cells(&[(12, 12), (13, 12), (14, 12), (15, 12)]));
    snake.grow(Position { x: 16, y: 12 });
    assert_eq!(snake.positions(), cells(&[(12, 12), (13, 12), (14, 12), (15, 12), (16, 12)]));
    snake.move_snake();
    assert_eq!(snake.positions(), cells(&[(11, 12), (12, 12), (13, 12), (14, 12), (15, 12)]));
}

#[test]
fn occupies_tells_body_cells_from_others() {
    let mut snake = spawn_snake();
    assert!(snake.occupies(Position { x: 12, y: 12 }));
    assert!(snake.occupies(Position { x: 13, y: 12 }));
    assert!(snake.occupies(Position { x: 14, y: 12 }));
    assert!(!snake.occupies(Position { x: 11, y: 12 }));
    assert!(!snake.occupies(Position { x: 12, y: 13 }));
    snake.move_snake();
    assert!(snake.occupies(Position { x: 11, y: 12 }));
    assert!(!snake.occupies(Position { x: 14, y: 12 }));
}

#[test]
fn key_sample_steers_the_snake() {
    let mut snake = spawn_snake();
    snake.handle_input(false, true, true, false);
    assert_eq!(snake.next_direction(), Direction::Down);
    snake.move_snake();
    assert_eq!(snake.positions(), cells(&[(12, 11), (12, 12), (13, 12)]));
}
