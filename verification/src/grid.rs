//! Coordinates on the toroidal arena: positions, headings and the wrapping step.

use vstd::prelude::*;

verus! {

/// Number of cells along each side of the square arena.
pub const ARENA_SIZE: u32 = 25;

/// One of the four headings.
#[derive(Clone, Copy, Debug, PartialEq, Eq, Structural)]
pub enum Direction {
    Up,
    Right,
    Down,
    Left,
}

impl Direction {
    /// The heading that points the other way: up and down are opposites, and so are
    /// left and right.
    pub open spec fn spec_opposite(self) -> Direction {
        match self {
            Direction::Up => Direction::Down,
            Direction::Right => Direction::Left,
            Direction::Down => Direction::Up,
            Direction::Left => Direction::Right,
        }
    }

    /// Change of the x coordinate made by one step along this heading.
    pub open spec fn dx(self) -> int {
        match self {
            Direction::Right => 1,
            Direction::Left => -1,
            _ => 0,
        }
    }

    /// Change of the y coordinate made by one step along this heading.
    pub open spec fn dy(self) -> int {
        match self {
            Direction::Up => 1,
            Direction::Down => -1,
            _ => 0,
        }
    }

    /// Returns the opposite heading.
    #[verifier::when_used_as_spec(spec_opposite)]
    pub fn opposite(self) -> (r: Direction)
        ensures
            r == self.spec_opposite(),
    {
        match self {
            Direction::Up => Direction::Down,
            Direction::Right => Direction::Left,
            Direction::Down => Direction::Up,
            Direction::Left => Direction::Right,
        }
    }
}

/// A cell of the grid. Two positions are equal when both coordinates match.
#[derive(Clone, Copy, Debug, PartialEq, Eq, Structural)]
pub struct Position {
    pub x: i32,
    pub y: i32,
}

/// The non-negative remainder of `v` modulo the arena's side.
pub open spec fn wrapped(v: int) -> int {
    v % (ARENA_SIZE as int)
}

/// Reduces a coordinate, or a coordinate one step outside the `i32` range, into the arena.
fn wrap(v: i64) -> (r: i32)
    requires
        i32::MIN - 1 <= v <= i32::MAX + 1,
    ensures
        r == wrapped(v as int),
{
    v.checked_rem_euclid(ARENA_SIZE as i64).unwrap() as i32
}

impl Position {
    /// Both coordinates lie within the arena.
    pub open spec fn in_arena(&self) -> bool {
        0 <= self.x < ARENA_SIZE && 0 <= self.y < ARENA_SIZE
    }

    /// The neighbouring cell along `direction`, wrapping around at the arena's edges.
    /// The coordinate across the heading is kept as it is.
    pub open spec fn step(self, direction: Direction) -> Position {
        match direction {
            Direction::Up => Position { x: self.x, y: wrapped(self.y + 1) as i32 },
            Direction::Right => Position { x: wrapped(self.x + 1) as i32, y: self.y },
            Direction::Down => Position { x: self.x, y: wrapped(self.y - 1) as i32 },
            Direction::Left => Position { x: wrapped(self.x - 1) as i32, y: self.y },
        }
    }

    /// Tells whether both coordinates lie within the arena.
    #[verifier::when_used_as_spec(in_arena)]
    pub fn is_in_arena(&self) -> (r: bool)
        ensures
            r == self.in_arena(),
    {
        0 <= self.x && self.x < ARENA_SIZE as i32 && 0 <= self.y && self.y < ARENA_SIZE as i32
    }

    /// Moves one cell along `direction` on the torus. Defined for every pair of
    /// coordinates; a position inside the arena stays inside.
    pub fn do_move(&self, direction: Direction) -> (r: Position)
        ensures
            r == self.step(direction),
            self.in_arena() ==> r.in_arena(),
    {
        match direction {
            Direction::Up => Position { x: self.x, y: wrap(self.y as i64 + 1) },
            Direction::Right => Position { x: wrap(self.x as i64 + 1), y: self.y },
            Direction::Down => Position { x: self.x, y: wrap(self.y as i64 - 1) },
            Direction::Left => Position { x: wrap(self.x as i64 - 1), y: self.y },
        }
    }
}

/// Stepping keeps a position inside the arena, and the two edges of each axis are
/// joined: one step past the last cell leads to the first, and one step before the
/// first leads to the last.
pub proof fn lemma_step_wraps(p: Position, d: Direction)
    requires
        p.in_arena(),
    ensures
        p.step(d).in_arena(),
        p.step(d).x == if p.x + d.dx() == ARENA_SIZE { 0 } else if p.x + d.dx() == -1 { ARENA_SIZE - 1 } else { p.x + d.dx() },
        p.step(d).y == if p.y + d.dy() == ARENA_SIZE { 0 } else if p.y + d.dy() == -1 { ARENA_SIZE - 1 } else { p.y + d.dy() },
{
}

} // verus!
