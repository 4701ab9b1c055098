//! The source of random draws, and how a draw becomes a cell.

use vstd::prelude::*;
use crate::grid::{Position, ARENA_SIZE};

verus! {

/// Draws one number from the thread-local generator of the `rand` crate, by a call
/// of `rand::random::<u32>()`. Nothing is claimed of the number: any value may
/// come back, and two calls need not agree. The generator is seeded from the
/// operating system on a thread's first draw, and `rand` panics if that fails.
#[verifier::external_body]
pub(crate) fn random_u32() -> (drawn: u32) {
    rand::random::<u32>()
}

/// The cell that a pair of draws stands for: each draw is reduced modulo the
/// arena's side, the first to the column and the second to the row.
pub fn cell_of(draw_x: u32, draw_y: u32) -> (cell: Position)
    ensures
        cell.x == draw_x % ARENA_SIZE,
        cell.y == draw_y % ARENA_SIZE,
        cell.in_arena(),
{
    Position { x: (draw_x % ARENA_SIZE) as i32, y: (draw_y % ARENA_SIZE) as i32 }
}

/// A cell of the arena picked by two fresh draws.
pub fn random_cell() -> (cell: Position)
    ensures
        cell.in_arena(),
{
    let draw_x = random_u32();
    let draw_y = random_u32();
    cell_of(draw_x, draw_y)
}

} // verus!
