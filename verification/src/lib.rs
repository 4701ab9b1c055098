//! The simulation core of a snake game on a wrap-around grid.
//!
//! A body of linked segments advances one cell per movement tick, eats the
//! food its head lands on, and grows by one segment on the tick after each
//! meal. Food is placed on free cells only. Every operation is stated over a
//! mathematical model of the state and proved against it.

pub mod chain;
pub mod game;
pub mod grid;
pub mod latch;
pub mod rng;
pub mod state;

pub use chain::{spawn_snake, Snake, SnakeSegment};
pub use game::{Game, SPAWN_DRAWS};
pub use grid::{Direction, Position, ARENA_SIZE};
pub use latch::SnakeHead;
pub use state::{Food, GrowEvent, State};
