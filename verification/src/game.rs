//! The executable game: the creature, the food on the grid and the growth queue,
//! with the routines that the two clocks of a host drive.

use vstd::prelude::*;
use crate::chain::{spawn_snake, Snake};
use crate::grid::{Direction, Position, ARENA_SIZE};
use crate::rng::{random_cell, random_u32};
use crate::state::{
    all_cells, away_from, event_cells, lemma_free_cells, lemma_steps_keep_wf, repeated, Food,
    GrowEvent, State,
};

verus! {

/// Number of random draws that `spawn_food` makes before it lists the free cells.
pub const SPAWN_DRAWS: u32 = 64;

/// A running game.
pub struct Game {
    snake: Snake,
    food: Vec<Food>,
    grow_events: Vec<GrowEvent>,
}

impl View for Game {
    type V = State;

    closed spec fn view(&self) -> State {
        State {
            body: self.snake.body(),
            heading: self.snake.heading(),
            food: self.food@,
            grow_events: self.grow_events@,
        }
    }
}

impl Game {
    /// The chain's links are sound.
    pub closed spec fn linked(&self) -> bool {
        self.snake.linked()
    }

    /// The chain is sound and the state it stands for is well-formed.
    pub open spec fn wf(&self) -> bool {
        self.linked() && self@.wf()
    }

    /// A new game: the seeded creature, no food, nothing queued.
    pub fn new() -> (game: Game)
        ensures
            game.wf(),
            game@ == State::initial(),
    {
        let game = Game { snake: spawn_snake(), food: Vec::new(), grow_events: Vec::new() };
        assert(game@.food =~= State::initial().food);
        assert(game@.grow_events =~= State::initial().grow_events);
        game
    }

    /// The creature.
    pub fn snake(&self) -> (snake: &Snake)
        requires
            self.wf(),
        ensures
            snake.wf(),
            snake.body() == self@.body,
            snake.heading() == self@.heading,
    {
        &self.snake
    }

    /// The food items on the grid, oldest first.
    pub fn food(&self) -> (food: &Vec<Food>)
        ensures
            food@ == self@.food,
    {
        &self.food
    }

    /// The growth queue, oldest entry first.
    pub fn grow_events(&self) -> (events: &Vec<GrowEvent>)
        ensures
            events@ == self@.grow_events,
    {
        &self.grow_events
    }

    /// Asks for `direction` as the next heading; a reversal of the heading in
    /// force is dropped.
    pub fn request(&mut self, direction: Direction)
        requires
            old(self).wf(),
        ensures
            final(self).wf(),
            final(self)@ == old(self)@.requested(direction),
    {
        self.snake.request(direction);
    }

    /// Takes one sample of the direction keys, each `true` while held down, and
    /// requests the first usable one in the order up, right, down, left.
    pub fn handle_input(&mut self, up: bool, right: bool, down: bool, left: bool)
        requires
            old(self).wf(),
        ensures
            final(self).wf(),
            final(self)@ == old(self)@.steered(up, right, down, left),
    {
        self.snake.handle_input(up, right, down, left);
    }

    /// Processes the growth queue: for each entry, oldest first, a new tail
    /// segment is linked to the chain at the position the entry carries. The queue
    /// is empty afterwards.
    pub fn grow_snake(&mut self)
        requires
            old(self).wf(),
        ensures
            final(self).wf(),
            final(self)@ == old(self)@.grown(),
    {
        let ghost cells = event_cells(old(self).grow_events@);
        let mut i: usize = 0;
        while i < self.grow_events.len()
            invariant
                old(self).wf(),
                self.snake.wf(),
                self.food@ == old(self).food@,
                self.grow_events@ == old(self).grow_events@,
                cells == event_cells(old(self).grow_events@),
                i <= self.grow_events.len(),
                self.snake.heading() == old(self).snake.heading(),
                self.snake.body() == old(self).snake.body() + cells.take(i as int),
            decreases self.grow_events.len() - i,
        {
            let event = self.grow_events[i];
            assert(old(self)@.grow_events[i as int].position.in_arena());
            self.snake.grow(event.position);
            i += 1;
            assert(self.snake.body() =~= old(self).snake.body() + cells.take(i as int));
        }
        self.grow_events.clear();
        proof {
            assert(cells.take(i as int) =~= cells);
            lemma_steps_keep_wf(old(self)@);
        }
    }

    /// The movement step: the pending heading comes into force and the chain
    /// shifts one cell along it.
    pub fn move_snake(&mut self)
        requires
            old(self).wf(),
        ensures
            final(self).wf(),
            final(self)@ == old(self)@.moved(),
    {
        self.snake.move_snake();
    }

    /// Checks the food against the head: every item under the head is removed,
    /// and for each of them one entry is queued that carries the tail's position.
    /// The other items keep their order.
    pub fn eat_food(&mut self)
        requires
            old(self).wf(),
        ensures
            final(self).wf(),
            final(self)@ == old(self)@.eaten(),
    {
        let head = self.snake.head_position();
        let tail = self.snake.tail_position();
        let ghost before = old(self).food@;
        let ghost event = GrowEvent { position: tail };
        let mut kept: Vec<Food> = Vec::new();
        let mut i: usize = 0;
        while i < self.food.len()
            invariant
                self.snake == old(self).snake,
                self.food@ == before,
                i <= before.len(),
                event == (GrowEvent { position: tail }),
                kept@ == before.take(i as int).filter(away_from(head)),
                kept@.len() <= i,
                self.grow_events@ == old(self).grow_events@ + repeated(
                    event,
                    (i - kept@.len()) as nat,
                ),
            decreases before.len() - i,
        {
            let item = self.food[i];
            proof {
                reveal(Seq::filter);
                assert(before.take(i + 1).drop_last() =~= before.take(i as int));
            }
            if item.position == head {
                self.grow_events.push(GrowEvent { position: tail });
            } else {
                kept.push(item);
            }
            i += 1;
            assert(self.grow_events@ =~= old(self).grow_events@ + repeated(
                event,
                (i - kept@.len()) as nat,
            ));
        }
        self.food = kept;
        proof {
            assert(before.take(i as int) =~= before);
            lemma_steps_keep_wf(old(self)@);
        }
    }

    /// One movement tick: the growth queue is processed, then the chain moves,
    /// then the head is checked against the food.
    pub fn tick(&mut self)
        requires
            old(self).wf(),
        ensures
            final(self).wf(),
            final(self)@ == old(self)@.ticked(),
    {
        self.grow_snake();
        self.move_snake();
        self.eat_food();
    }

    /// Tells whether `cell` lies in the arena with no segment and no food on it.
    pub fn is_free(&self, cell: Position) -> (free: bool)
        requires
            self.wf(),
        ensures
            free == self@.is_free(cell),
    {
        if !cell.is_in_arena() || self.snake.occupies(cell) {
            return false;
        }
        let mut i: usize = 0;
        while i < self.food.len()
            invariant
                i <= self.food@.len(),
                forall|j: int| 0 <= j < i ==> self.food@[j] != (Food { position: cell }),
            decreases self.food@.len() - i,
        {
            if self.food[i].position == cell {
                assert(self.food@[i as int] == (Food { position: cell }));
                return false;
            }
            i += 1;
        }
        true
    }

    /// Lists the free cells, column by column.
    pub fn free_cells(&self) -> (cells: Vec<Position>)
        requires
            self.wf(),
        ensures
            cells@ == self@.free_cells(),
    {
        let mut cells: Vec<Position> = Vec::new();
        let total: u32 = ARENA_SIZE * ARENA_SIZE;
        let mut i: u32 = 0;
        while i < total
            invariant
                self.wf(),
                total == ARENA_SIZE * ARENA_SIZE,
                i <= total,
                cells@ == all_cells().take(i as int).filter(self@.free()),
            decreases total - i,
        {
            let cell = Position { x: (i / ARENA_SIZE) as i32, y: (i % ARENA_SIZE) as i32 };
            proof {
                reveal(Seq::filter);
                assert(all_cells().take(i + 1).drop_last() =~= all_cells().take(i as int));
                assert(all_cells().take(i + 1).last() == cell);
            }
            if self.is_free(cell) {
                cells.push(cell);
            }
            i += 1;
        }
        assert(all_cells().take(i as int) =~= all_cells());
        cells
    }

    /// Puts a food item on `cell` if the cell is free, and tells whether it did.
    pub fn place_food(&mut self, cell: Position) -> (placed: bool)
        requires
            old(self).wf(),
        ensures
            final(self).wf(),
            placed == old(self)@.is_free(cell),
            placed ==> final(self)@ == old(self)@.with_food(cell),
            !placed ==> final(self)@ == old(self)@,
    {
        if self.is_free(cell) {
            self.food.push(Food { position: cell });
            proof {
                lemma_steps_keep_wf(old(self)@);
            }
            true
        } else {
            false
        }
    }

    /// Puts a food item on one of the free cells, chosen by `draw`: the cell at
    /// place `draw` modulo their number in the list of free cells. Returns the
    /// cell, or `None` when no cell is free.
    pub fn place_food_among_free(&mut self, draw: u32) -> (placed: Option<Position>)
        requires
            old(self).wf(),
        ensures
            final(self).wf(),
            match placed {
                Some(cell) => {
                    &&& old(self)@.free_cells().len() > 0
                    &&& cell == old(self)@.free_cells()[draw as int % old(self)@.free_cells().len() as int]
                    &&& old(self)@.is_free(cell)
                    &&& final(self)@ == old(self)@.with_food(cell)
                },
                None => {
                    &&& old(self)@.free_cells().len() == 0
                    &&& !old(self)@.has_free_cell()
                    &&& final(self)@ == old(self)@
                },
            },
    {
        let cells = self.free_cells();
        proof {
            lemma_free_cells(self@);
        }
        if cells.len() == 0 {
            return None;
        }
        let cell = cells[draw as usize % cells.len()];
        assert(cells@.contains(cell));
        self.place_food(cell);
        Some(cell)
    }

    /// Spawns one food item on a free cell. Cells are drawn at random until a
    /// free one comes up; after `SPAWN_DRAWS` misses the free cells are listed and
    /// one of them is drawn, so the routine always returns. It returns the cell of
    /// the new item, or `None`, with nothing changed, when no cell of the arena is
    /// free.
    pub fn spawn_food(&mut self) -> (spawned: Option<Position>)
        requires
            old(self).wf(),
        ensures
            final(self).wf(),
            match spawned {
                Some(cell) => old(self)@.is_free(cell) && final(self)@ == old(self)@.with_food(
                    cell,
                ),
                None => !old(self)@.has_free_cell() && final(self)@ == old(self)@,
            },
    {
        let mut draws: u32 = 0;
        while draws < SPAWN_DRAWS
            invariant
                self.wf(),
                self@ == old(self)@,
            decreases SPAWN_DRAWS - draws,
        {
            let cell = random_cell();
            if self.place_food(cell) {
                return Some(cell);
            }
            draws += 1;
        }
        self.place_food_among_free(random_u32())
    }
}

} // verus!
