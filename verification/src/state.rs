//! The mathematical model of a game: what the state is, and what each step of a
//! tick makes of it. The executable game is stated against this model.

use vstd::prelude::*;
use crate::chain::shifted;
use crate::grid::{Direction, Position, ARENA_SIZE};
use crate::latch::SnakeHead;

verus! {

/// A consumable item lying on a cell.
#[derive(Clone, Copy, Debug, PartialEq, Eq, Structural)]
pub struct Food {
    pub position: Position,
}

/// A pending extension of the chain: a new tail segment is due at `position`.
#[derive(Clone, Copy, Debug, PartialEq, Eq, Structural)]
pub struct GrowEvent {
    pub position: Position,
}

/// Everything the simulation holds, as plain mathematics.
pub struct State {
    /// Positions of the segments, head first.
    pub body: Seq<Position>,
    /// The direction latch.
    pub heading: SnakeHead,
    /// The food items on the grid, oldest first.
    pub food: Seq<Food>,
    /// The growth queue, oldest entry first.
    pub grow_events: Seq<GrowEvent>,
}

/// The test that a food item does not lie on `cell`.
pub open spec fn away_from(cell: Position) -> spec_fn(Food) -> bool {
    |item: Food| item.position != cell
}

/// `count` copies of `event`.
pub open spec fn repeated(event: GrowEvent, count: nat) -> Seq<GrowEvent> {
    Seq::new(count, |i: int| event)
}

/// The positions that a run of growth events carries, in the same order.
pub open spec fn event_cells(events: Seq<GrowEvent>) -> Seq<Position> {
    Seq::new(events.len(), |i: int| events[i].position)
}

/// `b` is the cell `a` or one of its four neighbours.
pub open spec fn touches(a: Position, b: Position) -> bool {
    ||| b == a
    ||| b == a.step(Direction::Up)
    ||| b == a.step(Direction::Right)
    ||| b == a.step(Direction::Down)
    ||| b == a.step(Direction::Left)
}

/// Every cell of the arena once, column by column with `y` running fastest.
pub open spec fn all_cells() -> Seq<Position> {
    Seq::new(
        (ARENA_SIZE * ARENA_SIZE) as nat,
        |i: int| Position { x: (i / ARENA_SIZE as int) as i32, y: (i % ARENA_SIZE as int) as i32 },
    )
}

impl State {
    /// The body has at least three segments, everything lies inside the arena, no
    /// two food items share a cell, and the pending heading is no reversal.
    pub open spec fn wf(self) -> bool {
        &&& self.body.len() >= 3
        &&& forall|i: int| 0 <= i < self.body.len() ==> (#[trigger] self.body[i]).in_arena()
        &&& self.heading.wf()
        &&& forall|i: int| 0 <= i < self.food.len() ==> (#[trigger] self.food[i]).position.in_arena()
        &&& self.food.no_duplicates()
        &&& forall|i: int|
            0 <= i < self.grow_events.len() ==> (#[trigger] self.grow_events[i]).position.in_arena()
    }

    /// What holds between ticks beyond well-formedness: the head is one step from
    /// the second segment along the heading in force, each segment is on the
    /// cell of the segment before it or next to it, and every queued growth is for
    /// the cell the tail is on.
    pub open spec fn coherent(self) -> bool {
        &&& self.wf()
        &&& self.body[0] == self.body[1].step(self.heading.direction)
        &&& forall|i: int, j: int|
            0 <= i && j == i + 1 && j < self.body.len() ==> touches(
                #[trigger] self.body[i],
                #[trigger] self.body[j],
            )
        &&& forall|i: int|
            0 <= i < self.grow_events.len() ==> (#[trigger] self.grow_events[i]).position
                == self.tail()
    }

    /// The state a game starts in: three segments in a row at the middle of the
    /// arena, heading left, no food, nothing queued.
    pub open spec fn initial() -> State {
        State {
            body: seq![
                Position { x: 12, y: 12 },
                Position { x: 13, y: 12 },
                Position { x: 14, y: 12 },
            ],
            heading: SnakeHead { direction: Direction::Left, next_direction: Direction::Left },
            food: Seq::empty(),
            grow_events: Seq::empty(),
        }
    }

    /// Where the head is.
    pub open spec fn head(self) -> Position {
        self.body[0]
    }

    /// Where the tail is.
    pub open spec fn tail(self) -> Position {
        self.body.last()
    }

    /// `cell` is a cell of the arena with no segment and no food on it.
    pub open spec fn is_free(self, cell: Position) -> bool {
        &&& cell.in_arena()
        &&& !self.body.contains(cell)
        &&& !self.food.contains(Food { position: cell })
    }

    /// The test `is_free` as a function of the cell.
    pub open spec fn free(self) -> spec_fn(Position) -> bool {
        |cell: Position| self.is_free(cell)
    }

    /// The free cells, in the order of `all_cells`.
    pub open spec fn free_cells(self) -> Seq<Position> {
        all_cells().filter(self.free())
    }

    /// Some cell of the arena is free.
    pub open spec fn has_free_cell(self) -> bool {
        exists|cell: Position| self.is_free(cell)
    }

    /// The state with one more food item, on `cell`.
    pub open spec fn with_food(self, cell: Position) -> State {
        State { food: self.food.push(Food { position: cell }), ..self }
    }

    /// The state after a request for `direction`.
    pub open spec fn requested(self, direction: Direction) -> State {
        State { heading: self.heading.requested(direction), ..self }
    }

    /// The state after one sample of the direction keys.
    pub open spec fn steered(self, up: bool, right: bool, down: bool, left: bool) -> State {
        State { heading: self.heading.steered(up, right, down, left), ..self }
    }

    /// The state after the growth queue was processed: one new tail segment for
    /// each entry, oldest first, at the position the entry carries; the queue is empty.
    pub open spec fn grown(self) -> State {
        State {
            body: self.body + event_cells(self.grow_events),
            grow_events: Seq::empty(),
            ..self
        }
    }

    /// The state after the movement step: the pending heading is in force and the
    /// body has shifted one cell along it.
    pub open spec fn moved(self) -> State {
        State {
            body: shifted(self.body, self.head().step(self.heading.next_direction)),
            heading: self.heading.committed(),
            ..self
        }
    }

    /// Number of food items lying under the head.
    pub open spec fn meals(self) -> nat {
        (self.food.len() - self.food.filter(away_from(self.head())).len()) as nat
    }

    /// The state after the head was checked against the food: every item under the
    /// head is gone, and for each of them the queue has one more entry, which
    /// carries the tail's position.
    pub open spec fn eaten(self) -> State {
        State {
            food: self.food.filter(away_from(self.head())),
            grow_events: self.grow_events + repeated(
                GrowEvent { position: self.tail() },
                self.meals(),
            ),
            ..self
        }
    }

    /// The state after one movement tick: growth first, then movement, then eating.
    pub open spec fn ticked(self) -> State {
        self.grown().moved().eaten()
    }
}

/// Filtering a sequence without repetitions leaves no repetitions.
pub proof fn lemma_filter_keeps_distinct<A>(s: Seq<A>, pred: spec_fn(A) -> bool)
    requires
        s.no_duplicates(),
    ensures
        s.filter(pred).no_duplicates(),
    decreases s.len(),
{
    reveal(Seq::filter);
    if s.len() > 0 {
        let rest = s.drop_last();
        lemma_filter_keeps_distinct(rest, pred);
        let kept = rest.filter(pred);
        if pred(s.last()) {
            assert forall|i: int| 0 <= i < kept.len() implies kept[i] != s.last() by {
                assert(kept.contains(kept[i]));
                rest.lemma_filter_contains_rev(pred, kept[i]);
                let j = choose|j: int| 0 <= j < rest.len() && rest[j] == kept[i];
                assert(s[j] == rest[j]);
            }
        }
    }
}

/// Among food items on distinct cells, at most one lies on `cell`: removing the
/// items on `cell` shortens the sequence by one if there is such an item, and not
/// at all if there is none.
pub proof fn lemma_one_item_per_cell(food: Seq<Food>, cell: Position)
    requires
        food.no_duplicates(),
    ensures
        food.len() - food.filter(away_from(cell)).len() == if food.contains(
            Food { position: cell },
        ) {
            1int
        } else {
            0int
        },
        !food.contains(Food { position: cell }) ==> food.filter(away_from(cell)) == food,
    decreases food.len(),
{
    reveal(Seq::filter);
    let item = Food { position: cell };
    if food.len() > 0 {
        let rest = food.drop_last();
        lemma_one_item_per_cell(rest, cell);
        if food.last() == item {
            assert(food[food.len() - 1] == item);
            if rest.contains(item) {
                let j = choose|j: int| 0 <= j < rest.len() && rest[j] == item;
                assert(food[j] == rest[j]);
            }
        } else {
            if food.contains(item) {
                let j = choose|j: int| 0 <= j < food.len() && food[j] == item;
                assert(rest[j] == item);
            }
            if rest.contains(item) {
                let j = choose|j: int| 0 <= j < rest.len() && rest[j] == item;
                assert(food[j] == item);
            }
            if !food.contains(item) {
                assert(rest.push(food.last()) =~= food);
            }
        }
    }
}

/// The free cells are exactly the cells for which `is_free` holds, each once.
pub proof fn lemma_free_cells(s: State)
    ensures
        forall|cell: Position| #[trigger] s.free_cells().contains(cell) <==> s.is_free(cell),
        s.free_cells().len() == 0 <==> !s.has_free_cell(),
        s.free_cells().no_duplicates(),
{
    broadcast use vstd::seq_lib::group_filter_ensures;

    let cells = all_cells();
    let free = s.free_cells();
    assert forall|cell: Position| #[trigger] free.contains(cell) <==> s.is_free(cell) by {
        if free.contains(cell) {
            let i = choose|i: int| 0 <= i < free.len() && free[i] == cell;
            assert((s.free())(free[i]));
        }
        if s.is_free(cell) {
            let i = cell.x * ARENA_SIZE + cell.y;
            assert(cells[i] == cell);
            assert((s.free())(cells[i]));
        }
    }
    if s.has_free_cell() {
        let cell = choose|cell: Position| s.is_free(cell);
        assert(free.contains(cell));
    }
    if free.len() > 0 {
        assert(free.contains(free[0]));
        assert(s.is_free(free[0]));
    }
    assert(cells.no_duplicates());
    lemma_filter_keeps_distinct(cells, s.free());
}

/// Each step keeps a well-formed state well-formed: requests and key samples,
/// growth, movement, eating, a whole tick, and food placed on a free cell.
pub proof fn lemma_steps_keep_wf(s: State)
    requires
        s.wf(),
    ensures
        forall|direction: Direction| (#[trigger] s.requested(direction)).wf(),
        forall|up: bool, right: bool, down: bool, left: bool|
            (#[trigger] s.steered(up, right, down, left)).wf(),
        s.grown().wf(),
        s.moved().wf(),
        s.eaten().wf(),
        s.ticked().wf(),
        forall|cell: Position| s.is_free(cell) ==> (#[trigger] s.with_food(cell)).wf(),
{
    lemma_grown_wf(s);
    lemma_moved_wf(s);
    lemma_eaten_wf(s);
    lemma_moved_wf(s.grown());
    lemma_eaten_wf(s.grown().moved());
    assert forall|cell: Position| s.is_free(cell) implies (#[trigger] s.with_food(cell)).wf() by {
        let item = Food { position: cell };
        assert forall|i: int| 0 <= i < s.food.len() implies s.food[i] != item by {
            assert(s.food.contains(s.food[i]));
        }
    }
}

proof fn lemma_grown_wf(s: State)
    requires
        s.wf(),
    ensures
        s.grown().wf(),
{
    let g = s.grown();
    assert forall|i: int| 0 <= i < g.body.len() implies (#[trigger] g.body[i]).in_arena() by {
        if i < s.body.len() {
            assert(g.body[i] == s.body[i]);
        } else {
            assert(g.body[i] == s.grow_events[i - s.body.len()].position);
        }
    }
}

proof fn lemma_moved_wf(s: State)
    requires
        s.wf(),
    ensures
        s.moved().wf(),
{
    let m = s.moved();
    assert(s.body[0].in_arena());
    assert forall|i: int| 0 <= i < m.body.len() implies (#[trigger] m.body[i]).in_arena() by {
        if i > 0 {
            assert(m.body[i] == s.body[i - 1]);
        }
    }
}

proof fn lemma_eaten_wf(s: State)
    requires
        s.wf(),
    ensures
        s.eaten().wf(),
{
    let e = s.eaten();
    let pred = away_from(s.head());
    assert forall|i: int| 0 <= i < e.food.len() implies (#[trigger] e.food[i]).position.in_arena() by {
        assert(e.food.contains(e.food[i]));
        s.food.lemma_filter_contains_rev(pred, e.food[i]);
        let j = choose|j: int| 0 <= j < s.food.len() && s.food[j] == e.food[i];
        assert(s.food[j].position.in_arena());
    }
    lemma_filter_keeps_distinct(s.food, pred);
    assert(s.body[s.body.len() - 1].in_arena());
    assert forall|i: int| 0 <= i < e.grow_events.len() implies (#[trigger] e.grow_events[i]).position.in_arena() by {
        if i < s.grow_events.len() {
            assert(e.grow_events[i] == s.grow_events[i]);
        }
    }
}

/// A meal shows as growth on the next processing of the queue. With nothing
/// queued, eating removes the item under the head, if there is one, and queues
/// exactly one entry for it, which carries the tail's position; processing the
/// queue then lengthens the chain by exactly one segment, placed where the tail is.
/// Without an item under the head nothing is queued and the chain keeps its length.
pub proof fn lemma_meal_grows_chain_by_one(s: State)
    requires
        s.wf(),
        s.grow_events.len() == 0,
    ensures
        s.eaten().body == s.body,
        !s.eaten().food.contains(Food { position: s.head() }),
        s.food.contains(Food { position: s.head() }) ==> {
            &&& s.eaten().food.len() == s.food.len() - 1
            &&& s.eaten().grow_events == seq![GrowEvent { position: s.tail() }]
            &&& s.eaten().grown().body == s.body.push(s.tail())
        },
        !s.food.contains(Food { position: s.head() }) ==> {
            &&& s.eaten().food == s.food
            &&& s.eaten().grow_events.len() == 0
            &&& s.eaten().grown().body == s.body
        },
        s.eaten().grown().grow_events.len() == 0,
{
    broadcast use vstd::seq_lib::group_filter_ensures;

    let item = Food { position: s.head() };
    let e = s.eaten();
    lemma_one_item_per_cell(s.food, s.head());
    if e.food.contains(item) {
        let i = choose|i: int| 0 <= i < e.food.len() && e.food[i] == item;
        assert(away_from(s.head())(e.food[i]));
    }
    if s.food.contains(item) {
        assert(e.grow_events =~= seq![GrowEvent { position: s.tail() }]);
        assert(e.grown().body =~= s.body.push(s.tail()));
    } else {
        assert(e.grow_events =~= Seq::<GrowEvent>::empty());
        assert(e.grown().body =~= s.body);
    }
}

/// Growth lags a meal by one tick. A tick that starts with nothing queued keeps the
/// chain's length, whether or not the head lands on food. If it does, the item is
/// eaten and one entry is queued with the cell the tail is on after that tick; the
/// following tick lengthens the chain by exactly one segment, and after it the tail
/// is on the queued cell. If it does not, the following tick keeps the length too.
pub proof fn lemma_growth_lags_meal_by_one_tick(s: State)
    requires
        s.wf(),
        s.grow_events.len() == 0,
    ensures
        s.ticked().wf(),
        s.ticked().body == s.moved().body,
        s.ticked().body.len() == s.body.len(),
        s.food.contains(Food { position: s.moved().head() }) ==> {
            &&& s.ticked().food.len() == s.food.len() - 1
            &&& s.ticked().grow_events == seq![GrowEvent { position: s.ticked().tail() }]
            &&& s.ticked().ticked().body.len() == s.body.len() + 1
            &&& s.ticked().ticked().tail() == s.ticked().tail()
        },
        !s.food.contains(Food { position: s.moved().head() }) ==> {
            &&& s.ticked().food == s.food
            &&& s.ticked().grow_events.len() == 0
            &&& s.ticked().ticked().body.len() == s.body.len()
        },
{
    let m = s.grown().moved();
    assert(s.grown().body =~= s.body);
    assert(m.body == s.moved().body);
    lemma_steps_keep_wf(s);
    lemma_moved_wf(s.grown());
    lemma_meal_grows_chain_by_one(m);
    let t = s.ticked();
    let g = t.grown();
    if s.food.contains(Food { position: s.moved().head() }) {
        assert(g.body == t.body.push(t.tail()));
        assert(g.body.drop_last() =~= t.body);
    }
}

/// A step and the step back along the opposite heading cancel, and steps along
/// different headings from one cell lead to different cells.
pub proof fn lemma_steps_differ(p: Position, a: Direction, b: Direction)
    requires
        p.in_arena(),
    ensures
        p.step(a).step(a.opposite()) == p,
        p.step(a) != p,
        a != b ==> p.step(a) != p.step(b),
{
}

/// A game starts in a well-formed and coherent state.
pub proof fn lemma_game_starts_coherent()
    ensures
        State::initial().wf(),
        State::initial().coherent(),
{
}

/// The creature never turns back on itself. Coherence is kept by requests, key
/// samples, food placed on a free cell and whole ticks; and in a coherent state a
/// tick takes the head to a neighbour of its cell that is not the cell of the
/// second segment, which the head came from.
pub proof fn lemma_head_never_turns_back(s: State)
    requires
        s.coherent(),
    ensures
        forall|direction: Direction| (#[trigger] s.requested(direction)).coherent(),
        forall|up: bool, right: bool, down: bool, left: bool|
            (#[trigger] s.steered(up, right, down, left)).coherent(),
        forall|cell: Position| s.is_free(cell) ==> (#[trigger] s.with_food(cell)).coherent(),
        s.ticked().coherent(),
        s.ticked().body[1] == s.head(),
        s.ticked().body[2] == s.body[1],
        s.ticked().head() != s.head(),
        s.ticked().head() != s.body[1],
{
    lemma_steps_keep_wf(s);
    let g = s.grown();
    let m = g.moved();
    let t = s.ticked();
    let head = s.body[0];
    let neck = s.body[1];
    assert(head.in_arena() && neck.in_arena());
    lemma_steps_differ(neck, s.heading.direction, s.heading.next_direction);
    lemma_steps_differ(head, s.heading.next_direction, s.heading.direction.opposite());
    assert(g.body[0] == head && g.body[1] == neck);
    assert forall|i: int, j: int| 0 <= i && j == i + 1 && j < g.body.len() implies touches(
        #[trigger] g.body[i],
        #[trigger] g.body[j],
    ) by {
        if j < s.body.len() {
            assert(g.body[i] == s.body[i] && g.body[j] == s.body[j]);
        } else {
            assert(g.body[j] == s.grow_events[j - s.body.len()].position);
            if i < s.body.len() {
                assert(g.body[i] == s.body[i]);
            } else {
                assert(g.body[i] == s.grow_events[i - s.body.len()].position);
            }
        }
    }
    assert forall|i: int, j: int| 0 <= i && j == i + 1 && j < m.body.len() implies touches(
        #[trigger] m.body[i],
        #[trigger] m.body[j],
    ) by {
        if i > 0 {
            assert(m.body[i] == g.body[i - 1] && m.body[j] == g.body[i]);
        } else {
            assert(m.body[1] == head);
        }
    }
    assert(m.body[1] == head && m.body[2] == neck);
    assert(t.body == m.body);
    assert forall|i: int| 0 <= i < t.grow_events.len() implies (#[trigger] t.grow_events[i]).position
        == t.tail() by {}
    assert forall|cell: Position| s.is_free(cell) implies (#[trigger] s.with_food(cell)).coherent() by {}
}

} // verus!
