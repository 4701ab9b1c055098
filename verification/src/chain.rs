//! The segment chain: the creature's body as linked cells, and the movement engine.
//!
//! Segments live in an arena in the order in which they were created. Each holds
//! the arena slot of the next segment toward the tail, so the body's order is
//! given by the links and not by the slots.

use vstd::prelude::*;
use vstd::set_lib::{lemma_int_range, lemma_subset_equality, set_int_range};
use crate::grid::{Direction, Position};
use crate::latch::SnakeHead;

verus! {

/// A body cell: its position and the arena slot of the next cell toward the tail.
/// The tail is the one segment without a next.
#[derive(Clone, Copy, Debug, PartialEq, Eq)]
pub struct SnakeSegment {
    pub position: Position,
    pub next: Option<usize>,
}

/// The creature: its chain of segments and the direction latch its head carries.
pub struct Snake {
    segments: Vec<SnakeSegment>,
    head: usize,
    heading: SnakeHead,
    /// The arena slots in body order, head first.
    order: Ghost<Seq<usize>>,
}

/// The body after one movement tick that takes the head to `new_head`: every other
/// segment stands where its predecessor stood, and the old tail cell is vacated.
pub open spec fn shifted(body: Seq<Position>, new_head: Position) -> Seq<Position> {
    seq![new_head] + body.drop_last()
}

impl Snake {
    /// The arena: every segment, in the order of creation.
    pub closed spec fn arena(&self) -> Seq<SnakeSegment> {
        self.segments@
    }

    /// The arena slot of the head segment.
    pub closed spec fn head_slot(&self) -> usize {
        self.head
    }

    /// The arena slots in body order, head first.
    pub closed spec fn order(&self) -> Seq<usize> {
        self.order@
    }

    /// The links form one path without a cycle: it starts at the head, passes
    /// through as many distinct segments as the arena holds, each linked to the
    /// one that follows, and ends at a segment without a next.
    pub open spec fn linked(&self) -> bool {
        let order = self.order();
        &&& order.len() == self.arena().len()
        &&& order.len() >= 1
        &&& forall|i: int| 0 <= i < order.len() ==> #[trigger] order[i] < order.len()
        &&& order.no_duplicates()
        &&& order[0] == self.head_slot()
        &&& forall|i: int, j: int|
            0 <= i && j == i + 1 && j < order.len() ==> self.arena()[#[trigger] order[i] as int].next
                == Some(#[trigger] order[j])
        &&& self.arena()[order[order.len() - 1] as int].next is None
    }

    /// The positions of the segments, head first, tail last.
    pub open spec fn body(&self) -> Seq<Position> {
        Seq::new(self.order().len(), |i: int| self.arena()[self.order()[i] as int].position)
    }

    /// The direction latch carried by the head.
    pub closed spec fn heading(&self) -> SnakeHead {
        self.heading
    }

    /// The chain is one acyclic path of at least three segments, all inside the
    /// arena, and the pending heading is no reversal.
    pub open spec fn wf(&self) -> bool {
        &&& self.linked()
        &&& self.body().len() >= 3
        &&& forall|i: int| 0 <= i < self.body().len() ==> (#[trigger] self.body()[i]).in_arena()
        &&& self.heading().wf()
    }

    /// What the segment at place `k` of the body links to: the segment at the
    /// following place, or nothing when it is the last.
    proof fn lemma_link(&self, k: int)
        requires
            self.linked(),
            0 <= k < self.order@.len(),
        ensures
            self.order@[k] < self.segments@.len(),
            k + 1 < self.order@.len() ==> self.segments@[self.order@[k] as int].next == Some(
                self.order@[k + 1],
            ) && self.order@[k + 1] < self.segments@.len(),
            k + 1 == self.order@.len() ==> self.segments@[self.order@[k] as int].next is None,
    {
        if k + 1 < self.order@.len() {
            assert(self.segments@[self.order@[k] as int].next == Some(self.order@[k + 1]));
        }
    }

    /// Follows the links from the head to the segment without a next.
    fn find_tail(&self) -> (tail: usize)
        requires
            self.linked(),
        ensures
            tail < self.segments@.len(),
            tail == self.order@[self.order@.len() - 1],
    {
        let mut cursor = self.head;
        let ghost mut k: int = 0;
        loop
            invariant
                self.linked(),
                0 <= k < self.order@.len(),
                cursor == self.order@[k],
            ensures
                k == self.order@.len() - 1,
            decreases self.order@.len() - k,
        {
            proof {
                self.lemma_link(k);
            }
            match self.segments[cursor].next {
                Some(next) => {
                    cursor = next;
                    proof {
                        k = k + 1;
                    }
                },
                None => {
                    break ;
                },
            }
        }
        cursor
    }

    /// Number of segments.
    pub fn len(&self) -> (n: usize)
        requires
            self.wf(),
        ensures
            n == self.body().len(),
    {
        self.segments.len()
    }

    /// The arena of segments, in the order of creation.
    pub fn segments(&self) -> (segments: &Vec<SnakeSegment>)
        ensures
            segments@ == self.arena(),
    {
        &self.segments
    }

    /// The arena slot of the head segment.
    pub fn head_index(&self) -> (slot: usize)
        ensures
            slot == self.head_slot(),
    {
        self.head
    }

    /// The heading of the last movement tick.
    pub fn direction(&self) -> (d: Direction)
        ensures
            d == self.heading().direction,
    {
        self.heading.direction
    }

    /// The heading that the next movement tick will take up.
    pub fn next_direction(&self) -> (d: Direction)
        ensures
            d == self.heading().next_direction,
    {
        self.heading.next_direction
    }

    /// Where the head is.
    pub fn head_position(&self) -> (p: Position)
        requires
            self.wf(),
        ensures
            p == self.body()[0],
    {
        self.segments[self.head].position
    }

    /// Where the tail is.
    pub fn tail_position(&self) -> (p: Position)
        requires
            self.wf(),
        ensures
            p == self.body().last(),
    {
        let tail = self.find_tail();
        self.segments[tail].position
    }

    /// The positions of all segments, head first.
    pub fn positions(&self) -> (cells: Vec<Position>)
        requires
            self.wf(),
        ensures
            cells@ == self.body(),
    {
        let mut cells: Vec<Position> = Vec::new();
        let mut cursor = self.head;
        let ghost mut k: int = 0;
        loop
            invariant_except_break
                0 <= k < self.order@.len(),
                cursor == self.order@[k],
                cells@.len() == k,
            invariant
                self.linked(),
                forall|j: int| 0 <= j < cells@.len() ==> cells@[j] == self.body()[j],
            ensures
                cells@.len() == self.order@.len(),
            decreases self.order@.len() - k,
        {
            proof {
                self.lemma_link(k);
            }
            let segment = self.segments[cursor];
            cells.push(segment.position);
            proof {
                k = k + 1;
            }
            match segment.next {
                Some(next) => {
                    cursor = next;
                },
                None => {
                    break ;
                },
            }
        }
        assert(cells@ =~= self.body());
        cells
    }

    /// Tells whether some segment lies on `cell`.
    pub fn occupies(&self, cell: Position) -> (hit: bool)
        requires
            self.wf(),
        ensures
            hit == self.body().contains(cell),
    {
        let mut hit = false;
        let mut cursor = self.head;
        let ghost mut k: int = 0;
        loop
            invariant_except_break
                0 <= k < self.order@.len(),
                cursor == self.order@[k],
                forall|j: int| 0 <= j < k ==> self.body()[j] != cell,
                !hit,
            invariant
                self.linked(),
            ensures
                hit == self.body().contains(cell),
            decreases self.order@.len() - k,
        {
            proof {
                self.lemma_link(k);
            }
            let segment = self.segments[cursor];
            if segment.position == cell {
                hit = true;
                assert(self.body()[k] == cell);
                break ;
            }
            match segment.next {
                Some(next) => {
                    cursor = next;
                    proof {
                        k = k + 1;
                    }
                },
                None => {
                    break ;
                },
            }
        }
        hit
    }

    /// Asks for `direction` as the next heading; a reversal of the heading in
    /// force is dropped. The body is left alone.
    pub fn request(&mut self, direction: Direction)
        requires
            old(self).wf(),
        ensures
            final(self).wf(),
            final(self).heading() == old(self).heading().requested(direction),
            final(self).body() == old(self).body(),
            final(self).arena() == old(self).arena(),
            final(self).order() == old(self).order(),
            final(self).head_slot() == old(self).head_slot(),
    {
        self.heading.request(direction);
    }

    /// Takes one sample of the direction keys and requests the first usable one in
    /// the order up, right, down, left. The body is left alone.
    pub fn handle_input(&mut self, up: bool, right: bool, down: bool, left: bool)
        requires
            old(self).wf(),
        ensures
            final(self).wf(),
            final(self).heading() == old(self).heading().steered(up, right, down, left),
            final(self).body() == old(self).body(),
            final(self).arena() == old(self).arena(),
            final(self).order() == old(self).order(),
            final(self).head_slot() == old(self).head_slot(),
    {
        self.heading.handle_input(up, right, down, left);
    }

    /// One movement tick: the pending heading comes into force, the head steps
    /// one cell along it, and every other segment takes the cell that its
    /// predecessor has just left. Only positions change: every segment keeps its
    /// slot and its link.
    pub fn move_snake(&mut self)
        requires
            old(self).wf(),
        ensures
            final(self).wf(),
            final(self).heading() == old(self).heading().committed(),
            final(self).body() == shifted(
                old(self).body(),
                old(self).body()[0].step(old(self).heading().next_direction),
            ),
            final(self).order() == old(self).order(),
            final(self).head_slot() == old(self).head_slot(),
            final(self).arena().len() == old(self).arena().len(),
            forall|slot: int|
                0 <= slot < final(self).arena().len() ==> (#[trigger] final(self).arena()[slot]).next
                    == old(self).arena()[slot].next,
    {
        let direction = self.heading.commit();
        let mut cursor = self.head;
        assert(old(self).body()[0].in_arena());
        let mut next_position = self.segments[cursor].position.do_move(direction);
        let ghost order = self.order@;
        let ghost before = old(self).body();
        let ghost after = shifted(before, next_position);
        let ghost mut k: int = 0;
        loop
            invariant_except_break
                k < order.len(),
                cursor == order[k],
                next_position == after[k],
            invariant
                old(self).linked(),
                order == old(self).order@,
                before == old(self).body(),
                after.len() == before.len() == order.len(),
                after[0].in_arena(),
                forall|j: int| 1 <= j < order.len() ==> after[j] == before[j - 1],
                forall|j: int| 0 <= j < order.len() ==> (#[trigger] before[j]).in_arena(),
                self.order == old(self).order,
                self.head == old(self).head,
                self.heading == old(self).heading.committed(),
                self.segments@.len() == old(self).segments@.len(),
                0 <= k <= order.len(),
                forall|i: int|
                    0 <= i < self.segments@.len() ==> (#[trigger] self.segments@[i]).next == old(
                        self,
                    ).segments@[i].next,
                forall|j: int|
                    0 <= j < order.len() ==> (#[trigger] self.segments@[order[j] as int]).position
                        == if j < k {
                        after[j]
                    } else {
                        before[j]
                    },
            ensures
                k == order.len(),
            decreases order.len() - k,
        {
            proof {
                old(self).lemma_link(k);
            }
            let segment = self.segments[cursor];
            self.segments.set(cursor, SnakeSegment { position: next_position, next: segment.next });
            next_position = segment.position;
            proof {
                k = k + 1;
            }
            match segment.next {
                Some(next) => {
                    cursor = next;
                },
                None => {
                    break ;
                },
            }
        }
        assert(self.body() =~= after);
    }

    /// Appends a new tail segment at `position`. The segment is created without a
    /// next in a fresh slot at the end of the arena, and the old tail's next is set
    /// to that slot; nothing else changes.
    pub fn grow(&mut self, position: Position)
        requires
            old(self).wf(),
            position.in_arena(),
        ensures
            final(self).wf(),
            final(self).heading() == old(self).heading(),
            final(self).body() == old(self).body().push(position),
            final(self).head_slot() == old(self).head_slot(),
            final(self).order() == old(self).order().push(old(self).arena().len() as usize),
            final(self).arena() == old(self).arena().update(
                old(self).order().last() as int,
                SnakeSegment {
                    position: old(self).body().last(),
                    next: Some(old(self).arena().len() as usize),
                },
            ).push(SnakeSegment { position, next: None }),
    {
        let tail = self.find_tail();
        let slot = self.segments.len();
        let last = self.segments[tail];
        self.segments.push(SnakeSegment { position, next: None });
        self.segments.set(tail, SnakeSegment { position: last.position, next: Some(slot) });
        let order: Ghost<Seq<usize>> = Ghost(self.order@.push(slot));
        self.order = order;
        assert(self.body() =~= old(self).body().push(position));
    }
}

/// Seeds the creature: three segments in a row at the middle of the arena, the
/// head at the left end, heading left. The tail is created first and the head last.
pub fn spawn_snake() -> (snake: Snake)
    ensures
        snake.wf(),
        snake.body() == seq![
            Position { x: 12, y: 12 },
            Position { x: 13, y: 12 },
            Position { x: 14, y: 12 },
        ],
        snake.heading() == (SnakeHead {
            direction: Direction::Left,
            next_direction: Direction::Left,
        }),
        snake.arena() == seq![
            SnakeSegment { position: Position { x: 14, y: 12 }, next: None },
            SnakeSegment { position: Position { x: 13, y: 12 }, next: Some(0) },
            SnakeSegment { position: Position { x: 12, y: 12 }, next: Some(1) },
        ],
        snake.order() == seq![2usize, 1usize, 0usize],
        snake.head_slot() == 2,
{
    let mut segments: Vec<SnakeSegment> = Vec::new();
    segments.push(SnakeSegment { position: Position { x: 14, y: 12 }, next: None });
    segments.push(SnakeSegment { position: Position { x: 13, y: 12 }, next: Some(0) });
    segments.push(SnakeSegment { position: Position { x: 12, y: 12 }, next: Some(1) });
    let ghost slots: Seq<usize> = seq![2usize, 1usize, 0usize];
    let order: Ghost<Seq<usize>> = Ghost(slots);
    let snake = Snake { segments, head: 2, heading: SnakeHead::new(Direction::Left), order };
    assert(snake.body() =~= seq![
        Position { x: 12, y: 12 },
        Position { x: 13, y: 12 },
        Position { x: 14, y: 12 },
    ]);
    assert(snake.arena() =~= seq![
        SnakeSegment { position: Position { x: 14, y: 12 }, next: None },
        SnakeSegment { position: Position { x: 13, y: 12 }, next: Some(0) },
        SnakeSegment { position: Position { x: 12, y: 12 }, next: Some(1) },
    ]);
    snake
}

/// A movement tick moves every cell of the body and none twice: the body keeps
/// its length, the head is at the new cell, and each other segment is where the
/// segment before it was.
pub proof fn lemma_shift_moves_each_segment_once(body: Seq<Position>, new_head: Position)
    requires
        body.len() >= 1,
    ensures
        shifted(body, new_head).len() == body.len(),
        shifted(body, new_head)[0] == new_head,
        forall|i: int| 1 <= i < body.len() ==> shifted(body, new_head)[i] == body[i - 1],
{
}

/// In a sequence of `n` distinct numbers below `n`, every number below `n` occurs.
proof fn lemma_distinct_slots_cover(order: Seq<usize>)
    requires
        forall|i: int| 0 <= i < order.len() ==> #[trigger] order[i] < order.len(),
        order.no_duplicates(),
    ensures
        forall|slot: usize| slot < order.len() ==> order.contains(slot),
{
    broadcast use vstd::seq_lib::group_seq_properties;

    let n = order.len() as int;
    let slots = order.map_values(|slot: usize| slot as int);
    assert(slots.no_duplicates());
    slots.unique_seq_to_set();
    lemma_int_range(0, n);
    let range = set_int_range(0, n);
    assert forall|x: int| slots.to_set().contains(x) implies range.contains(x) by {
        let i = choose|i: int| 0 <= i < slots.len() && slots[i] == x;
        assert(slots[i] == order[i]);
    }
    lemma_subset_equality(slots.to_set(), range);
    assert forall|slot: usize| slot < order.len() implies order.contains(slot) by {
        assert(range.contains(slot as int));
        assert(slots.contains(slot as int));
        let i = choose|i: int| 0 <= i < slots.len() && slots[i] == slot as int;
        assert(order[i] == slot);
    }
}

/// The shape of a linked chain: every segment of the arena lies on the path from
/// the head, exactly one segment is the tail (it alone has no next), no segment
/// links to the head, and no two segments link to the same one.
pub proof fn lemma_one_head_one_tail(snake: &Snake)
    requires
        snake.linked(),
    ensures
        forall|slot: usize| slot < snake.arena().len() ==> snake.order().contains(slot),
        forall|slot: int|
            0 <= slot < snake.arena().len() ==> ((#[trigger] snake.arena()[slot]).next is None
                <==> slot == snake.order().last()),
        forall|slot: int|
            0 <= slot < snake.arena().len() ==> (#[trigger] snake.arena()[slot]).next != Some(
                snake.head_slot(),
            ),
        forall|a: int, b: int|
            0 <= a < b < snake.arena().len() && (#[trigger] snake.arena()[a]).next is Some
                ==> snake.arena()[a].next != (#[trigger] snake.arena()[b]).next,
{
    let order = snake.order();
    let arena = snake.arena();
    lemma_distinct_slots_cover(order);
    assert(arena.len() <= usize::MAX) by {
        assert(snake.segments@.len() == snake.segments.len());
    }
    assert forall|slot: int| 0 <= slot < arena.len() implies ((#[trigger] arena[slot]).next is None
        <==> slot == order.last()) by {
        assert(order.contains(slot as usize));
        let k = choose|k: int| 0 <= k < order.len() && order[k] == slot as usize;
        snake.lemma_link(k);
    }
    assert forall|slot: int| 0 <= slot < arena.len() implies (#[trigger] arena[slot]).next != Some(
        snake.head_slot(),
    ) by {
        assert(order.contains(slot as usize));
        let k = choose|k: int| 0 <= k < order.len() && order[k] == slot as usize;
        snake.lemma_link(k);
    }
    assert forall|a: int, b: int|
        0 <= a < b < arena.len() && (#[trigger] arena[a]).next is Some implies arena[a].next != (
    #[trigger] arena[b]).next by {
        assert(order.contains(a as usize));
        assert(order.contains(b as usize));
        let i = choose|i: int| 0 <= i < order.len() && order[i] == a as usize;
        let j = choose|j: int| 0 <= j < order.len() && order[j] == b as usize;
        snake.lemma_link(i);
        snake.lemma_link(j);
    }
}

} // verus!
