//! The direction latch: the heading in force and the heading asked for next.

use vstd::prelude::*;
use crate::grid::Direction;

verus! {

/// The head's direction state. `direction` is the heading of the last movement tick;
/// `next_direction` is the heading that the next tick will take up.
#[derive(Clone, Copy, Debug, PartialEq, Eq, Structural)]
pub struct SnakeHead {
    pub direction: Direction,
    pub next_direction: Direction,
}

impl SnakeHead {
    /// The pending heading is no reversal of the heading in force.
    pub open spec fn wf(self) -> bool {
        self.next_direction != self.direction.opposite()
    }

    /// The latch after a request for `direction`: the pending heading is replaced
    /// unless the request would turn the creature back on itself.
    pub open spec fn requested(self, direction: Direction) -> SnakeHead {
        if direction == self.direction.opposite() {
            self
        } else {
            SnakeHead { direction: self.direction, next_direction: direction }
        }
    }

    /// The latch after every request of `requests` was made, first to last.
    pub open spec fn requested_all(self, requests: Seq<Direction>) -> SnakeHead
        decreases requests.len(),
    {
        if requests.len() == 0 {
            self
        } else {
            self.requested_all(requests.drop_last()).requested(requests.last())
        }
    }

    /// The latch after a commit: the pending heading comes into force.
    pub open spec fn committed(self) -> SnakeHead {
        SnakeHead { direction: self.next_direction, next_direction: self.next_direction }
    }

    /// The latch after one sample of the four direction keys. The keys are
    /// looked at in the order up, right, down, left; the first one that is held
    /// down and does not reverse the heading in force becomes the pending heading.
    pub open spec fn steered(self, up: bool, right: bool, down: bool, left: bool) -> SnakeHead {
        if up && self.direction != Direction::Down {
            self.requested(Direction::Up)
        } else if right && self.direction != Direction::Left {
            self.requested(Direction::Right)
        } else if down && self.direction != Direction::Up {
            self.requested(Direction::Down)
        } else if left && self.direction != Direction::Right {
            self.requested(Direction::Left)
        } else {
            self
        }
    }

    /// A latch with `heading` both in force and pending.
    pub fn new(heading: Direction) -> (r: SnakeHead)
        ensures
            r == (SnakeHead { direction: heading, next_direction: heading }),
            r.wf(),
    {
        SnakeHead { direction: heading, next_direction: heading }
    }

    /// Asks for `direction` as the next heading. A request for the opposite of the
    /// heading in force is dropped; any other replaces the pending heading.
    pub fn request(&mut self, direction: Direction)
        ensures
            *final(self) == old(self).requested(direction),
            old(self).wf() ==> final(self).wf(),
    {
        if direction != self.direction.opposite() {
            self.next_direction = direction;
        }
    }

    /// Brings the pending heading into force and returns it.
    pub fn commit(&mut self) -> (heading: Direction)
        ensures
            *final(self) == old(self).committed(),
            heading == old(self).next_direction,
            final(self).wf(),
    {
        self.direction = self.next_direction;
        self.direction
    }

    /// Takes one sample of the direction keys, each `true` while held down, and
    /// requests the first usable one in the order up, right, down, left.
    pub fn handle_input(&mut self, up: bool, right: bool, down: bool, left: bool)
        ensures
            *final(self) == old(self).steered(up, right, down, left),
            old(self).wf() ==> final(self).wf(),
    {
        if up && self.direction != Direction::Down {
            self.next_direction = Direction::Up;
        } else if right && self.direction != Direction::Left {
            self.next_direction = Direction::Right;
        } else if down && self.direction != Direction::Up {
            self.next_direction = Direction::Down;
        } else if left && self.direction != Direction::Right {
            self.next_direction = Direction::Left;
        }
    }
}

/// A request for the reverse of the heading in force changes nothing: the latch is
/// as it was, and the next commit gives what it would have given without the request.
pub proof fn lemma_reversal_is_ignored(latch: SnakeHead, direction: Direction)
    requires
        direction == latch.direction.opposite(),
    ensures
        latch.requested(direction) == latch,
        latch.requested(direction).committed() == latch.committed(),
{
}

/// Whatever requests arrive between two commits, the heading in force stays, the
/// last request that was no reversal is the one pending (the earlier pending heading
/// if there was none), and so the next commit never reverses the heading.
pub proof fn lemma_last_valid_request_wins(latch: SnakeHead, requests: Seq<Direction>)
    requires
        latch.wf(),
    ensures
        latch.requested_all(requests).wf(),
        latch.requested_all(requests).direction == latch.direction,
        latch.requested_all(requests).committed().direction != latch.direction.opposite(),
        (forall|i: int| 0 <= i < requests.len() ==> requests[i] == latch.direction.opposite())
            ==> latch.requested_all(requests).next_direction == latch.next_direction,
        forall|i: int|
            0 <= i < requests.len() && requests[i] != latch.direction.opposite() && (forall|j: int|
                i < j < requests.len() ==> requests[j] == latch.direction.opposite())
                ==> latch.requested_all(requests).next_direction == requests[i],
    decreases requests.len(),
{
    if requests.len() > 0 {
        let earlier = requests.drop_last();
        lemma_last_valid_request_wins(latch, earlier);
        let reverse = latch.direction.opposite();
        if requests.last() == reverse {
            assert forall|i: int|
                0 <= i < requests.len() && requests[i] != reverse && (forall|j: int|
                    i < j < requests.len() ==> requests[j] == reverse)
                implies latch.requested_all(requests).next_direction == requests[i] by {
                assert(earlier[i] == requests[i]);
                assert forall|j: int| i < j < earlier.len() implies earlier[j] == reverse by {
                    assert(earlier[j] == requests[j]);
                }
            }
            if forall|i: int| 0 <= i < requests.len() ==> requests[i] == reverse {
                assert forall|i: int| 0 <= i < earlier.len() implies earlier[i] == reverse by {
                    assert(earlier[i] == requests[i]);
                }
            }
        } else {
            assert forall|i: int|
                0 <= i < requests.len() && requests[i] != reverse && (forall|j: int|
                    i < j < requests.len() ==> requests[j] == reverse)
                implies latch.requested_all(requests).next_direction == requests[i] by {
                if i < requests.len() - 1 {
                    assert(requests[requests.len() - 1] == reverse);
                }
            }
        }
    }
}

} // verus!
