//! A reversible circular order over a fixed set of elements: the turn
//! sequencer of a game.

use vstd::arithmetic::div_mod::{
    lemma_add_mod_noop_right, lemma_mod_equivalence, lemma_mod_self_0, lemma_small_mod,
};
use vstd::prelude::*;

verus! {

/// The direction the circular order is walked in.
#[derive(Copy, Clone, PartialEq, Eq, Structural, Debug)]
pub enum Direction {
    Clockwise,
    CounterClockwise,
}

impl Direction {
    /// The opposite direction.
    pub open spec fn spec_reverse(self) -> Direction {
        match self {
            Direction::Clockwise => Direction::CounterClockwise,
            Direction::CounterClockwise => Direction::Clockwise,
        }
    }

    /// Returns the opposite direction.
    pub fn get_reverse(&self) -> (r: Direction)
        ensures
            r == self.spec_reverse(),
    {
        match self {
            Direction::Clockwise => Direction::CounterClockwise,
            Direction::CounterClockwise => Direction::Clockwise,
        }
    }
}

/// The position one advance reaches from position `i` in a circle of
/// `len` positions: one step forward or backward, wrapping around.
pub open spec fn spec_next_index(i: int, dir: Direction, len: int) -> int {
    match dir {
        Direction::Clockwise => if i + 1 == len {
            0
        } else {
            i + 1
        },
        Direction::CounterClockwise => if i == 0 {
            len - 1
        } else {
            i - 1
        },
    }
}

/// The position reached after `k` advances from position `i`.
pub open spec fn spec_advance(i: int, dir: Direction, len: int, k: nat) -> int
    decreases k,
{
    if k == 0 {
        i
    } else {
        spec_next_index(spec_advance(i, dir, len, (k - 1) as nat), dir, len)
    }
}

/// Closed form of `spec_advance`: `k` clockwise advances land on
/// `(i + k) % len`, `k` counter-clockwise advances on `(i - k) % len`.
pub proof fn lemma_advance_closed_form(i: int, dir: Direction, len: int, k: nat)
    requires
        0 <= i < len,
    ensures
        dir == Direction::Clockwise ==> spec_advance(i, dir, len, k) == (i + k) % len,
        dir == Direction::CounterClockwise ==> spec_advance(i, dir, len, k) == (i - k) % len,
        0 <= spec_advance(i, dir, len, k) < len,
    decreases k,
{
    if k == 0 {
        lemma_small_mod(i as nat, len as nat);
    } else {
        lemma_advance_closed_form(i, dir, len, (k - 1) as nat);
        let v = spec_advance(i, dir, len, (k - 1) as nat);
        match dir {
            Direction::Clockwise => {
                lemma_add_mod_noop_right(1, i + k - 1, len);
                assert((1 + v) % len == (i + k) % len);
                if v + 1 == len {
                    lemma_mod_self_0(len);
                } else {
                    lemma_small_mod((v + 1) as nat, len as nat);
                }
            },
            Direction::CounterClockwise => {
                lemma_add_mod_noop_right(-1, i - (k - 1), len);
                assert((-1 + (i - (k - 1)) % len) % len == (-1 + (i - (k - 1))) % len);
                assert(v == (i - (k - 1)) % len);
                assert((-1 + v) % len == (i - k) % len);
                if v == 0 {
                    vstd::arithmetic::div_mod::lemma_mod_multiples_basic(-1, len);
                    assert((-1 * len) % len == 0);
                    assert((-1 - (len - 1)) % len == 0);
                    lemma_mod_equivalence(-1, len - 1, len);
                    assert((-1) % len == (len - 1) % len);
                    lemma_small_mod((len - 1) as nat, len as nat);
                    assert((i - k) % len == len - 1);
                } else {
                    lemma_small_mod((v - 1) as nat, len as nat);
                    assert((i - k) % len == v - 1);
                }
            },
        }
    }
}

/// Walking a circle of `len` positions with no reversal, `len`
/// consecutive advances visit every position exactly once and come
/// back to where they started.
pub proof fn lemma_ring_cycle(i: int, dir: Direction, len: int)
    requires
        0 <= i < len,
    ensures
        forall|a: nat, b: nat| a < b <= len ==> #[trigger] spec_advance(i, dir, len, a)
            != #[trigger] spec_advance(i, dir, len, b) || b - a == len,
        spec_advance(i, dir, len, len as nat) == i,
{
    assert forall|a: nat, b: nat|
        a < b <= len implies spec_advance(i, dir, len, a) != spec_advance(i, dir, len, b) || b - a
        == len by {
        lemma_advance_closed_form(i, dir, len, a);
        lemma_advance_closed_form(i, dir, len, b);
        if b - a < len {
            match dir {
                Direction::Clockwise => {
                    if (i + a) % len == (i + b) % len {
                        lemma_mod_equivalence(i + b, i + a, len);
                        lemma_small_mod((b - a) as nat, len as nat);
                        assert(false);
                    }
                },
                Direction::CounterClockwise => {
                    if (i - a) % len == (i - b) % len {
                        lemma_mod_equivalence(i - a, i - b, len);
                        lemma_small_mod((b - a) as nat, len as nat);
                        assert(false);
                    }
                },
            }
        }
    }
    lemma_advance_closed_form(i, dir, len, len as nat);
    match dir {
        Direction::Clockwise => {
            vstd::arithmetic::div_mod::lemma_mod_multiples_basic(1, len);
            lemma_mod_equivalence(i + len, i, len);
            lemma_small_mod(i as nat, len as nat);
        },
        Direction::CounterClockwise => {
            vstd::arithmetic::div_mod::lemma_mod_multiples_basic(-1, len);
            lemma_mod_equivalence(i - len, i, len);
            lemma_small_mod(i as nat, len as nat);
        },
    }
}

/// Walking a circle of `len` positions with no reversal, every
/// position `p` is reached within the first `len` advances.
pub proof fn lemma_ring_visits_every_position(i: int, dir: Direction, len: int, p: int)
    requires
        0 <= i < len,
        0 <= p < len,
    ensures
        exists|k: nat| 1 <= k <= len && #[trigger] spec_advance(i, dir, len, k) == p,
{
    match dir {
            Direction::Clockwise => {
                let k = if p > i {
                    (p - i) as nat
                } else {
                    (p - i + len) as nat
                };
                lemma_advance_closed_form(i, dir, len, k);
                if p > i {
                    vstd::arithmetic::div_mod::lemma_mod_multiples_basic(0, len);
                } else {
                    vstd::arithmetic::div_mod::lemma_mod_multiples_basic(1, len);
                }
                lemma_mod_equivalence(i + k, p, len);
                lemma_small_mod(p as nat, len as nat);
                assert(spec_advance(i, dir, len, k) == p);
            },
            Direction::CounterClockwise => {
                let k = if p < i {
                    (i - p) as nat
                } else {
                    (i - p + len) as nat
                };
                lemma_advance_closed_form(i, dir, len, k);
                if p < i {
                    vstd::arithmetic::div_mod::lemma_mod_multiples_basic(0, len);
                } else {
                    vstd::arithmetic::div_mod::lemma_mod_multiples_basic(-1, len);
                }
                lemma_mod_equivalence(i - k, p, len);
                lemma_small_mod(p as nat, len as nat);
                assert(spec_advance(i, dir, len, k) == p);
            },
        }
}

/// A reversal between two advances sends the second advance back to
/// the position the first one started from.
pub proof fn lemma_reverse_steps_back(i: int, dir: Direction, len: int)
    requires
        0 <= i < len,
    ensures
        spec_next_index(spec_next_index(i, dir, len), dir.spec_reverse(), len) == i,
{
}

/// A circular sequence of elements with a cursor and a direction of
/// travel. The cursor starts on the last position so that the first
/// advance lands on position zero.
#[derive(Debug)]
pub struct ReversibleRing<T> {
    vec: Vec<T>,
    index: usize,
    direction: Direction,
}

impl<T> View for ReversibleRing<T> {
    type V = Seq<T>;

    closed spec fn view(&self) -> Seq<T> {
        self.vec@
    }
}

impl<T> ReversibleRing<T> {
    /// The position of the cursor.
    pub closed spec fn cursor(self) -> int {
        self.index as int
    }

    /// The direction the ring is being walked in.
    pub closed spec fn heading(self) -> Direction {
        self.direction
    }

    /// The ring is well formed: it is not empty and the cursor is a
    /// valid position.
    pub open spec fn wf(self) -> bool {
        self@.len() > 0 && 0 <= self.cursor() < self@.len()
    }

    fn new(vec: Vec<T>) -> (r: ReversibleRing<T>)
        requires
            vec@.len() > 0,
        ensures
            r@ =~= vec@,
            r.cursor() == vec@.len() - 1,
            r.heading() == Direction::Clockwise,
            r.wf(),
    {
        let index = vec.len() - 1;
        ReversibleRing { vec, index, direction: Direction::Clockwise }
    }

    /// Builds a ring over the given elements, in order.
    pub fn from_iter(items: Vec<T>) -> (r: ReversibleRing<T>)
        requires
            items@.len() > 0,
        ensures
            r@ =~= items@,
            r.cursor() == items@.len() - 1,
            r.heading() == Direction::Clockwise,
            r.wf(),
    {
        Self::new(items)
    }

    /// The number of elements on the ring.
    pub fn len(&self) -> (r: usize)
        ensures
            r == self@.len(),
    {
        self.vec.len()
    }

    /// Advances the cursor one position in the current direction and
    /// returns the position it landed on: whose turn it now is.
    pub fn next(&mut self) -> (i: usize)
        requires
            old(self).wf(),
        ensures
            final(self)@ == old(self)@,
            final(self).heading() == old(self).heading(),
            final(self).cursor() == spec_next_index(
                old(self).cursor(),
                old(self).heading(),
                old(self)@.len() as int,
            ),
            i == final(self).cursor(),
            final(self).wf(),
    {
        self.skip();
        self.index
    }

    /// Advances the cursor without yielding a turn: consumes the
    /// skipped player's turn.
    pub fn skip(&mut self)
        requires
            old(self).wf(),
        ensures
            final(self)@ == old(self)@,
            final(self).heading() == old(self).heading(),
            final(self).cursor() == spec_next_index(
                old(self).cursor(),
                old(self).heading(),
                old(self)@.len() as int,
            ),
            final(self).wf(),
    {
        let len = self.vec.len();
        match self.direction {
            Direction::Clockwise => {
                if self.index + 1 == len {
                    self.index = 0;
                } else {
                    self.index = self.index + 1;
                }
            },
            Direction::CounterClockwise => {
                if self.index == 0 {
                    self.index = len - 1;
                } else {
                    self.index = self.index - 1;
                }
            },
        }
    }

    /// Flips the direction of travel; the cursor does not move.
    pub fn reverse(&mut self)
        ensures
            final(self)@ == old(self)@,
            final(self).cursor() == old(self).cursor(),
            final(self).heading() == old(self).heading().spec_reverse(),
    {
        self.direction = self.direction.get_reverse();
    }

    /// Removes and returns the element at position `i`; the positions
    /// above it shift down until it is put back.
    pub fn remove_at(&mut self, i: usize) -> (r: T)
        requires
            i < old(self)@.len(),
        ensures
            r == old(self)@[i as int],
            final(self)@ =~= old(self)@.remove(i as int),
            final(self).cursor() == old(self).cursor(),
            final(self).heading() == old(self).heading(),
    {
        self.vec.remove(i)
    }

    /// Puts an element back at position `i`.
    pub fn insert_at(&mut self, i: usize, t: T)
        requires
            i <= old(self)@.len(),
        ensures
            final(self)@ =~= old(self)@.insert(i as int, t),
            final(self).cursor() == old(self).cursor(),
            final(self).heading() == old(self).heading(),
    {
        self.vec.insert(i, t)
    }

    /// Returns a reference to the element at position `i`.
    pub fn borrow_at(&self, i: usize) -> (r: &T)
        requires
            i < self@.len(),
        ensures
            *r == self@[i as int],
    {
        &self.vec[i]
    }
}

} // verus!
