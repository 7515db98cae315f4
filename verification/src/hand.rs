//! A player's hand: an unordered bag of cards.

use vstd::prelude::*;

use crate::card::Card;
use crate::rules::PlusStacking;

verus! {

/// A bag of cards owned by one player. Order carries no meaning, so
/// removal may swap with the last element.
#[derive(Debug)]
pub struct Hand {
    cards: Vec<Card>,
}

impl Clone for Hand {
    /// An exact copy: the clone holds the same cards.
    fn clone(&self) -> (r: Self)
        ensures
            r@ =~= self@,
    {
        let mut cards: Vec<Card> = Vec::new();
        let mut i: usize = 0;
        while i < self.cards.len()
            invariant
                i <= self.cards@.len(),
                cards@ =~= self.cards@.subrange(0, i as int),
            decreases self.cards@.len() - i,
        {
            cards.push(self.cards[i]);
            i = i + 1;
        }
        Hand { cards }
    }
}

impl View for Hand {
    type V = Seq<Card>;

    closed spec fn view(&self) -> Seq<Card> {
        self.cards@
    }
}

impl Hand {
    /// Every card in the hand is well formed.
    pub open spec fn wf(self) -> bool {
        forall|i: int| 0 <= i < self@.len() ==> (#[trigger] self@[i]).wf()
    }

    /// Constructs a new, empty hand.
    pub fn new() -> (r: Hand)
        ensures
            r@ =~= Seq::<Card>::empty(),
    {
        Hand { cards: Vec::new() }
    }

    /// The number of cards held.
    pub fn len(&self) -> (r: usize)
        ensures
            r == self@.len(),
    {
        self.cards.len()
    }

    /// Returns every index of a card that stacks on the `target` card,
    /// in increasing order and without repetition.
    pub fn all_stackable_indices(&self, target: &Card) -> (r: Vec<usize>)
        ensures
            forall|j: int| 0 <= j < r@.len() ==> (#[trigger] r@[j]) < self@.len()
                && self@[r@[j] as int].spec_stacks_on(*target),
            forall|i: int| 0 <= i < self@.len() && (#[trigger] self@[i]).spec_stacks_on(*target)
                ==> r@.contains(i as usize),
            forall|j1: int, j2: int| 0 <= j1 < j2 < r@.len() ==> r@[j1] < r@[j2],
    {
        let mut r: Vec<usize> = Vec::new();
        let mut i: usize = 0;
        while i < self.cards.len()
            invariant
                i <= self@.len(),
                forall|j: int| 0 <= j < r@.len() ==> (#[trigger] r@[j]) < i
                    && self@[r@[j] as int].spec_stacks_on(*target),
                forall|k: int| 0 <= k < i && (#[trigger] self@[k]).spec_stacks_on(*target)
                    ==> r@.contains(k as usize),
                forall|j1: int, j2: int| 0 <= j1 < j2 < r@.len() ==> r@[j1] < r@[j2],
            decreases self@.len() - i,
        {
            let ghost prev = r@;
            if self.cards[i].stacks_on(target) {
                r.push(i);
            }
            proof {
                assert forall|k: int|
                    0 <= k < i + 1 && (#[trigger] self@[k]).spec_stacks_on(
                        *target,
                    ) implies r@.contains(k as usize) by {
                    if k < i {
                        let j = choose|j: int| 0 <= j < prev.len() && prev[j] == k as usize;
                        assert(r@[j] == k as usize);
                    } else {
                        assert(r@.last() == k as usize);
                    }
                }
            }
            i = i + 1;
        }
        r
    }

    /// Returns every index of a card that plus-stacks on the `target`
    /// card under `rules`, in increasing order and without repetition.
    pub fn all_plus_stackable(&self, target: &Card, rules: &PlusStacking) -> (r: Vec<usize>)
        ensures
            forall|j: int| 0 <= j < r@.len() ==> (#[trigger] r@[j]) < self@.len()
                && self@[r@[j] as int].spec_plus_stacks_on(*target, *rules),
            forall|i: int| 0 <= i < self@.len() && (#[trigger] self@[i]).spec_plus_stacks_on(
                *target,
                *rules,
            ) ==> r@.contains(i as usize),
            forall|j1: int, j2: int| 0 <= j1 < j2 < r@.len() ==> r@[j1] < r@[j2],
    {
        let mut r: Vec<usize> = Vec::new();
        let mut i: usize = 0;
        while i < self.cards.len()
            invariant
                i <= self@.len(),
                forall|j: int| 0 <= j < r@.len() ==> (#[trigger] r@[j]) < i
                    && self@[r@[j] as int].spec_plus_stacks_on(*target, *rules),
                forall|k: int| 0 <= k < i && (#[trigger] self@[k]).spec_plus_stacks_on(
                    *target,
                    *rules,
                ) ==> r@.contains(k as usize),
                forall|j1: int, j2: int| 0 <= j1 < j2 < r@.len() ==> r@[j1] < r@[j2],
            decreases self@.len() - i,
        {
            let ghost prev = r@;
            if self.cards[i].plus_stacks_on(target, rules) {
                r.push(i);
            }
            proof {
                assert forall|k: int|
                    0 <= k < i + 1 && (#[trigger] self@[k]).spec_plus_stacks_on(
                        *target,
                        *rules,
                    ) implies r@.contains(k as usize) by {
                    if k < i {
                        let j = choose|j: int| 0 <= j < prev.len() && prev[j] == k as usize;
                        assert(r@[j] == k as usize);
                    } else {
                        assert(r@.last() == k as usize);
                    }
                }
            }
            i = i + 1;
        }
        r
    }

    /// Adds a card to this hand.
    pub fn add_card(&mut self, card: Card)
        ensures
            final(self)@ =~= old(self)@.push(card),
    {
        self.cards.push(card)
    }

    /// Adds many cards to this hand.
    pub fn add_many(&mut self, cards: Vec<Card>)
        ensures
            final(self)@ =~= old(self)@ + cards@,
    {
        let mut cards = cards;
        self.cards.append(&mut cards)
    }

    /// Indicates whether the hand holds no cards: the win condition.
    pub fn is_empty(&self) -> (r: bool)
        ensures
            r == (self@.len() == 0),
    {
        self.cards.is_empty()
    }

    /// Removes and returns the card at index `i` in constant time, by
    /// swapping it with the last card; hand order is not meaningful.
    pub fn remove(&mut self, i: usize) -> (r: Card)
        requires
            i < old(self)@.len(),
        ensures
            r == old(self)@[i as int],
            final(self)@ =~= old(self)@.update(i as int, old(self)@.last()).drop_last(),
            final(self)@.len() == old(self)@.len() - 1,
    {
        self.cards.swap_remove(i)
    }

    /// Returns a reference to the card at index `i`.
    pub fn get(&self, i: usize) -> (r: &Card)
        requires
            i < self@.len(),
        ensures
            *r == self@[i as int],
    {
        &self.cards[i]
    }
}

} // verus!
