//! The discard pile. Its top card is the reference for legal-move
//! checks; its bottom card is the starter kept through every
//! reshuffle.

use vstd::prelude::*;

use crate::card::Card;

verus! {

/// The discard pile of one game: append-only until it is reduced back
/// to its starter card by the reshuffle protocol.
#[derive(Debug)]
pub struct Pile {
    stack: Vec<Card>,
}

impl View for Pile {
    type V = Seq<Card>;

    closed spec fn view(&self) -> Seq<Card> {
        self.stack@
    }
}

impl Pile {
    /// Constructs a new, empty pile.
    pub fn new() -> (r: Pile)
        ensures
            r@ =~= Seq::<Card>::empty(),
    {
        Pile { stack: Vec::new() }
    }

    /// The number of cards on the pile.
    pub fn len(&self) -> (r: usize)
        ensures
            r == self@.len(),
    {
        self.stack.len()
    }

    /// Retains only the starter card (the first card ever placed) and
    /// returns every other card, to be recycled into the deck.
    pub fn reduce_to_top(&mut self) -> (tail: Vec<Card>)
        requires
            old(self)@.len() >= 1,
        ensures
            final(self)@ =~= seq![old(self)@[0]],
            tail@ =~= old(self)@.subrange(1, old(self)@.len() as int),
            tail@.len() == old(self)@.len() - 1,
    {
        let tail = self.stack.split_off(1);
        proof {
            assert(self@ =~= seq![old(self)@[0]]);
        }
        tail
    }

    /// Places a card on top of the pile.
    pub fn add(&mut self, card: Card)
        ensures
            final(self)@ =~= old(self)@.push(card),
    {
        self.stack.push(card)
    }

    /// Returns the card most recently placed on the pile. The engine
    /// never consults an empty pile.
    pub fn top(&self) -> (r: &Card)
        requires
            self@.len() > 0,
        ensures
            *r == self@.last(),
    {
        &self.stack[self.stack.len() - 1]
    }
}

} // verus!
