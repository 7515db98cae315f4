//! A sequence of cards that can be narrowed by card properties.

use vstd::prelude::*;

use crate::card::Card;

verus! {

/// An ordered selection of cards, narrowed step by step.
#[derive(Debug)]
pub struct CardSequence {
    cards: Vec<Card>,
}

impl View for CardSequence {
    type V = Seq<Card>;

    closed spec fn view(&self) -> Seq<Card> {
        self.cards@
    }
}

impl CardSequence {
    /// Wraps the given cards.
    pub fn from_cards(cards: Vec<Card>) -> (r: CardSequence)
        ensures
            r@ == cards@,
    {
        CardSequence { cards }
    }

    /// The number of cards selected.
    pub fn len(&self) -> (r: usize)
        ensures
            r == self@.len(),
    {
        self.cards.len()
    }

    /// The card at position `i`.
    pub fn get(&self, i: usize) -> (r: &Card)
        requires
            i < self@.len(),
        ensures
            *r == self@[i as int],
    {
        &self.cards[i]
    }

    /// Narrows the selection to the action and wild cards, keeping
    /// their order.
    pub fn special(&self) -> (r: CardSequence)
        ensures
            r@ == self@.filter(|c: Card| !c.spec_is_num()),
    {
        let mut specials: Vec<Card> = Vec::new();
        let mut i: usize = 0;
        proof {
            reveal(Seq::filter);
            assert(self@.subrange(0, 0) =~= Seq::<Card>::empty());
        }
        while i < self.cards.len()
            invariant
                i <= self@.len(),
                specials@ == self@.subrange(0, i as int).filter(|c: Card| !c.spec_is_num()),
            decreases self@.len() - i,
        {
            let ghost prefix = self@.subrange(0, i as int);
            if self.cards[i].is_special() {
                specials.push(self.cards[i]);
            }
            proof {
                reveal(Seq::filter);
                let prefix2 = self@.subrange(0, i as int + 1);
                assert(prefix2.drop_last() =~= prefix);
                assert(prefix2.last() == self@[i as int]);
            }
            i = i + 1;
        }
        proof {
            assert(self@.subrange(0, self@.len() as int) =~= self@);
        }
        CardSequence { cards: specials }
    }

    /// Narrows the selection to the cards whose face equals `other`'s.
    pub fn match_face(&self, other: &Card) -> (r: CardSequence)
        ensures
            r@ == self@.filter(|c: Card| c.face == other.face),
    {
        let mut matches: Vec<Card> = Vec::new();
        let mut i: usize = 0;
        proof {
            reveal(Seq::filter);
            assert(self@.subrange(0, 0) =~= Seq::<Card>::empty());
        }
        while i < self.cards.len()
            invariant
                i <= self@.len(),
                matches@ == self@.subrange(0, i as int).filter(|c: Card| c.face == other.face),
            decreases self@.len() - i,
        {
            let ghost prefix = self@.subrange(0, i as int);
            if self.cards[i].face == other.face {
                matches.push(self.cards[i]);
            }
            proof {
                reveal(Seq::filter);
                let prefix2 = self@.subrange(0, i as int + 1);
                assert(prefix2.drop_last() =~= prefix);
                assert(prefix2.last() == self@[i as int]);
            }
            i = i + 1;
        }
        proof {
            assert(self@.subrange(0, self@.len() as int) =~= self@);
        }
        CardSequence { cards: matches }
    }

    /// Narrows the selection to the cards whose color equals
    /// `other`'s.
    pub fn match_color(&self, other: &Card) -> (r: CardSequence)
        ensures
            r@ == self@.filter(|c: Card| c.color == other.color),
    {
        let mut matches: Vec<Card> = Vec::new();
        let mut i: usize = 0;
        proof {
            reveal(Seq::filter);
            assert(self@.subrange(0, 0) =~= Seq::<Card>::empty());
        }
        while i < self.cards.len()
            invariant
                i <= self@.len(),
                matches@ == self@.subrange(0, i as int).filter(|c: Card| c.color == other.color),
            decreases self@.len() - i,
        {
            let ghost prefix = self@.subrange(0, i as int);
            if self.cards[i].color == other.color {
                matches.push(self.cards[i]);
            }
            proof {
                reveal(Seq::filter);
                let prefix2 = self@.subrange(0, i as int + 1);
                assert(prefix2.drop_last() =~= prefix);
                assert(prefix2.last() == self@[i as int]);
            }
            i = i + 1;
        }
        proof {
            assert(self@.subrange(0, self@.len() as int) =~= self@);
        }
        CardSequence { cards: matches }
    }
}

} // verus!
