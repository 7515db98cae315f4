//! A player: an identity, a hand of cards and a decision policy.

use vstd::prelude::*;

use crate::card::Card;
use crate::hand::Hand;
use crate::rules::Rules;
use crate::strategy::Strategy;

verus! {

/// The outcome of one attempt to play: the card that was put down, if
/// any, and whether it was the hand's last card.
#[derive(Debug)]
pub struct PlayResult {
    pub card: Option<Card>,
    pub was_last_card: bool,
}

impl PlayResult {
    /// Bundles a play outcome.
    pub fn new(card: Option<Card>, was_last_card: bool) -> (r: PlayResult)
        ensures
            r.card == card,
            r.was_last_card == was_last_card,
    {
        PlayResult { card, was_last_card }
    }
}

/// One participant of a game: a roster identity plus the hand it holds
/// during a match and the policy that decides its moves.
#[derive(Debug)]
pub struct Player {
    pub id: u32,
    pub name: String,
    pub hand: Hand,
    pub strategy: Strategy,
}

impl Clone for Player {
    /// An exact copy: same identity, same cards, same policy.
    fn clone(&self) -> (r: Self)
        ensures
            r.id == self.id,
            r.name@ == self.name@,
            r.hand@ == self.hand@,
            r.strategy == self.strategy,
    {
        Player {
            id: self.id,
            name: self.name.clone(),
            hand: self.hand.clone(),
            strategy: self.strategy,
        }
    }
}

impl Player {
    /// Creates a player with an empty hand.
    pub fn new(id: u32, name: String, strategy: Strategy) -> (r: Player)
        ensures
            r.id == id,
            r.name@ == name@,
            r.hand@ =~= Seq::<Card>::empty(),
            r.strategy == strategy,
    {
        Player { id, hand: Hand::new(), strategy, name }
    }

    /// Lets the player's strategy act on the pile's top card: the
    /// played card, if any, comes out of the hand, a wild one with a
    /// freshly decided color.
    pub fn play(&mut self, card: &Card, rules: &Rules, plus_stacking: bool) -> (r: PlayResult)
        ensures
            final(self).id == old(self).id,
            final(self).name@ == old(self).name@,
            final(self).strategy == old(self).strategy,
            crate::algorithms::spec_play_outcome(
                old(self).hand@,
                final(self).hand@,
                *card,
                rules.plus_stacking,
                plus_stacking,
                r,
            ),
    {
        let strategy = self.strategy;
        strategy.run(card, &mut self.hand, rules, plus_stacking)
    }
}

} // verus!
