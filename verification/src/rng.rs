//! Randomness, drawn from the `rand` crate behind thin trusted
//! wrappers. Nothing is assumed about which value comes back, only
//! what holds of every possible outcome.

use vstd::prelude::*;

use crate::card::Card;
use rand::seq::SliceRandom;
use rand::Rng;

verus! {

/// Relies on rand's `SliceRandom::shuffle`: a Fisher-Yates pass that
/// rearranges the slice in place purely by swapping elements, so the
/// result holds exactly the same cards, in some order.
#[verifier::external_body]
pub(crate) fn shuffle_cards(cards: &mut Vec<Card>)
    ensures
        final(cards)@.len() == old(cards)@.len(),
        final(cards)@.to_multiset() == old(cards)@.to_multiset(),
{
    cards.shuffle(&mut rand::thread_rng());
}

/// Relies on rand's `Rng::gen_range` on the range `0..n`: it returns
/// an index strictly below `n`, and panics only on an empty range,
/// which the precondition rules out.
#[verifier::external_body]
pub(crate) fn random_below(n: usize) -> (r: usize)
    requires
        n > 0,
    ensures
        r < n,
{
    rand::thread_rng().gen_range(0..n)
}

} // verus!
