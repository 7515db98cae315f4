//! Decision algorithms a strategy can run. The only built-in one,
//! `naive`, plays a uniformly random legal card.

use vstd::prelude::*;

use crate::card::Card;
use crate::color::{Color, ColorSuite};
use crate::deck::all_wf;
use crate::hand::Hand;
use crate::player::PlayResult;
use crate::rng;
use crate::rules::{PlusStacking, Rules};

verus! {

/// Whether `c` is a legal move on `target`: an ordinary stack in a
/// normal turn, a plus stack while a forced-draw total is active.
pub open spec fn spec_candidate(
    c: Card,
    target: Card,
    policy: PlusStacking,
    plus_stack: bool,
) -> bool {
    if plus_stack {
        c.spec_plus_stacks_on(target, policy)
    } else {
        c.spec_stacks_on(target)
    }
}

/// Whether the hand holds any legal move on `target`.
pub open spec fn spec_any_candidate(
    h: Seq<Card>,
    target: Card,
    policy: PlusStacking,
    plus_stack: bool,
) -> bool {
    exists|i: int| 0 <= i < h.len() && spec_candidate(#[trigger] h[i], target, policy, plus_stack)
}

/// How a played card relates to the hand card it came from: identical,
/// except that an unassigned wild card received some concrete color.
pub open spec fn spec_played_card(original: Card, c: Card) -> bool {
    &&& c.face == original.face
    &&& c.is_wild == original.is_wild
    &&& if original.is_wild && original.color == Color::Undecided {
        c.color != Color::Undecided
    } else {
        c.color == original.color
    }
}

/// One play taken out of a hand: the card at position `i` left (by a
/// swap with the last card) and came back as the played card.
pub open spec fn spec_removed_play(
    before: Seq<Card>,
    i: int,
    after: Seq<Card>,
    r: PlayResult,
) -> bool {
    &&& 0 <= i < before.len()
    &&& after == before.update(i, before.last()).drop_last()
    &&& (r.card matches Some(c) && spec_played_card(before[i], c))
}

/// Everything a decision algorithm promises about one attempt to play.
/// If the hand holds a legal move, some legal card leaves the hand and
/// is reported, together with whether it was the last; otherwise
/// nothing changes and no card is reported.
pub open spec fn spec_play_outcome(
    before: Seq<Card>,
    after: Seq<Card>,
    target: Card,
    policy: PlusStacking,
    plus_stack: bool,
    r: PlayResult,
) -> bool {
    if spec_any_candidate(before, target, policy, plus_stack) {
        &&& after.len() == before.len() - 1
        &&& r.was_last_card == (after.len() == 0)
        &&& exists|i: int|
            spec_candidate(#[trigger] before[i], target, policy, plus_stack) && spec_removed_play(
                before,
                i,
                after,
                r,
            )
    } else {
        &&& r.card is None
        &&& !r.was_last_card
        &&& after == before
    }
}

/// Plays one uniformly random entry of `candidates`, assigning a
/// random color if the chosen card is an unassigned wild.
fn random(hand: &mut Hand, candidates: &Vec<usize>) -> (r: PlayResult)
    requires
        candidates@.len() > 0,
        forall|j: int| 0 <= j < candidates@.len() ==> (#[trigger] candidates@[j]) < old(
            hand,
        )@.len(),
    ensures
        exists|j: int| 0 <= j < candidates@.len() && spec_removed_play(
            old(hand)@,
            #[trigger] candidates@[j] as int,
            final(hand)@,
            r,
        ),
        r.card is Some,
        final(hand)@.len() == old(hand)@.len() - 1,
        r.was_last_card == (final(hand)@.len() == 0),
{
    let j = rng::random_below(candidates.len());
    let i = candidates[j];
    let mut played = hand.remove(i);
    if played.is_wild && played.color == Color::Undecided {
        played.assign_color(ColorSuite::random());
    }
    let empty = hand.is_empty();
    PlayResult::new(Some(played), empty)
}

/// The simplest decision policy: gather every legal move and play one
/// of them at random, or draw when there is none.
pub fn naive(card: &Card, hand: &mut Hand, rules: &Rules, plus_stack: bool) -> (r: PlayResult)
    ensures
        spec_play_outcome(
            old(hand)@,
            final(hand)@,
            *card,
            rules.plus_stacking,
            plus_stack,
            r,
        ),
        all_wf(old(hand)@) ==> all_wf(final(hand)@),
        r.card matches Some(c) ==> (all_wf(old(hand)@) ==> c.wf() && c.color != Color::Undecided
            && spec_candidate(c, *card, rules.plus_stacking, plus_stack)),
{
    let candidates = if plus_stack {
        hand.all_plus_stackable(card, &rules.plus_stacking)
    } else {
        hand.all_stackable_indices(card)
    };
    if candidates.len() == 0 {
        proof {
            assert(!spec_any_candidate(hand@, *card, rules.plus_stacking, plus_stack));
        }
        PlayResult::new(None, false)
    } else {
        let ghost before = hand@;
        let r = random(hand, &candidates);
        proof {
            let j = choose|j: int|
                0 <= j < candidates@.len() && spec_removed_play(
                    before,
                    #[trigger] candidates@[j] as int,
                    hand@,
                    r,
                );
            let i = candidates@[j] as int;
            assert(spec_candidate(before[i], *card, rules.plus_stacking, plus_stack));
            assert(spec_any_candidate(before, *card, rules.plus_stacking, plus_stack));
            if all_wf(before) {
                assert forall|k: int| 0 <= k < hand@.len() implies (#[trigger] hand@[k]).wf() by {
                    assert(hand@[k] == before.update(i, before.last()).drop_last()[k]);
                }
            }
        }
        r
    }
}

} // verus!
