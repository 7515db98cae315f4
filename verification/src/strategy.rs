//! A decision policy, selected by name: a closed set of variants
//! dispatched by pattern match, so that policy identity is structural
//! rather than by name string.

use vstd::prelude::*;
use vstd::string::StringSliceAdditionalSpecFns;

use crate::algorithms;
use crate::card::Card;
use crate::color::Color;
use crate::deck::all_wf;
use crate::hand::Hand;
use crate::player::PlayResult;
use crate::rules::Rules;

verus! {

/// The closed set of built-in decision policies.
#[derive(Copy, Clone, PartialEq, Eq, Structural, Debug)]
pub enum StrategyKind {
    Naive,
}

/// A named, immutable decision policy shared by value across players.
#[derive(Copy, Clone, PartialEq, Eq, Structural, Debug)]
pub struct Strategy {
    pub kind: StrategyKind,
}

/// A byte with an ASCII capital letter folded to its small form.
pub open spec fn spec_ascii_lower(b: u8) -> u8 {
    if 65 <= b && b <= 90 {
        (b + 32) as u8
    } else {
        b
    }
}

/// Whether the bytes spell "naive", compared without regard to ASCII
/// case.
pub open spec fn spec_is_naive_name(bytes: Seq<u8>) -> bool {
    &&& bytes.len() == 5
    &&& spec_ascii_lower(bytes[0]) == 110
    &&& spec_ascii_lower(bytes[1]) == 97
    &&& spec_ascii_lower(bytes[2]) == 105
    &&& spec_ascii_lower(bytes[3]) == 118
    &&& spec_ascii_lower(bytes[4]) == 101
}

/// Folds one ASCII capital letter to its small form.
fn ascii_lower(b: u8) -> (r: u8)
    ensures
        r == spec_ascii_lower(b),
{
    if b >= 65 && b <= 90 {
        b + 32
    } else {
        b
    }
}

impl Strategy {
    /// The built-in naive policy.
    pub fn naive() -> (r: Strategy)
        ensures
            r.kind == StrategyKind::Naive,
    {
        Strategy { kind: StrategyKind::Naive }
    }

    /// Looks a policy up by name, without regard to ASCII case. An
    /// unknown name yields `None`, to be rejected at configuration
    /// time before any match runs.
    pub fn get(name: &str) -> (r: Option<Strategy>)
        ensures
            r matches Some(s) ==> s.kind == StrategyKind::Naive,
            r is Some <==> spec_is_naive_name(name.spec_bytes()),
    {
        let b = name.as_bytes();
        if b.len() != 5 {
            return None;
        }
        let naive_bytes: [u8; 5] = [110, 97, 105, 118, 101];
        let mut i: usize = 0;
        while i < 5
            invariant
                i <= 5,
                b@.len() == 5,
                b@ == name.spec_bytes(),
                naive_bytes@ =~= seq![110u8, 97u8, 105u8, 118u8, 101u8],
                forall|j: int| 0 <= j < i ==> spec_ascii_lower(b@[j]) == naive_bytes@[j],
            decreases 5 - i,
        {
            let c = ascii_lower(*vstd::slice::slice_index_get(b, i));
            if c != naive_bytes[i] {
                return None;
            }
            i = i + 1;
        }
        Some(Self::naive())
    }

    /// Runs the policy on the pile's top card and the given hand.
    pub fn run(&self, card: &Card, hand: &mut Hand, rules: &Rules, plus_stacking: bool) -> (r:
        PlayResult)
        ensures
            algorithms::spec_play_outcome(
                old(hand)@,
                final(hand)@,
                *card,
                rules.plus_stacking,
                plus_stacking,
                r,
            ),
            all_wf(old(hand)@) ==> all_wf(final(hand)@),
            r.card matches Some(c) ==> (all_wf(old(hand)@) ==> c.wf() && c.color
                != Color::Undecided && algorithms::spec_candidate(
                c,
                *card,
                rules.plus_stacking,
                plus_stacking,
            )),
    {
        match self.kind {
            StrategyKind::Naive => algorithms::naive(card, hand, rules, plus_stacking),
        }
    }
}

} // verus!
