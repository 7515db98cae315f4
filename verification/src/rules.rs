//! The rule set a game is played under.

use vstd::prelude::*;

verus! {

/// The different ways plus cards may be stacked onto one another.
#[derive(Copy, Clone, PartialEq, Eq, Structural, Debug)]
pub enum PlusStacking {
    /// Plus stacking is never allowed.
    Banned,
    /// Plus twos stack on each other, plus fours stack on either plus
    /// card, but a plus two may never land on a plus four.
    Conservative,
    /// Like `Conservative`, except a plus four always stacks, and a
    /// plus two stacks whenever its color matches the target.
    Liberal,
}

/// The rules a single game is played under.
#[derive(Copy, Clone, PartialEq, Eq, Structural, Debug)]
pub struct Rules {
    pub plus_stacking: PlusStacking,
    pub must_play: bool,
    pub draw_until_match: bool,
}

impl Rules {
    /// The default rule set: conservative plus stacking, no optional
    /// extras switched on.
    pub fn default() -> (r: Rules)
        ensures
            r.plus_stacking == PlusStacking::Conservative,
            !r.must_play,
            !r.draw_until_match,
    {
        Rules { plus_stacking: PlusStacking::Conservative, must_play: false, draw_until_match: false }
    }
}

} // verus!
