//! A single playing card and the stacking rules that compare two cards.

use vstd::prelude::*;

use crate::color::{Color, ColorSuite};
use crate::face::Face;
use crate::rules::PlusStacking;

verus! {

/// A playing card.
///
/// A wild card is created with color `Undecided`; playing it assigns a
/// concrete color exactly once. `is_wild` never changes, so an already
/// colored wild card still stacks on anything when it is the mover,
/// while the color it was assigned is what the next card is matched
/// against.
#[derive(Copy, Clone, PartialEq, Eq, Structural, Debug, Hash)]
pub struct Card {
    pub face: Face,
    pub color: Color,
    pub is_wild: bool,
}

impl Card {
    /// A card is well formed when a non-wild card carries a concrete
    /// color and only the two wild faces are marked wild.
    pub open spec fn wf(self) -> bool {
        &&& !self.is_wild ==> self.color != Color::Undecided
        &&& self.is_wild ==> (self.face == Face::Wild || self.face == Face::PlusFour)
    }

    /// Whether this card may legally be played on `other`: the colors
    /// match, or the faces match, or this card is wild.
    pub open spec fn spec_stacks_on(self, other: Card) -> bool {
        self.is_wild || self.color == other.color || self.face == other.face
    }

    /// Whether this card may extend a forced-draw stack lying on
    /// `other`, under the given stacking policy.
    pub open spec fn spec_plus_stacks_on(self, other: Card, policy: PlusStacking) -> bool {
        self.face.spec_is_plus() && match policy {
            PlusStacking::Banned => false,
            PlusStacking::Liberal => self.face == Face::PlusFour || self.color == other.color,
            PlusStacking::Conservative => !(other.face == Face::PlusFour && self.face
                == Face::PlusTwo),
        }
    }

    /// How much this card adds to a forced-draw stack.
    pub open spec fn spec_plus_stack_value(self) -> usize {
        match self.face {
            Face::PlusFour => 4usize,
            Face::PlusTwo => 2usize,
            _ => 0usize,
        }
    }

    fn new(face: Face, color: Color, is_wild: bool) -> (r: Card)
        ensures
            r == (Card { face, color, is_wild }),
    {
        Card { face, color, is_wild }
    }

    /// Constructs a new, unassigned wild card with the given face.
    pub fn new_wild(face: Face) -> (r: Card)
        ensures
            r == (Card { face, color: Color::Undecided, is_wild: true }),
    {
        Self::new(face, Color::Undecided, true)
    }

    /// Constructs a new non-wild card with the given face and color.
    pub fn new_colored(face: Face, color: ColorSuite) -> (r: Card)
        ensures
            r == (Card { face, color: color.spec_to_color(), is_wild: false }),
            r.wf(),
    {
        Self::new(face, color.to_color(), false)
    }

    /// Returns whether this card stacks on `other`.
    pub fn stacks_on(&self, other: &Card) -> (r: bool)
        ensures
            r == self.spec_stacks_on(*other),
    {
        self.is_wild || self.color == other.color || self.face == other.face
    }

    /// Returns whether this card plus-stacks on `other` under `rules`.
    pub fn plus_stacks_on(&self, other: &Card, rules: &PlusStacking) -> (r: bool)
        ensures
            r == self.spec_plus_stacks_on(*other, *rules),
    {
        if !self.face.is_plus() {
            return false;
        }
        match rules {
            PlusStacking::Banned => false,
            PlusStacking::Liberal => self.face == Face::PlusFour || self.color == other.color,
            PlusStacking::Conservative => !(other.face == Face::PlusFour && self.face
                == Face::PlusTwo),
        }
    }

    /// Returns the amount this card increases a forced-draw stack by.
    pub fn plus_stack_value(&self) -> (r: usize)
        ensures
            r == self.spec_plus_stack_value(),
            r == 4 <==> self.face == Face::PlusFour,
            r == 2 <==> self.face == Face::PlusTwo,
    {
        match self.face {
            Face::PlusFour => 4,
            Face::PlusTwo => 2,
            _ => 0,
        }
    }

    /// Whether this card is a plain numeric card.
    pub open spec fn spec_is_num(self) -> bool {
        match self.face {
            Face::Zero | Face::One | Face::Two | Face::Three | Face::Four | Face::Five | Face::Six
                | Face::Seven | Face::Eight | Face::Nine => true,
            _ => false,
        }
    }

    /// Indicates whether this card is a simple numeric card.
    pub fn is_num(&self) -> (r: bool)
        ensures
            r == self.spec_is_num(),
    {
        match self.face {
            Face::Zero | Face::One | Face::Two | Face::Three | Face::Four | Face::Five | Face::Six
                | Face::Seven | Face::Eight | Face::Nine => true,
            _ => false,
        }
    }

    /// Indicates whether this card is an action or wild card.
    pub fn is_special(&self) -> (r: bool)
        ensures
            r == !self.spec_is_num(),
    {
        !self.is_num()
    }

    /// Fixes the color of an unassigned wild card. The engine never
    /// calls this on a non-wild or already decided card.
    pub fn assign_color(&mut self, color: ColorSuite)
        requires
            old(self).is_wild,
            old(self).color == Color::Undecided,
        ensures
            *final(self) == (Card {
                face: old(self).face,
                color: color.spec_to_color(),
                is_wild: true,
            }),
            final(self).color != Color::Undecided,
    {
        self.color = color.to_color();
    }
}

/// For any two non-wild cards, stacking holds exactly when the colors
/// or the faces are equal; a wild mover stacks on everything.
pub proof fn lemma_stacks_on_cases(a: Card, b: Card)
    ensures
        !a.is_wild ==> (a.spec_stacks_on(b) <==> (a.color == b.color || a.face == b.face)),
        a.is_wild ==> a.spec_stacks_on(b),
{
}

/// Under `Banned` no pair of cards ever plus-stacks; under
/// `Conservative` a plus mover stacks on everything except a plus two
/// landing on a plus four.
pub proof fn lemma_plus_stacking_policies(a: Card, b: Card)
    ensures
        !a.spec_plus_stacks_on(b, PlusStacking::Banned),
        a.face.spec_is_plus() ==> (a.spec_plus_stacks_on(b, PlusStacking::Conservative) <==> !(a.face
            == Face::PlusTwo && b.face == Face::PlusFour)),
        !a.face.spec_is_plus() ==> !a.spec_plus_stacks_on(b, PlusStacking::Conservative),
{
}

} // verus!
