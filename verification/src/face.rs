//! The face printed on a card: ten numerals and five action faces.

use vstd::prelude::*;

verus! {

/// Every face a card can carry.
#[derive(Copy, Clone, PartialEq, Eq, Structural, Debug, Hash)]
pub enum Face {
    Zero,
    One,
    Two,
    Three,
    Four,
    Five,
    Six,
    Seven,
    Eight,
    Nine,
    Skip,
    Reverse,
    PlusTwo,
    Wild,
    PlusFour,
}

impl Face {
    /// Whether this face opens or extends a forced-draw stack.
    pub open spec fn spec_is_plus(self) -> bool {
        self == Face::PlusTwo || self == Face::PlusFour
    }

    /// True exactly for the two plus faces.
    pub fn is_plus(&self) -> (r: bool)
        ensures
            r == self.spec_is_plus(),
    {
        match self {
            Face::PlusTwo | Face::PlusFour => true,
            _ => false,
        }
    }

    /// The faces that appear twice per color in a standard deck.
    pub fn double_faces() -> (r: [Face; 12])
        ensures
            r@ =~= seq![
                Face::One,
                Face::Two,
                Face::Three,
                Face::Four,
                Face::Five,
                Face::Six,
                Face::Seven,
                Face::Eight,
                Face::Nine,
                Face::Skip,
                Face::Reverse,
                Face::PlusTwo,
            ],
    {
        [
            Face::One,
            Face::Two,
            Face::Three,
            Face::Four,
            Face::Five,
            Face::Six,
            Face::Seven,
            Face::Eight,
            Face::Nine,
            Face::Skip,
            Face::Reverse,
            Face::PlusTwo,
        ]
    }
}

} // verus!
