//! Card colors: the four concrete suites, and the transient
//! `Undecided` state of a wild card before its color is assigned.

use vstd::prelude::*;

verus! {

/// One of the four concrete colors.
#[derive(Copy, Clone, PartialEq, Eq, Structural, Debug, Hash)]
pub enum ColorSuite {
    Red,
    Yellow,
    Green,
    Blue,
}

/// The color a card currently shows. `Undecided` is valid only on a
/// wild card whose color has not been assigned yet.
#[derive(Copy, Clone, PartialEq, Eq, Structural, Debug, Hash)]
pub enum Color {
    Red,
    Yellow,
    Green,
    Blue,
    Undecided,
}

impl ColorSuite {
    /// The concrete color as a `Color`, never `Undecided`.
    pub open spec fn spec_to_color(self) -> Color {
        match self {
            ColorSuite::Red => Color::Red,
            ColorSuite::Yellow => Color::Yellow,
            ColorSuite::Green => Color::Green,
            ColorSuite::Blue => Color::Blue,
        }
    }

    /// Converts the suite into the corresponding concrete `Color`.
    pub fn to_color(self) -> (r: Color)
        ensures
            r == self.spec_to_color(),
            r != Color::Undecided,
    {
        match self {
            ColorSuite::Red => Color::Red,
            ColorSuite::Yellow => Color::Yellow,
            ColorSuite::Green => Color::Green,
            ColorSuite::Blue => Color::Blue,
        }
    }

    /// Returns one of the four concrete colors, drawn at random.
    pub fn random() -> ColorSuite {
        let colors = Self::all();
        let i = crate::rng::random_below(4);
        colors[i]
    }

    /// All four concrete colors.
    pub fn all() -> (r: [ColorSuite; 4])
        ensures
            r@ =~= seq![ColorSuite::Red, ColorSuite::Blue, ColorSuite::Green, ColorSuite::Yellow],
    {
        [ColorSuite::Red, ColorSuite::Blue, ColorSuite::Green, ColorSuite::Yellow]
    }
}

} // verus!
