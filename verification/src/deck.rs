//! The draw deck: a shuffled stack of cards, drawn from the top.

use vstd::prelude::*;

use crate::card::Card;
use crate::color::{Color, ColorSuite};
use crate::face::Face;
use crate::rng;

verus! {

broadcast use vstd::seq_lib::group_to_multiset_ensures, vstd::multiset::group_multiset_axioms;

/// Failure of a draw: the deck held `available` cards when `requested`
/// were asked for.
#[derive(Copy, Clone, PartialEq, Eq, Structural, Debug)]
pub enum DeckError {
    NotEnoughCards(usize, usize),
}

/// Number of cards in a freshly built standard deck.
pub const DECK_SIZE: usize = 108;

/// The stack of cards a game deals and draws from. The top of the deck
/// is the end of the vector.
#[derive(Debug)]
pub struct Deck {
    stack: Vec<Card>,
}

impl View for Deck {
    type V = Seq<Card>;

    closed spec fn view(&self) -> Seq<Card> {
        self.stack@
    }
}

/// Every card of the sequence is well formed.
pub open spec fn all_wf(s: Seq<Card>) -> bool {
    forall|i: int| 0 <= i < s.len() ==> (#[trigger] s[i]).wf()
}

/// A card after wild-color recycling: a wild card loses its assigned
/// color, any other card is untouched.
pub open spec fn spec_re_wild(c: Card) -> Card {
    if c.is_wild {
        Card { face: c.face, color: Color::Undecided, is_wild: true }
    } else {
        c
    }
}

/// A face that appears twice per color in a standard deck: every face
/// except the zero and the two wild faces.
pub open spec fn spec_is_double_face(f: Face) -> bool {
    f != Face::Zero && f != Face::Wild && f != Face::PlusFour
}

/// How often a standard deck holds the card `c`: one zero per color,
/// two of every other colored face per color, four of each wild face,
/// and nothing else.
pub open spec fn spec_standard_count(c: Card) -> int {
    if c.is_wild && c.color == Color::Undecided && (c.face == Face::Wild || c.face
        == Face::PlusFour) {
        4
    } else if !c.is_wild && c.color != Color::Undecided && c.face == Face::Zero {
        1
    } else if !c.is_wild && c.color != Color::Undecided && spec_is_double_face(c.face) {
        2
    } else {
        0
    }
}

/// The position of a concrete color in the deck builder's color order.
spec fn suite_pos(c: Color) -> int {
    match c {
        Color::Red => 0,
        Color::Blue => 1,
        Color::Green => 2,
        Color::Yellow => 3,
        Color::Undecided => 4,
    }
}

/// The position of a double face in the deck builder's face order.
spec fn face_pos(f: Face) -> int {
    match f {
        Face::One => 0,
        Face::Two => 1,
        Face::Three => 2,
        Face::Four => 3,
        Face::Five => 4,
        Face::Six => 5,
        Face::Seven => 6,
        Face::Eight => 7,
        Face::Nine => 8,
        Face::Skip => 9,
        Face::Reverse => 10,
        Face::PlusTwo => 11,
        _ => -1,
    }
}

/// How often the card `c` occurs once the first `k` color blocks of
/// the deck are built.
spec fn block_count(c: Card, k: int) -> int {
    if c.is_wild || c.color == Color::Undecided {
        0
    } else if suite_pos(c.color) < k {
        if c.face == Face::Zero {
            1
        } else if spec_is_double_face(c.face) {
            2
        } else {
            0
        }
    } else {
        0
    }
}

/// How often the card `c` occurs while color block `k` is being built,
/// with its zero and its first `fi` double faces already placed.
spec fn partial_block_count(c: Card, k: int, fi: int) -> int {
    block_count(c, k) + if !c.is_wild && c.color != Color::Undecided && suite_pos(c.color) == k {
        if c.face == Face::Zero {
            1int
        } else if 0 <= face_pos(c.face) < fi {
            2int
        } else {
            0int
        }
    } else {
        0int
    }
}

/// How many of the card `c` the wild section of the deck holds once
/// `wi` of its four rounds are placed.
spec fn wild_count(c: Card, wi: int) -> int {
    if c == (Card { face: Face::Wild, color: Color::Undecided, is_wild: true }) || c == (Card {
        face: Face::PlusFour,
        color: Color::Undecided,
        is_wild: true,
    }) {
        wi
    } else {
        0
    }
}

/// Every wild card of the sequence is still undecided: no assigned
/// color survives in the deck.
pub open spec fn wilds_fresh(s: Seq<Card>) -> bool {
    forall|i: int| 0 <= i < s.len() ==> (#[trigger] s[i]).is_wild ==> s[i].color
        == Color::Undecided
}

/// Two sequences holding the same multiset hold the same elements.
pub proof fn lemma_same_multiset_same_elements(a: Seq<Card>, b: Seq<Card>)
    requires
        a.to_multiset() == b.to_multiset(),
    ensures
        forall|i: int| 0 <= i < b.len() ==> a.contains(#[trigger] b[i]),
{
    broadcast use vstd::seq_lib::group_to_multiset_ensures;

    assert forall|i: int| 0 <= i < b.len() implies a.contains(b[i]) by {
        assert(b.contains(b[i]));
        assert(b.to_multiset().count(b[i]) > 0);
    }
}

/// Rearranging a sequence of cards keeps every card well formed and
/// every wild card undecided, since the cards themselves are the same.
pub proof fn lemma_rearranged_cards_keep_properties(a: Seq<Card>, b: Seq<Card>)
    requires
        a.to_multiset() == b.to_multiset(),
    ensures
        all_wf(a) ==> all_wf(b),
        wilds_fresh(a) ==> wilds_fresh(b),
{
    lemma_same_multiset_same_elements(a, b);
    if all_wf(a) {
        assert forall|i: int| 0 <= i < b.len() implies (#[trigger] b[i]).wf() by {
            assert(a.contains(b[i]));
            let j = choose|j: int| 0 <= j < a.len() && a[j] == b[i];
            assert(a[j].wf());
        }
    }
    if wilds_fresh(a) {
        assert forall|i: int| 0 <= i < b.len() && (#[trigger] b[i]).is_wild implies b[i].color
            == Color::Undecided by {
            assert(a.contains(b[i]));
            let j = choose|j: int| 0 <= j < a.len() && a[j] == b[i];
            assert(a[j].is_wild ==> a[j].color == Color::Undecided);
        }
    }
}

impl Deck {
    /// Every card in the deck is well formed.
    pub open spec fn wf(self) -> bool {
        all_wf(self@)
    }

    /// Constructs a standard, unshuffled deck: for each of the four
    /// colors one zero and two of each double face, plus four wild and
    /// four plus-four cards, 108 cards in all.
    pub fn new() -> (r: Deck)
        ensures
            r@.len() == DECK_SIZE,
            r.wf(),
            wilds_fresh(r@),
            forall|c: Card| r@.to_multiset().count(c) == spec_standard_count(c),
    {
        let mut stack: Vec<Card> = Vec::new();
        proof {
            assert forall|c: Card| stack@.to_multiset().count(c) == block_count(c, 0) by {
                assert(!stack@.contains(c));
            }
        }
        let colors = ColorSuite::all();
        let mut ci: usize = 0;
        while ci < 4
            invariant
                ci <= 4,
                stack@.len() == 25 * ci,
                all_wf(stack@),
                forall|i: int| 0 <= i < stack@.len() ==> !(#[trigger] stack@[i]).is_wild,
                colors@ =~= seq![
                    ColorSuite::Red,
                    ColorSuite::Blue,
                    ColorSuite::Green,
                    ColorSuite::Yellow,
                ],
                forall|c: Card| stack@.to_multiset().count(c) == block_count(c, ci as int),
            decreases 4 - ci,
        {
            let ghost pre = stack@;
            stack.push(Card::new_colored(Face::Zero, colors[ci]));
            proof {
                let z = Card {
                    face: Face::Zero,
                    color: colors@[ci as int].spec_to_color(),
                    is_wild: false,
                };
                assert(suite_pos(z.color) == ci);
                assert(stack@ =~= pre.push(z));
                assert(stack@.to_multiset() =~= pre.to_multiset().insert(z));
                assert forall|c: Card| stack@.to_multiset().count(c) == partial_block_count(
                    c,
                    ci as int,
                    0,
                ) by {
                    if c == z {
                        assert(stack@.to_multiset().count(c) == pre.to_multiset().count(c) + 1int);
                    } else {
                        assert(stack@.to_multiset().count(c) == pre.to_multiset().count(c));
                    }
                }
            }
            let faces = Face::double_faces();
            let mut fi: usize = 0;
            while fi < 12
                invariant
                    ci < 4,
                    fi <= 12,
                    stack@.len() == 25 * ci + 1 + 2 * fi,
                    all_wf(stack@),
                    forall|i: int| 0 <= i < stack@.len() ==> !(#[trigger] stack@[i]).is_wild,
                    colors@ =~= seq![
                        ColorSuite::Red,
                        ColorSuite::Blue,
                        ColorSuite::Green,
                        ColorSuite::Yellow,
                    ],
                    faces@ =~= seq![
                        Face::One,
                        Face::Two,
                        Face::Three,
                        Face::Four,
                        Face::Five,
                        Face::Six,
                        Face::Seven,
                        Face::Eight,
                        Face::Nine,
                        Face::Skip,
                        Face::Reverse,
                        Face::PlusTwo,
                    ],
                    forall|c: Card| stack@.to_multiset().count(c) == partial_block_count(
                        c,
                        ci as int,
                        fi as int,
                    ),
                decreases 12 - fi,
            {
                let ghost pre2 = stack@;
                stack.push(Card::new_colored(faces[fi], colors[ci]));
                stack.push(Card::new_colored(faces[fi], colors[ci]));
                proof {
                    let f = Card {
                        face: faces@[fi as int],
                        color: colors@[ci as int].spec_to_color(),
                        is_wild: false,
                    };
                    assert(face_pos(f.face) == fi);
                    assert(suite_pos(f.color) == ci);
                    assert(stack@ =~= pre2.push(f).push(f));
                    assert(stack@.to_multiset() =~= pre2.to_multiset().insert(f).insert(f));
                    assert forall|c: Card| stack@.to_multiset().count(c) == partial_block_count(
                        c,
                        ci as int,
                        fi as int + 1,
                    ) by {
                        assert(pre2.to_multiset().count(c) == partial_block_count(
                            c,
                            ci as int,
                            fi as int,
                        ));
                        if c == f {
                            assert(stack@.to_multiset().count(c) == pre2.to_multiset().count(c)
                                + 2int);
                            assert(partial_block_count(c, ci as int, fi as int) == block_count(
                                c,
                                ci as int,
                            ));
                            assert(partial_block_count(c, ci as int, fi as int + 1) == block_count(
                                c,
                                ci as int,
                            ) + 2int);
                        } else {
                            assert(stack@.to_multiset().count(c) == pre2.to_multiset().count(c));
                            if !c.is_wild && c.color != Color::Undecided && suite_pos(c.color)
                                == ci && face_pos(c.face) == fi as int {
                                // Equal positions in the color and face
                                // orders pin down the very same card.
                                assert(c.face == f.face);
                                assert(c.color == f.color);
                                assert(false);
                            }
                        }
                    }
                }
                fi = fi + 1;
            }
            proof {
                assert forall|c: Card| stack@.to_multiset().count(c) == block_count(
                    c,
                    ci as int + 1,
                ) by {
                    assert(stack@.to_multiset().count(c) == partial_block_count(c, ci as int, 12));
                }
            }
            ci = ci + 1;
        }
        let mut wi: usize = 0;
        while wi < 4
            invariant
                wi <= 4,
                stack@.len() == 100 + 2 * wi,
                all_wf(stack@),
                forall|i: int| 0 <= i < stack@.len() ==> (#[trigger] stack@[i]).is_wild
                    ==> stack@[i].color == Color::Undecided,
                forall|c: Card| stack@.to_multiset().count(c) == block_count(c, 4) + wild_count(
                    c,
                    wi as int,
                ),
            decreases 4 - wi,
        {
            let ghost pre3 = stack@;
            stack.push(Card::new_wild(Face::Wild));
            stack.push(Card::new_wild(Face::PlusFour));
            proof {
                let w = Card { face: Face::Wild, color: Color::Undecided, is_wild: true };
                let p = Card { face: Face::PlusFour, color: Color::Undecided, is_wild: true };
                assert(stack@ =~= pre3.push(w).push(p));
                assert(stack@.to_multiset() =~= pre3.to_multiset().insert(w).insert(p));
                assert forall|c: Card| stack@.to_multiset().count(c) == block_count(c, 4)
                    + wild_count(c, wi as int + 1) by {
                    if c == w || c == p {
                        assert(stack@.to_multiset().count(c) == pre3.to_multiset().count(c)
                            + 1int);
                    } else {
                        assert(stack@.to_multiset().count(c) == pre3.to_multiset().count(c));
                    }
                }
            }
            wi = wi + 1;
        }
        proof {
            assert(wilds_fresh(stack@));
            assert forall|c: Card| stack@.to_multiset().count(c) == spec_standard_count(c) by {
                assert(stack@.to_multiset().count(c) == block_count(c, 4) + wild_count(c, 4));
            }
        }
        Deck { stack }
    }

    /// Constructs a standard deck and shuffles it.
    pub fn new_shuffled() -> (r: Deck)
        ensures
            r@.len() == DECK_SIZE,
            r.wf(),
            wilds_fresh(r@),
            forall|c: Card| r@.to_multiset().count(c) == spec_standard_count(c),
    {
        let mut deck = Self::new();
        deck.shuffle();
        deck
    }

    /// Shuffles the deck: the same cards in some new order.
    pub fn shuffle(&mut self)
        ensures
            final(self)@.len() == old(self)@.len(),
            final(self)@.to_multiset() == old(self)@.to_multiset(),
            forall|i: int| 0 <= i < final(self)@.len() ==> old(self)@.contains(
                #[trigger] final(self)@[i],
            ),
            old(self).wf() ==> final(self).wf(),
            wilds_fresh(old(self)@) ==> wilds_fresh(final(self)@),
    {
        let ghost before = self.stack@;
        rng::shuffle_cards(&mut self.stack);
        proof {
            lemma_same_multiset_same_elements(before, self.stack@);
            lemma_rearranged_cards_keep_properties(before, self.stack@);
        }
    }

    /// Removes the top card of the deck, or reports how short it is.
    pub fn take(&mut self) -> (r: Result<Card, DeckError>)
        ensures
            old(self)@.len() > 0 ==> r == Ok::<Card, DeckError>(old(self)@.last())
                && final(self)@ =~= old(self)@.drop_last(),
            old(self)@.len() == 0 ==> r == Err::<Card, DeckError>(DeckError::NotEnoughCards(0, 1))
                && final(self)@ =~= old(self)@,
    {
        match self.stack.pop() {
            Some(c) => Ok(c),
            None => Err(DeckError::NotEnoughCards(0, 1)),
        }
    }

    /// Removes the top `n` cards as one vector, or, if fewer than `n`
    /// remain, leaves the deck unchanged and reports the shortfall.
    pub fn take_many(&mut self, n: usize) -> (r: Result<Vec<Card>, DeckError>)
        ensures
            n <= old(self)@.len() ==> {
                &&& r matches Ok(cards) && cards@ =~= old(self)@.subrange(
                    old(self)@.len() - n,
                    old(self)@.len() as int,
                )
                &&& final(self)@ =~= old(self)@.subrange(0, old(self)@.len() - n)
            },
            n > old(self)@.len() ==> r == Err::<Vec<Card>, DeckError>(DeckError::NotEnoughCards(
                old(self)@.len() as usize,
                n,
            )) && final(self)@ =~= old(self)@,
    {
        let len = self.stack.len();
        if n > len {
            return Err(DeckError::NotEnoughCards(len, n));
        }
        Ok(self.stack.split_off(len - n))
    }

    /// Moves the given cards into the deck, on top of what it holds.
    pub fn add_cards(&mut self, cards: Vec<Card>)
        ensures
            final(self)@ =~= old(self)@ + cards@,
    {
        let mut cards = cards;
        self.stack.append(&mut cards);
    }

    /// Replaces the whole contents of the deck with the given cards.
    pub fn replace_cards(&mut self, cards: Vec<Card>)
        ensures
            final(self)@ =~= cards@,
    {
        self.stack = cards;
    }

    /// Indicates whether the deck holds no cards.
    pub fn is_empty(&self) -> (r: bool)
        ensures
            r == (self@.len() == 0),
    {
        self.stack.is_empty()
    }

    /// The number of cards left in the deck.
    pub fn len(&self) -> (r: usize)
        ensures
            r == self@.len(),
    {
        self.stack.len()
    }

    /// Returns the top card without removing it.
    pub fn peek(&self) -> (r: Result<&Card, DeckError>)
        ensures
            self@.len() > 0 ==> (r matches Ok(c) && *c == self@.last()),
            self@.len() == 0 ==> (r matches Err(e) && e == DeckError::NotEnoughCards(0, 1)),
    {
        if self.stack.len() == 0 {
            Err(DeckError::NotEnoughCards(0, 1))
        } else {
            Ok(&self.stack[self.stack.len() - 1])
        }
    }

    /// Resets every wild card back to `Undecided`: color decisions do
    /// not survive recycling.
    pub fn re_wild(&mut self)
        ensures
            final(self)@.len() == old(self)@.len(),
            forall|i: int| 0 <= i < old(self)@.len() ==> final(self)@[i] == spec_re_wild(
                #[trigger] old(self)@[i],
            ),
            old(self).wf() ==> final(self).wf(),
            wilds_fresh(final(self)@),
    {
        let mut out: Vec<Card> = Vec::new();
        let mut i: usize = 0;
        while i < self.stack.len()
            invariant
                i <= self.stack@.len(),
                self.stack@ =~= old(self)@,
                out@.len() == i,
                forall|j: int| 0 <= j < i ==> out@[j] == spec_re_wild(#[trigger] old(self)@[j]),
            decreases self.stack@.len() - i,
        {
            let c = self.stack[i];
            if c.is_wild {
                out.push(Card { face: c.face, color: Color::Undecided, is_wild: true });
            } else {
                out.push(c);
            }
            i = i + 1;
        }
        self.stack = out;
        proof {
            assert forall|k: int| 0 <= k < self.stack@.len() implies self.stack@[k] == spec_re_wild(
                #[trigger] old(self)@[k],
            ) by {}
            assert forall|k: int|
                0 <= k < self.stack@.len() && (#[trigger] self.stack@[k]).is_wild implies self.stack@[k].color
                == Color::Undecided by {
                assert(self.stack@[k] == spec_re_wild(old(self)@[k]));
            }
            if old(self).wf() {
                assert forall|k: int| 0 <= k < self.stack@.len() implies (
                #[trigger] self.stack@[k]).wf() by {
                    assert(old(self)@[k].wf());
                    assert(self.stack@[k] == spec_re_wild(old(self)@[k]));
                }
            }
        }
    }

    /// Whether the deck holds at least one card able to start the
    /// pile: any face but plus four.
    pub open spec fn spec_has_starter(s: Seq<Card>) -> bool {
        exists|i: int| 0 <= i < s.len() && s[i].face != Face::PlusFour
    }

    /// Draws cards from the top until a non-plus-four card is found
    /// and removes that card, leaving the drawn plus fours on top of
    /// the deck. Returns `None`, and leaves the deck unchanged, when
    /// every card is a plus four (or the deck is empty).
    pub fn take_starter(&mut self) -> (r: Option<Card>)
        ensures
            r is Some <==> Self::spec_has_starter(old(self)@),
            r matches Some(c) ==> exists|j: int|
                0 <= j < old(self)@.len() && c == old(self)@[j] && c.face != Face::PlusFour
                    && final(self)@ =~= old(self)@.remove(j),
            r matches Some(c) ==> final(self)@.len() == old(self)@.len() - 1,
            r is None ==> final(self)@ =~= old(self)@,
    {
        let mut j = self.stack.len();
        while j > 0
            invariant
                j <= self.stack@.len(),
                self.stack@ =~= old(self)@,
                forall|k: int| j <= k < self.stack@.len() ==> (#[trigger] self.stack@[k]).face
                    == Face::PlusFour,
            decreases j,
        {
            j = j - 1;
            if !(self.stack[j].face == Face::PlusFour) {
                let c = self.stack.remove(j);
                return Some(c);
            }
        }
        proof {
            assert(!Self::spec_has_starter(old(self)@));
        }
        None
    }
}

} // verus!
