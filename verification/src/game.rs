//! The single-game engine: dealing, the reshuffle protocol, and the
//! turn loop that drives one match to a winner.

use vstd::prelude::*;

use crate::card::Card;
use crate::color::{Color, ColorSuite};
use crate::deck::{all_wf, Deck, DeckError};
use crate::face::Face;
use crate::pile::Pile;
use crate::player::Player;
use crate::reversible_ring::ReversibleRing;
use crate::rules::Rules;

verus! {

/// The number of cards dealt to each player during setup.
pub const HAND_SIZE: usize = 7;

/// The turn budget of one match: a match that has not produced a
/// winner within this many turns is abandoned as stalled.
pub const MAX_TURNS: usize = 1000000;

/// A fault that ends a match without a winner. None of these can arise
/// from a standard deck and a legal roster; they replace the engine
/// panics a defect would otherwise cause.
#[derive(Copy, Clone, PartialEq, Eq, Structural, Debug)]
pub enum GameError {
    /// A draw could not be satisfied even after recycling the pile.
    OutOfCards,
    /// No card fit to start the pile: every card left was a plus four.
    NoStarter,
    /// The turn budget ran out without a winner.
    Stalled,
}

/// The total number of cards held in the players' hands.
pub open spec fn cards_in_hands(players: Seq<Player>) -> int
    decreases players.len(),
{
    if players.len() == 0 {
        0
    } else {
        players[0].hand@.len() + cards_in_hands(players.drop_first())
    }
}

/// The identities of the players, in seating order.
pub open spec fn ids_of(players: Seq<Player>) -> Seq<u32> {
    Seq::new(players.len(), |i: int| players[i].id)
}

/// Whether two players are the same participant: the same id, name and
/// strategy. Their hands may differ.
pub open spec fn same_player_identity(a: Player, b: Player) -> bool {
    &&& a.id == b.id
    &&& a.name@ == b.name@
    &&& a.strategy == b.strategy
}

/// Every player's hand holds only well-formed cards.
pub open spec fn hands_wf(players: Seq<Player>) -> bool {
    forall|i: int| 0 <= i < players.len() ==> (#[trigger] players[i]).hand.wf()
}

/// Every card of the sequence is well formed and shows a concrete
/// color: what holds of every card ever placed on the pile.
pub open spec fn pile_ok(s: Seq<Card>) -> bool {
    forall|i: int| 0 <= i < s.len() ==> (#[trigger] s[i]).wf() && s[i].color != Color::Undecided
}

/// Whether `b` is `mid` with every wild color reset, position by
/// position.
pub open spec fn is_re_wild_of(mid: Seq<Card>, b: Seq<Card>) -> bool {
    &&& b.len() == mid.len()
    &&& forall|i: int| 0 <= i < mid.len() ==> b[i] == crate::deck::spec_re_wild(#[trigger] mid[i])
}

/// Hand counts never go negative.
pub proof fn lemma_hands_nonneg(players: Seq<Player>)
    ensures
        cards_in_hands(players) >= 0,
    decreases players.len(),
{
    if players.len() > 0 {
        lemma_hands_nonneg(players.drop_first());
    }
}

/// Removing one player removes exactly that player's hand count.
pub proof fn lemma_hands_remove(players: Seq<Player>, i: int)
    requires
        0 <= i < players.len(),
    ensures
        cards_in_hands(players.remove(i)) == cards_in_hands(players) - players[i].hand@.len(),
    decreases players.len(),
{
    if i == 0 {
        assert(players.remove(0) =~= players.drop_first());
    } else {
        assert(players.remove(i).drop_first() =~= players.drop_first().remove(i - 1));
        assert(players.remove(i)[0] == players[0]);
        lemma_hands_remove(players.drop_first(), i - 1);
    }
}

/// Inserting one player adds exactly that player's hand count.
pub proof fn lemma_hands_insert(players: Seq<Player>, i: int, p: Player)
    requires
        0 <= i <= players.len(),
    ensures
        cards_in_hands(players.insert(i, p)) == cards_in_hands(players) + p.hand@.len(),
    decreases players.len(),
{
    if i == 0 {
        assert(players.insert(0, p).drop_first() =~= players);
        assert(players.insert(0, p)[0] == p);
    } else {
        assert(players.insert(i, p).drop_first() =~= players.drop_first().insert(i - 1, p));
        assert(players.insert(i, p)[0] == players[0]);
        lemma_hands_insert(players.drop_first(), i - 1, p);
    }
}

/// A roster of empty hands holds no cards.
pub proof fn lemma_hands_all_empty(players: Seq<Player>)
    requires
        forall|i: int| 0 <= i < players.len() ==> (#[trigger] players[i]).hand@.len() == 0,
    ensures
        cards_in_hands(players) == 0,
    decreases players.len(),
{
    if players.len() > 0 {
        lemma_hands_all_empty(players.drop_first());
    }
}

/// Handles dealing operations over a deck, on behalf of one game.
#[derive(Debug)]
pub struct Dealer {
    pub deck: Deck,
}

impl Dealer {
    /// Wraps the given deck.
    pub fn new(deck: Deck) -> (r: Dealer)
        ensures
            r.deck@ == deck@,
    {
        Dealer { deck }
    }

    /// Deals one card off the top of the deck into the player's hand.
    pub fn deal(&mut self, player: &mut Player) -> (r: Result<(), DeckError>)
        ensures
            final(player).id == old(player).id,
            final(player).name@ == old(player).name@,
            final(player).strategy == old(player).strategy,
            old(self).deck@.len() > 0 ==> {
                &&& r is Ok
                &&& final(self).deck@ =~= old(self).deck@.drop_last()
                &&& final(player).hand@ =~= old(player).hand@.push(old(self).deck@.last())
            },
            old(self).deck@.len() == 0 ==> {
                &&& r == Err::<(), DeckError>(DeckError::NotEnoughCards(0, 1))
                &&& final(self).deck@ == old(self).deck@
                &&& final(player).hand@ == old(player).hand@
            },
    {
        let card = match self.deck.take() {
            Ok(c) => c,
            Err(e) => {
                return Err(e);
            },
        };
        player.hand.add_card(card);
        Ok(())
    }

    /// Deals `n` cards off the top of the deck into the player's hand,
    /// as one operation, or deals nothing and reports the shortfall.
    pub fn deal_many(&mut self, player: &mut Player, n: usize) -> (r: Result<(), DeckError>)
        ensures
            final(player).id == old(player).id,
            final(player).name@ == old(player).name@,
            final(player).strategy == old(player).strategy,
            n <= old(self).deck@.len() ==> {
                &&& r is Ok
                &&& final(self).deck@ =~= old(self).deck@.subrange(
                    0,
                    old(self).deck@.len() - n,
                )
                &&& final(player).hand@ =~= old(player).hand@ + old(self).deck@.subrange(
                    old(self).deck@.len() - n,
                    old(self).deck@.len() as int,
                )
            },
            n > old(self).deck@.len() ==> {
                &&& r == Err::<(), DeckError>(DeckError::NotEnoughCards(
                    old(self).deck@.len() as usize,
                    n,
                ))
                &&& final(self).deck@ == old(self).deck@
                &&& final(player).hand@ == old(player).hand@
            },
    {
        let cards = match self.deck.take_many(n) {
            Ok(cs) => cs,
            Err(e) => {
                return Err(e);
            },
        };
        player.hand.add_many(cards);
        Ok(())
    }

    /// The reshuffle protocol: the pile is reduced to its starter
    /// card, every other pile card moves into the deck, the deck is
    /// shuffled, and recycled wild cards lose their assigned colors.
    pub fn reshuffle(&mut self, pile: &mut Pile)
        requires
            old(pile)@.len() >= 1,
        ensures
            final(pile)@ =~= seq![old(pile)@[0]],
            final(self).deck@.len() == old(self).deck@.len() + old(pile)@.len() - 1,
            all_wf(old(self).deck@) && pile_ok(old(pile)@) ==> all_wf(final(self).deck@),
            crate::deck::wilds_fresh(final(self).deck@),
            exists|mid: Seq<Card>| #[trigger] is_re_wild_of(mid, final(self).deck@)
                && mid.to_multiset() == old(self).deck@.to_multiset().add(
                old(pile)@.subrange(1, old(pile)@.len() as int).to_multiset(),
            ),
    {
        let ghost deck_before = self.deck@;
        let ghost pile_before = pile@;
        let pile_tail = pile.reduce_to_top();
        self.deck.add_cards(pile_tail);
        proof {
            if all_wf(deck_before) && pile_ok(pile_before) {
                assert forall|i: int| 0 <= i < self.deck@.len() implies (
                #[trigger] self.deck@[i]).wf() by {
                    if i < deck_before.len() {
                        assert(self.deck@[i] == deck_before[i]);
                    } else {
                        assert(self.deck@[i] == pile_before[i - deck_before.len() + 1]);
                    }
                }
            }
        }
        proof {
            vstd::seq_lib::lemma_multiset_commutative(
                deck_before,
                pile_before.subrange(1, pile_before.len() as int),
            );
        }
        self.deck.shuffle();
        let ghost mid = self.deck@;
        self.deck.re_wild();
        proof {
            assert(is_re_wild_of(mid, self.deck@));
        }
    }

    /// Removes and returns the top card of the deck.
    pub fn take(&mut self) -> (r: Result<Card, DeckError>)
        ensures
            old(self).deck@.len() > 0 ==> r == Ok::<Card, DeckError>(old(self).deck@.last())
                && final(self).deck@ =~= old(self).deck@.drop_last(),
            old(self).deck@.len() == 0 ==> r is Err && final(self).deck@ == old(self).deck@,
    {
        self.deck.take()
    }

    /// Returns the top card of the deck without removing it.
    pub fn peek(&self) -> (r: Result<&Card, DeckError>)
        ensures
            self.deck@.len() > 0 ==> (r matches Ok(c) && *c == self.deck@.last()),
            self.deck@.len() == 0 ==> r is Err,
    {
        self.deck.peek()
    }
}

/// One complete match: a seating of players, a dealer over the deck, a
/// discard pile, the rules, and the running forced-draw total.
#[derive(Debug)]
pub struct Game {
    pub player_handler: ReversibleRing<Player>,
    pub dealer: Dealer,
    pub pile: Pile,
    pub rules: Rules,
    pub stack_count: usize,
    pub verbose: bool,
}

impl Game {
    /// Everything the turn loop keeps true of the game's parts: the
    /// seating is sound, every card anywhere is well formed, every
    /// card on the pile shows a concrete color, and the forced-draw
    /// total is bounded by the pile that produced it.
    pub open spec fn inv(self) -> bool {
        &&& self.player_handler.wf()
        &&& all_wf(self.dealer.deck@)
        &&& hands_wf(self.player_handler@)
        &&& pile_ok(self.pile@)
        &&& self.stack_count <= 4 * self.pile@.len()
    }

    /// The conservation measure: every card is in the deck, in some
    /// hand, or on the pile.
    pub open spec fn total_cards(self) -> int {
        self.dealer.deck@.len() + cards_in_hands(self.player_handler@) + self.pile@.len()
    }

    /// Assembles a match over the given players: a fresh shuffled
    /// deck, an empty pile, and no forced-draw total.
    pub fn new(players: Vec<Player>, rules: Rules, verbose: bool) -> (r: Game)
        requires
            players@.len() > 0,
            forall|i: int| 0 <= i < players@.len() ==> (#[trigger] players@[i]).hand@.len() == 0,
        ensures
            r.player_handler@ == players@,
            r.dealer.deck@.len() == crate::deck::DECK_SIZE,
            r.pile@.len() == 0,
            r.stack_count == 0,
            r.rules == rules,
            r.verbose == verbose,
            r.inv(),
            r.total_cards() == crate::deck::DECK_SIZE,
            forall|c: Card| r.dealer.deck@.to_multiset().count(c)
                == crate::deck::spec_standard_count(c),
    {
        let g = Game {
            player_handler: ReversibleRing::from_iter(players),
            dealer: Dealer::new(Deck::new_shuffled()),
            pile: Pile::new(),
            rules,
            stack_count: 0,
            verbose,
        };
        proof {
            lemma_hands_all_empty(g.player_handler@);
        }
        g
    }

    /// Starts a builder for a game.
    pub fn builder() -> (r: GameBuilder)
        ensures
            r.players@.len() == 0,
            r.rules is None,
    {
        GameBuilder::default()
    }

    /// Deals the starting hand to every player, in seating order.
    pub fn initial_deal(&mut self)
        requires
            old(self).inv(),
            HAND_SIZE * old(self).player_handler@.len() <= old(self).dealer.deck@.len(),
        ensures
            final(self).inv(),
            final(self).player_handler@.len() == old(self).player_handler@.len(),
            ids_of(final(self).player_handler@) =~= ids_of(old(self).player_handler@),
            final(self).player_handler.cursor() == old(self).player_handler.cursor(),
            final(self).player_handler.heading() == old(self).player_handler.heading(),
            final(self).dealer.deck@.len() == old(self).dealer.deck@.len() - HAND_SIZE * old(
                self,
            ).player_handler@.len(),
            forall|i: int| 0 <= i < final(self).player_handler@.len() ==> (
            #[trigger] final(self).player_handler@[i]).hand@.len() == old(
                self,
            ).player_handler@[i].hand@.len() + HAND_SIZE,
            forall|i: int| 0 <= i < final(self).player_handler@.len() ==> same_player_identity(
                old(self).player_handler@[i],
                #[trigger] final(self).player_handler@[i],
            ),
            final(self).total_cards() == old(self).total_cards(),
            final(self).pile@ == old(self).pile@,
            final(self).stack_count == old(self).stack_count,
            final(self).rules == old(self).rules,
            final(self).verbose == old(self).verbose,
    {
        let n = self.player_handler.len();
        let mut k: usize = 0;
        while k < n
            invariant
                self.player_handler@.len() == n,
                n == old(self).player_handler@.len(),
                k <= n,
                self.player_handler.wf(),
                all_wf(self.dealer.deck@),
                hands_wf(self.player_handler@),
                pile_ok(self.pile@),
                self.stack_count <= 4 * self.pile@.len(),
                self.dealer.deck@.len() == old(self).dealer.deck@.len() - HAND_SIZE * k,
                HAND_SIZE * (n - k) <= self.dealer.deck@.len(),
                forall|i: int| k <= i < n ==> self.player_handler@[i] == old(
                    self,
                ).player_handler@[i],
                forall|i: int| 0 <= i < k ==> {
                    &&& (#[trigger] self.player_handler@[i]).id == old(self).player_handler@[i].id
                    &&& self.player_handler@[i].name@ == old(self).player_handler@[i].name@
                    &&& self.player_handler@[i].strategy == old(self).player_handler@[i].strategy
                    &&& self.player_handler@[i].hand@.len() == old(
                        self,
                    ).player_handler@[i].hand@.len() + HAND_SIZE
                },
                self.player_handler.cursor() == old(self).player_handler.cursor(),
                self.player_handler.heading() == old(self).player_handler.heading(),
                self.total_cards() == old(self).total_cards(),
                self.pile@ == old(self).pile@,
                self.stack_count == old(self).stack_count,
                self.rules == old(self).rules,
                self.verbose == old(self).verbose,
            decreases n - k,
        {
            let ghost s_before = self.player_handler@;
            let mut p = self.player_handler.remove_at(k);
            proof {
                lemma_hands_remove(s_before, k as int);
            }
            let res = self.dealer.deal_many(&mut p, HAND_SIZE);
            match res {
                Ok(()) => {},
                Err(_) => {
                    // Unreachable: the loop keeps enough cards in the
                    // deck for every starting hand still to be dealt.
                    proof {
                        assert(false);
                    }
                },
            }
            let ghost s_removed = self.player_handler@;
            self.player_handler.insert_at(k, p);
            proof {
                lemma_hands_insert(s_removed, k as int, p);
                assert(self.player_handler@ =~= s_before.update(k as int, p));
            }
            k = k + 1;
        }
        proof {
            assert(ids_of(self.player_handler@) =~= ids_of(old(self).player_handler@));
        }
    }

    /// Initializes the pile: draws down to the first card that is not
    /// a plus four, gives it a concrete color if it is an undecided
    /// wild, and places it as the starter. Fails only when every card
    /// left in the deck is a plus four.
    pub fn initialize_pile(&mut self) -> (r: Result<(), GameError>)
        requires
            old(self).inv(),
            old(self).pile@.len() == 0,
        ensures
            final(self).player_handler == old(self).player_handler,
            final(self).rules == old(self).rules,
            final(self).stack_count == old(self).stack_count,
            final(self).verbose == old(self).verbose,
            r is Ok <==> Deck::spec_has_starter(old(self).dealer.deck@),
            r matches Err(e) ==> e == GameError::NoStarter && final(self).dealer.deck@ == old(
                self,
            ).dealer.deck@ && final(self).pile@ == old(self).pile@,
            r is Ok ==> {
                &&& final(self).inv()
                &&& final(self).pile@.len() == 1
                &&& final(self).pile@[0].face != Face::PlusFour
                &&& final(self).pile@[0].color != Color::Undecided
                &&& final(self).pile@[0].wf()
                &&& final(self).dealer.deck@.len() == old(self).dealer.deck@.len() - 1
                &&& final(self).total_cards() == old(self).total_cards()
            },
    {
        let ghost deck_before = self.dealer.deck@;
        match self.dealer.deck.take_starter() {
            None => Err(GameError::NoStarter),
            Some(top) => {
                let mut top = top;
                proof {
                    let j = choose|j: int|
                        0 <= j < deck_before.len() && top == deck_before[j] && top.face
                            != Face::PlusFour && self.dealer.deck@ =~= deck_before.remove(j);
                    assert(deck_before[j].wf());
                    assert forall|i: int| 0 <= i < self.dealer.deck@.len() implies (
                    #[trigger] self.dealer.deck@[i]).wf() by {
                        if i < j {
                            assert(self.dealer.deck@[i] == deck_before[i]);
                        } else {
                            assert(self.dealer.deck@[i] == deck_before[i + 1]);
                        }
                    }
                }
                if top.color == Color::Undecided {
                    proof {
                        assert(top.wf());
                    }
                    top.assign_color(ColorSuite::random());
                }
                self.pile.add(top);
                Ok(())
            },
        }
    }

    /// Draws `n` cards into the player's hand, invoking the reshuffle
    /// protocol once if the deck runs short. Succeeds exactly when the
    /// deck and the pile minus its starter hold `n` cards between
    /// them; otherwise nothing is drawn and the match is lost to an
    /// unrecoverable card shortage.
    fn draw_for(&mut self, player: &mut Player, n: usize) -> (r: Result<(), GameError>)
        requires
            old(self).pile@.len() >= 1,
            all_wf(old(self).dealer.deck@),
            pile_ok(old(self).pile@),
            old(player).hand.wf(),
        ensures
            final(self).player_handler == old(self).player_handler,
            final(self).rules == old(self).rules,
            final(self).stack_count == old(self).stack_count,
            final(self).verbose == old(self).verbose,
            final(player).id == old(player).id,
            final(player).name@ == old(player).name@,
            final(player).strategy == old(player).strategy,
            all_wf(final(self).dealer.deck@),
            pile_ok(final(self).pile@),
            final(player).hand.wf(),
            final(self).pile@.len() >= 1,
            final(self).pile@ == old(self).pile@ || final(self).pile@ =~= seq![
                old(self).pile@[0],
            ],
            r is Ok <==> n + 1 <= old(self).dealer.deck@.len() + old(self).pile@.len(),
            r is Ok ==> {
                &&& final(player).hand@.len() == old(player).hand@.len() + n
                &&& final(self).dealer.deck@.len() + final(self).pile@.len() == old(
                    self,
                ).dealer.deck@.len() + old(self).pile@.len() - n
            },
            r is Err ==> {
                &&& r == Err::<(), GameError>(GameError::OutOfCards)
                &&& final(player).hand@ == old(player).hand@
                &&& final(self).dealer.deck@.len() + final(self).pile@.len() == old(
                    self,
                ).dealer.deck@.len() + old(self).pile@.len()
            },
    {
        let res = self.dealer.deal_many(player, n);
        match res {
            Ok(()) => {
                proof {
                    assert forall|i: int| 0 <= i < player.hand@.len() implies (
                    #[trigger] player.hand@[i]).wf() by {}
                }
                Ok(())
            },
            Err(_) => {
                self.dealer.reshuffle(&mut self.pile);
                let res2 = self.dealer.deal_many(player, n);
                match res2 {
                    Ok(()) => {
                        proof {
                            assert forall|i: int| 0 <= i < player.hand@.len() implies (
                            #[trigger] player.hand@[i]).wf() by {}
                        }
                        Ok(())
                    },
                    Err(_) => Err(GameError::OutOfCards),
                }
            },
        }
    }
}

impl Game {
    /// Runs one complete match: shuffles, deals, initializes the pile,
    /// then loops through turns until a player sheds the last card and
    /// leaves the engine by value as the winner. At every point of the
    /// turn loop, and again when the match is over, the deck, the
    /// hands and the pile together hold exactly the cards the game
    /// started with: on a win the winner departs empty-handed with its
    /// last card on the pile, and on a fault every player stays
    /// seated. A match that exhausts its cards or its turn budget ends
    /// in an error instead of a winner; neither arises from a standard
    /// deck and roster.
    pub fn play_until_winner(&mut self) -> (r: Result<Player, GameError>)
        requires
            old(self).inv(),
            old(self).pile@.len() == 0,
            old(self).stack_count == 0,
            forall|i: int| 0 <= i < old(self).player_handler@.len() ==> (#[trigger] old(
                self,
            ).player_handler@[i]).hand@.len() == 0,
            HAND_SIZE * old(self).player_handler@.len() < old(self).dealer.deck@.len(),
            old(self).dealer.deck@.len() <= 1000000,
        ensures
            final(self).total_cards() == old(self).dealer.deck@.len(),
            r is Err ==> final(self).player_handler@.len() == old(self).player_handler@.len()
                && (forall|i: int| 0 <= i < old(self).player_handler@.len()
                ==> same_player_identity(
                old(self).player_handler@[i],
                #[trigger] final(self).player_handler@[i],
            )),
            r matches Ok(p) ==> {
                &&& p.hand@.len() == 0
                &&& ids_of(old(self).player_handler@).contains(p.id)
                &&& exists|i: int| 0 <= i < old(self).player_handler@.len()
                    && #[trigger] same_player_identity(old(self).player_handler@[i], p)
                &&& final(self).player_handler@.len() == old(self).player_handler@.len() - 1
                &&& forall|i: int| 0 <= i < final(self).player_handler@.len() ==> (
                #[trigger] final(self).player_handler@[i]).hand@.len() > 0
                &&& final(self).pile@.len() >= 2
            },
    {
        let ghost roster = old(self).player_handler@;
        proof {
            lemma_hands_all_empty(roster);
        }
        self.dealer.deck.shuffle();
        self.initial_deal();
        let res = self.initialize_pile();
        match res {
            Err(e) => {
                proof {
                    assert(self.total_cards() == old(self).dealer.deck@.len());
                }
                return Err(e);
            },
            Ok(()) => {},
        }
        let ghost total0 = self.total_cards();
        proof {
            assert(total0 <= 1000000);
            assert(total0 == old(self).dealer.deck@.len());
        }
        let mut turns: usize = 0;
        while turns < MAX_TURNS
            invariant
                roster == old(self).player_handler@,
                self.inv(),
                self.pile@.len() >= 1,
                self.total_cards() == total0,
                total0 <= 1000000,
                total0 == old(self).dealer.deck@.len(),
                self.player_handler@.len() == roster.len(),
                forall|i: int| 0 <= i < roster.len() ==> same_player_identity(
                    roster[i],
                    #[trigger] self.player_handler@[i],
                ),
                forall|i: int| 0 <= i < self.player_handler@.len() ==> (
                #[trigger] self.player_handler@[i]).hand@.len() > 0,
                turns <= MAX_TURNS,
            decreases MAX_TURNS - turns,
        {
            turns = turns + 1;
            let ghost s0 = self.player_handler@;
            let idx = self.player_handler.next();
            let mut player = self.player_handler.remove_at(idx);
            proof {
                lemma_hands_remove(s0, idx as int);
                lemma_hands_nonneg(s0);
                assert(self.pile@.len() <= total0);
                assert(player.hand.wf());
            }
            let top = *self.pile.top();
            if self.stack_count > 0 {
                let result = player.play(&top, &self.rules, true);
                match result.card {
                    None => {
                        // The player cannot extend the stack: they
                        // draw the whole running total and it resets.
                        let need = self.stack_count;
                        let dres = self.draw_for(&mut player, need);
                        match dres {
                            Ok(()) => {},
                            Err(e) => {
                                // The match is lost to a card shortage,
                                // but the seating keeps its player and
                                // every card.
                                let ghost s1 = self.player_handler@;
                                self.player_handler.insert_at(idx, player);
                                proof {
                                    lemma_hands_insert(s1, idx as int, player);
                                    assert(self.total_cards() == total0);
                                    assert(self.player_handler@ =~= s0.update(
                                        idx as int,
                                        player,
                                    ));
                                    assert(same_player_identity(
                                        roster[idx as int],
                                        s0[idx as int],
                                    ));
                                    assert forall|i: int|
                                        0 <= i < roster.len() implies same_player_identity(
                                        roster[i],
                                        #[trigger] self.player_handler@[i],
                                    ) by {
                                        if i != idx {
                                            assert(self.player_handler@[i] == s0[i]);
                                        }
                                    }
                                }
                                return Err(e);
                            },
                        }
                        self.stack_count = 0;
                        let ghost s1 = self.player_handler@;
                        self.player_handler.insert_at(idx, player);
                        proof {
                            lemma_hands_insert(s1, idx as int, player);
                            assert(self.player_handler@ =~= s0.update(idx as int, player));
                            assert(same_player_identity(roster[idx as int], s0[idx as int]));
                            assert forall|i: int|
                                0 <= i < self.player_handler@.len() implies same_player_identity(
                                roster[i],
                                #[trigger] self.player_handler@[i],
                            ) && self.player_handler@[i].hand.wf()
                                && self.player_handler@[i].hand@.len() > 0 by {
                                if i != idx {
                                    assert(self.player_handler@[i] == s0[i]);
                                }
                            }
                        }
                    },
                    Some(c) => {
                        self.pile.add(c);
                        let v = c.plus_stack_value();
                        self.stack_count = self.stack_count + v;
                        if result.was_last_card {
                            proof {
                                assert(same_player_identity(roster[idx as int], s0[idx as int]));
                                assert(same_player_identity(roster[idx as int], player));
                                assert(ids_of(roster)[idx as int] == player.id);
                                assert(ids_of(roster).contains(player.id));
                                // The seating shrank by exactly the winner.
                                assert(self.player_handler@ =~= s0.remove(idx as int));
                                assert forall|i: int|
                                    0 <= i < self.player_handler@.len() implies (
                                #[trigger] self.player_handler@[i]).hand@.len() > 0 by {
                                    if i < idx {
                                        assert(self.player_handler@[i] == s0[i]);
                                    } else {
                                        assert(self.player_handler@[i] == s0[i + 1]);
                                    }
                                }
                                // The last card left the winner's hand for the
                                // pile, so the card total is untouched.
                                assert(s0[idx as int].hand@.len() == 1);
                                assert(self.total_cards() == total0);
                            }
                            return Ok(player);
                        }
                        let ghost s1 = self.player_handler@;
                        self.player_handler.insert_at(idx, player);
                        proof {
                            lemma_hands_insert(s1, idx as int, player);
                            assert(self.player_handler@ =~= s0.update(idx as int, player));
                            assert(same_player_identity(roster[idx as int], s0[idx as int]));
                            assert forall|i: int|
                                0 <= i < self.player_handler@.len() implies same_player_identity(
                                roster[i],
                                #[trigger] self.player_handler@[i],
                            ) && self.player_handler@[i].hand.wf()
                                && self.player_handler@[i].hand@.len() > 0 by {
                                if i != idx {
                                    assert(self.player_handler@[i] == s0[i]);
                                }
                            }
                        }
                    },
                }
            } else {
                let result = player.play(&top, &self.rules, false);
                match result.card {
                    Some(c) => {
                        self.pile.add(c);
                        if result.was_last_card {
                            proof {
                                assert(same_player_identity(roster[idx as int], s0[idx as int]));
                                assert(same_player_identity(roster[idx as int], player));
                                assert(ids_of(roster)[idx as int] == player.id);
                                assert(ids_of(roster).contains(player.id));
                                // The seating shrank by exactly the winner.
                                assert(self.player_handler@ =~= s0.remove(idx as int));
                                assert forall|i: int|
                                    0 <= i < self.player_handler@.len() implies (
                                #[trigger] self.player_handler@[i]).hand@.len() > 0 by {
                                    if i < idx {
                                        assert(self.player_handler@[i] == s0[i]);
                                    } else {
                                        assert(self.player_handler@[i] == s0[i + 1]);
                                    }
                                }
                                // The last card left the winner's hand for the
                                // pile, so the card total is untouched.
                                assert(s0[idx as int].hand@.len() == 1);
                                assert(self.total_cards() == total0);
                            }
                            return Ok(player);
                        }
                        let ghost s1 = self.player_handler@;
                        self.player_handler.insert_at(idx, player);
                        proof {
                            lemma_hands_insert(s1, idx as int, player);
                            assert(self.player_handler@ =~= s0.update(idx as int, player));
                            assert(same_player_identity(roster[idx as int], s0[idx as int]));
                            assert forall|i: int|
                                0 <= i < self.player_handler@.len() implies same_player_identity(
                                roster[i],
                                #[trigger] self.player_handler@[i],
                            ) && self.player_handler@[i].hand.wf()
                                && self.player_handler@[i].hand@.len() > 0 by {
                                if i != idx {
                                    assert(self.player_handler@[i] == s0[i]);
                                }
                            }
                        }
                        // The card's face effect: reverse the order,
                        // consume the next turn, or open a new
                        // forced-draw stack.
                        if c.face == Face::Reverse {
                            self.player_handler.reverse();
                        } else if c.face == Face::Skip {
                            self.player_handler.skip();
                        } else if c.face == Face::PlusTwo || c.face == Face::PlusFour {
                            let v = c.plus_stack_value();
                            self.stack_count = self.stack_count + v;
                        }
                    },
                    None => {
                        // Nothing playable: draw one card, turn over.
                        let dres = self.draw_for(&mut player, 1);
                        match dres {
                            Ok(()) => {},
                            Err(e) => {
                                // The match is lost to a card shortage,
                                // but the seating keeps its player and
                                // every card.
                                let ghost s1 = self.player_handler@;
                                self.player_handler.insert_at(idx, player);
                                proof {
                                    lemma_hands_insert(s1, idx as int, player);
                                    assert(self.total_cards() == total0);
                                    assert(self.player_handler@ =~= s0.update(
                                        idx as int,
                                        player,
                                    ));
                                    assert(same_player_identity(
                                        roster[idx as int],
                                        s0[idx as int],
                                    ));
                                    assert forall|i: int|
                                        0 <= i < roster.len() implies same_player_identity(
                                        roster[i],
                                        #[trigger] self.player_handler@[i],
                                    ) by {
                                        if i != idx {
                                            assert(self.player_handler@[i] == s0[i]);
                                        }
                                    }
                                }
                                return Err(e);
                            },
                        }
                        let ghost s1 = self.player_handler@;
                        self.player_handler.insert_at(idx, player);
                        proof {
                            lemma_hands_insert(s1, idx as int, player);
                            assert(self.player_handler@ =~= s0.update(idx as int, player));
                            assert(same_player_identity(roster[idx as int], s0[idx as int]));
                            assert forall|i: int|
                                0 <= i < self.player_handler@.len() implies same_player_identity(
                                roster[i],
                                #[trigger] self.player_handler@[i],
                            ) && self.player_handler@[i].hand.wf()
                                && self.player_handler@[i].hand@.len() > 0 by {
                                if i != idx {
                                    assert(self.player_handler@[i] == s0[i]);
                                }
                            }
                        }
                    },
                }
            }
        }
        Err(GameError::Stalled)
    }
}

/// Accumulates the roster and rules for one game.
#[derive(Debug)]
pub struct GameBuilder {
    pub players: Vec<Player>,
    pub rules: Option<Rules>,
}

impl Default for GameBuilder {
    /// An empty builder: no players, no rules chosen yet.
    fn default() -> (r: GameBuilder)
        ensures
            r.players@.len() == 0,
            r.rules is None,
    {
        GameBuilder { players: Vec::new(), rules: None }
    }
}

} // verus!
