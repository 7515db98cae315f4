use std::collections::HashMap;

use uno_sim::card::Card;
use uno_sim::color::{Color, ColorSuite};
use uno_sim::deck::{Deck, DeckError};
use uno_sim::face::Face;
use uno_sim::game::Dealer;
use uno_sim::hand::Hand;
use uno_sim::pile::Pile;
use uno_sim::player::Player;
use uno_sim::rules::PlusStacking;
use uno_sim::strategy::Strategy;

fn red(face: Face) -> Card {
    Card::new_colored(face, ColorSuite::Red)
}

fn blue(face: Face) -> Card {
    Card::new_colored(face, ColorSuite::Blue)
}

#[test]
fn hand_add_remove() {
    let mut h = Hand::new();
    assert!(h.is_empty());
    h.add_card(red(Face::One));
    h.add_card(blue(Face::Two));
    h.add_many(vec![red(Face::Three)]);
    assert!(!h.is_empty());
    assert_eq!(h.len(), 3);
    assert_eq!(*h.get(1), blue(Face::Two));
    // Swap-remove: the last card takes the removed card's place.
    let taken = h.remove(0);
    assert_eq!(taken, red(Face::One));
    assert_eq!(h.len(), 2);
    assert_eq!(*h.get(0), red(Face::Three));
}

#[test]
fn hand_stackable_indices() {
    let mut h = Hand::new();
    h.add_card(red(Face::One));
    h.add_card(blue(Face::Seven));
    h.add_card(Card::new_wild(Face::Wild));
    h.add_card(blue(Face::One));
    let target = red(Face::Seven);
    // Red One (color), Blue Seven (face), Wild (always); not Blue One.
    assert_eq!(h.all_stackable_indices(&target), vec![0, 1, 2]);
}

#[test]
fn hand_plus_stackable_indices() {
    let mut h = Hand::new();
    h.add_card(red(Face::PlusTwo));
    h.add_card(red(Face::Five));
    h.add_card(Card::new_wild(Face::PlusFour));
    let target = blue(Face::PlusTwo);
    assert_eq!(h.all_plus_stackable(&target, &PlusStacking::Conservative), vec![0, 2]);
    assert_eq!(h.all_plus_stackable(&target, &PlusStacking::Banned), Vec::<usize>::new());
    // Liberal: the red plus two does not match the blue target's color.
    assert_eq!(h.all_plus_stackable(&target, &PlusStacking::Liberal), vec![2]);
}

fn card_counts(cards: &[Card]) -> HashMap<(Face, Color, bool), usize> {
    let mut m = HashMap::new();
    for c in cards {
        *m.entry((c.face, c.color, c.is_wild)).or_insert(0) += 1;
    }
    m
}

#[test]
fn deck_new_is_standard() {
    let mut d = Deck::new();
    assert_eq!(d.len(), 108);
    assert!(!d.is_empty());
    let cards = d.take_many(108).unwrap();
    assert!(d.is_empty());
    let counts = card_counts(&cards);
    // One zero and two of each double face per color.
    for suite in ColorSuite::all() {
        let color = suite.to_color();
        assert_eq!(counts[&(Face::Zero, color, false)], 1);
        for face in Face::double_faces() {
            assert_eq!(counts[&(face, color, false)], 2);
        }
    }
    // Four of each wild face, all undecided.
    assert_eq!(counts[&(Face::Wild, Color::Undecided, true)], 4);
    assert_eq!(counts[&(Face::PlusFour, Color::Undecided, true)], 4);
}

#[test]
fn deck_shuffle_keeps_cards() {
    let mut plain = Deck::new();
    let mut shuffled = Deck::new_shuffled();
    let a = plain.take_many(108).unwrap();
    let b = shuffled.take_many(108).unwrap();
    assert_eq!(card_counts(&a), card_counts(&b));
}

#[test]
fn deck_take_and_peek() {
    let mut d = Deck::new();
    let top = *d.peek().unwrap();
    let taken = d.take().unwrap();
    assert_eq!(top, taken);
    assert_eq!(d.len(), 107);
    let mut empty = Deck::new();
    empty.take_many(108).unwrap();
    assert_eq!(empty.take(), Err(DeckError::NotEnoughCards(0, 1)));
    assert!(empty.peek().is_err());
}

#[test]
fn deck_take_many_shortfall() {
    let mut d = Deck::new();
    assert_eq!(d.take_many(109), Err(DeckError::NotEnoughCards(108, 109)));
    assert_eq!(d.len(), 108);
    let seven = d.take_many(7).unwrap();
    assert_eq!(seven.len(), 7);
    assert_eq!(d.len(), 101);
}

#[test]
fn deck_re_wild_resets_assigned_colors() {
    let mut w = Card::new_wild(Face::Wild);
    w.assign_color(ColorSuite::Green);
    let mut d = Deck::new();
    d.take_many(108).unwrap();
    d.replace_cards(vec![w, red(Face::Five)]);
    d.re_wild();
    let five = d.take().unwrap();
    let wild = d.take().unwrap();
    assert_eq!(five, red(Face::Five));
    assert_eq!(wild.color, Color::Undecided);
    assert!(wild.is_wild);
    assert_eq!(wild.face, Face::Wild);
}

#[test]
fn pile_reduce_to_top() {
    let mut p = Pile::new();
    p.add(red(Face::One));
    p.add(blue(Face::Two));
    p.add(red(Face::Three));
    assert_eq!(*p.top(), red(Face::Three));
    let tail = p.reduce_to_top();
    // The starter card stays; everything above it is returned.
    assert_eq!(p.len(), 1);
    assert_eq!(*p.top(), red(Face::One));
    assert_eq!(tail, vec![blue(Face::Two), red(Face::Three)]);
}

#[test]
fn reshuffle_recycles_pile_into_deck() {
    let mut dealer = Dealer::new(Deck::new());
    dealer.deck.take_many(108).unwrap();
    assert!(dealer.deck.is_empty());
    let mut pile = Pile::new();
    pile.add(red(Face::One));
    let mut w = Card::new_wild(Face::Wild);
    w.assign_color(ColorSuite::Blue);
    pile.add(w);
    pile.add(blue(Face::Two));
    dealer.reshuffle(&mut pile);
    // The pile keeps exactly its starter; the deck grows by the rest.
    assert_eq!(pile.len(), 1);
    assert_eq!(*pile.top(), red(Face::One));
    assert_eq!(dealer.deck.len(), 2);
    // The recycled wild card lost its assigned color.
    let cards = dealer.deck.take_many(2).unwrap();
    for c in cards {
        if c.is_wild {
            assert_eq!(c.color, Color::Undecided);
        }
    }
}

#[test]
fn dealer_deals_cards_into_a_hand() {
    let mut dealer = Dealer::new(Deck::new_shuffled());
    let mut p = Player::new(0, "a".to_string(), Strategy::naive());
    dealer.deal(&mut p).unwrap();
    assert_eq!(p.hand.len(), 1);
    dealer.deal_many(&mut p, 7).unwrap();
    assert_eq!(p.hand.len(), 8);
    assert_eq!(dealer.deck.len(), 100);
    let peeked = *dealer.peek().unwrap();
    let taken = dealer.take().unwrap();
    assert_eq!(peeked, taken);
}

#[test]
fn dealer_deal_fails_on_an_empty_deck() {
    let mut dealer = Dealer::new(Deck::new());
    dealer.deck.take_many(108).unwrap();
    let mut p = Player::new(0, "a".to_string(), Strategy::naive());
    assert_eq!(dealer.deal(&mut p), Err(DeckError::NotEnoughCards(0, 1)));
    assert_eq!(dealer.deal_many(&mut p, 2), Err(DeckError::NotEnoughCards(0, 2)));
    assert!(p.hand.is_empty());
}
