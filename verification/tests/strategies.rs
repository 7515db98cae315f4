use uno_sim::algorithms::naive;
use uno_sim::card::Card;
use uno_sim::color::{Color, ColorSuite};
use uno_sim::face::Face;
use uno_sim::hand::Hand;
use uno_sim::rules::{PlusStacking, Rules};
use uno_sim::strategy::{Strategy, StrategyKind};

fn red(face: Face) -> Card {
    Card::new_colored(face, ColorSuite::Red)
}

fn blue(face: Face) -> Card {
    Card::new_colored(face, ColorSuite::Blue)
}

#[test]
fn strategy_lookup_ignores_ascii_case() {
    assert_eq!(Strategy::get("naive").unwrap().kind, StrategyKind::Naive);
    assert_eq!(Strategy::get("Naive").unwrap().kind, StrategyKind::Naive);
    assert_eq!(Strategy::get("NAIVE").unwrap().kind, StrategyKind::Naive);
}

#[test]
fn strategy_lookup_rejects_unknown_names() {
    assert!(Strategy::get("bogus").is_none());
    assert!(Strategy::get("naivee").is_none());
    assert!(Strategy::get("naiv").is_none());
    assert!(Strategy::get("").is_none());
}

#[test]
fn naive_plays_the_only_legal_card() {
    let mut h = Hand::new();
    h.add_card(blue(Face::Nine));
    h.add_card(red(Face::Three));
    let rules = Rules::default();
    let result = naive(&red(Face::Seven), &mut h, &rules, false);
    assert_eq!(result.card, Some(red(Face::Three)));
    assert!(!result.was_last_card);
    assert_eq!(h.len(), 1);
    assert_eq!(*h.get(0), blue(Face::Nine));
}

#[test]
fn naive_draws_when_nothing_is_legal() {
    let mut h = Hand::new();
    h.add_card(blue(Face::Nine));
    let rules = Rules::default();
    let result = naive(&red(Face::Seven), &mut h, &rules, false);
    assert_eq!(result.card, None);
    assert!(!result.was_last_card);
    assert_eq!(h.len(), 1);
}

#[test]
fn naive_reports_the_last_card() {
    let mut h = Hand::new();
    h.add_card(red(Face::Three));
    let rules = Rules::default();
    let result = naive(&red(Face::Seven), &mut h, &rules, false);
    assert_eq!(result.card, Some(red(Face::Three)));
    assert!(result.was_last_card);
    assert!(h.is_empty());
}

#[test]
fn naive_assigns_a_color_to_a_played_wild() {
    // Repeat to cover the random color draw.
    for _ in 0..50 {
        let mut h = Hand::new();
        h.add_card(Card::new_wild(Face::Wild));
        let rules = Rules::default();
        let result = naive(&red(Face::Seven), &mut h, &rules, false);
        let played = result.card.unwrap();
        assert!(played.is_wild);
        assert_eq!(played.face, Face::Wild);
        assert_ne!(played.color, Color::Undecided);
    }
}

#[test]
fn naive_picks_among_several_candidates() {
    // Any random pick must be one of the legal cards; a pick out of
    // range would panic or play an illegal card.
    for _ in 0..50 {
        let mut h = Hand::new();
        h.add_card(red(Face::One));
        h.add_card(red(Face::Two));
        h.add_card(red(Face::Three));
        h.add_card(blue(Face::Nine));
        let rules = Rules::default();
        let result = naive(&red(Face::Seven), &mut h, &rules, false);
        let played = result.card.unwrap();
        assert_eq!(played.color, Color::Red);
        assert_eq!(h.len(), 3);
    }
}

#[test]
fn naive_respects_plus_stacking() {
    let mut h = Hand::new();
    h.add_card(red(Face::Five));
    h.add_card(red(Face::PlusTwo));
    let rules = Rules::default();
    let target = blue(Face::PlusTwo);
    // Under an active stack only the plus card may be played.
    let result = naive(&target, &mut h, &rules, true);
    assert_eq!(result.card, Some(red(Face::PlusTwo)));
    // Under banned stacking nothing may be played onto a stack.
    let mut h2 = Hand::new();
    h2.add_card(red(Face::PlusTwo));
    let banned = Rules { plus_stacking: PlusStacking::Banned, ..Rules::default() };
    let result2 = naive(&target, &mut h2, &banned, true);
    assert_eq!(result2.card, None);
}

#[test]
fn strategy_run_dispatches_to_naive() {
    let mut h = Hand::new();
    h.add_card(red(Face::Three));
    let rules = Rules::default();
    let s = Strategy::naive();
    let result = s.run(&red(Face::Seven), &mut h, &rules, false);
    assert_eq!(result.card, Some(red(Face::Three)));
    assert!(result.was_last_card);
}

#[test]
fn color_random_yields_a_concrete_color() {
    for _ in 0..50 {
        let c = ColorSuite::random();
        assert!(ColorSuite::all().contains(&c));
    }
}
