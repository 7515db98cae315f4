use uno_sim::card::Card;
use uno_sim::card_sequence::CardSequence;
use uno_sim::color::ColorSuite;
use uno_sim::decision_tree::{Branch, DecisionNode, UnoCondition};
use uno_sim::face::Face;

fn red(face: Face) -> Card {
    Card::new_colored(face, ColorSuite::Red)
}

fn blue(face: Face) -> Card {
    Card::new_colored(face, ColorSuite::Blue)
}

#[test]
fn card_sequence_special() {
    let s = CardSequence::from_cards(vec![
        red(Face::One),
        red(Face::Skip),
        blue(Face::Reverse),
        blue(Face::Nine),
    ]);
    let specials = s.special();
    assert_eq!(specials.len(), 2);
    assert_eq!(*specials.get(0), red(Face::Skip));
    assert_eq!(*specials.get(1), blue(Face::Reverse));
}

#[test]
fn card_sequence_match_face() {
    let s = CardSequence::from_cards(vec![red(Face::One), blue(Face::One), blue(Face::Two)]);
    let ones = s.match_face(&red(Face::One));
    assert_eq!(ones.len(), 2);
    assert_eq!(*ones.get(0), red(Face::One));
    assert_eq!(*ones.get(1), blue(Face::One));
}

#[test]
fn card_sequence_match_color() {
    let s = CardSequence::from_cards(vec![red(Face::One), blue(Face::One), red(Face::Two)]);
    let reds = s.match_color(&red(Face::Nine));
    assert_eq!(reds.len(), 2);
    assert_eq!(*reds.get(0), red(Face::One));
    assert_eq!(*reds.get(1), red(Face::Two));
}

#[test]
fn decision_leaf_is_a_decision() {
    let leaf = DecisionNode { decision: red(Face::Five), branches: Vec::new() };
    assert_eq!(leaf.follow(&vec![]), Some(red(Face::Five)));
    assert_eq!(leaf.follow(&vec![UnoCondition::PlusStack]), Some(red(Face::Five)));
}

#[test]
fn decision_follows_the_matching_branch() {
    let leaf = DecisionNode { decision: blue(Face::PlusTwo), branches: Vec::new() };
    let node = DecisionNode {
        decision: red(Face::Five),
        branches: vec![Branch {
            condition: UnoCondition::PlusStack,
            child: Some(Box::new(leaf)),
        }],
    };
    // The condition holds: the walk descends to the leaf.
    assert_eq!(node.follow(&vec![UnoCondition::PlusStack]), Some(blue(Face::PlusTwo)));
    // No condition holds: the walk stops with no decision.
    assert_eq!(node.follow(&vec![]), None);
}

#[test]
fn decision_missing_child_ends_the_walk() {
    let node = DecisionNode {
        decision: red(Face::Five),
        branches: vec![Branch { condition: UnoCondition::PlusStack, child: None }],
    };
    assert_eq!(node.follow(&vec![UnoCondition::PlusStack]), None);
}
