use uno_sim::card::Card;
use uno_sim::color::{Color, ColorSuite};
use uno_sim::face::Face;
use uno_sim::rules::PlusStacking;

fn red(face: Face) -> Card {
    Card::new_colored(face, ColorSuite::Red)
}

fn blue(face: Face) -> Card {
    Card::new_colored(face, ColorSuite::Blue)
}

#[test]
fn stacks_on_color_match() {
    assert!(red(Face::Three).stacks_on(&red(Face::Seven)));
}

#[test]
fn stacks_on_face_match() {
    assert!(red(Face::Three).stacks_on(&blue(Face::Three)));
}

#[test]
fn stacks_on_no_match() {
    assert!(!red(Face::Three).stacks_on(&blue(Face::Seven)));
}

#[test]
fn stacks_on_wild_mover_always() {
    let wild = Card::new_wild(Face::Wild);
    assert!(wild.stacks_on(&red(Face::Three)));
    assert!(wild.stacks_on(&blue(Face::Nine)));
    let mut assigned = Card::new_wild(Face::Wild);
    assigned.assign_color(ColorSuite::Green);
    // An already colored wild card still stacks on anything as mover.
    assert!(assigned.stacks_on(&red(Face::Three)));
}

#[test]
fn plus_stacks_banned_always_false() {
    let p2 = red(Face::PlusTwo);
    let p4 = Card::new_wild(Face::PlusFour);
    assert!(!p2.plus_stacks_on(&red(Face::PlusTwo), &PlusStacking::Banned));
    assert!(!p4.plus_stacks_on(&red(Face::PlusTwo), &PlusStacking::Banned));
    assert!(!p2.plus_stacks_on(&blue(Face::Five), &PlusStacking::Banned));
}

#[test]
fn plus_stacks_conservative() {
    let p2 = red(Face::PlusTwo);
    let p4 = Card::new_wild(Face::PlusFour);
    // A plus two may never land on a plus four.
    assert!(!p2.plus_stacks_on(&p4, &PlusStacking::Conservative));
    // Everything else stacks when the mover is a plus card.
    assert!(p2.plus_stacks_on(&blue(Face::PlusTwo), &PlusStacking::Conservative));
    assert!(p4.plus_stacks_on(&p2, &PlusStacking::Conservative));
    assert!(p4.plus_stacks_on(&p4, &PlusStacking::Conservative));
    // A non-plus mover never plus-stacks.
    assert!(!red(Face::Five).plus_stacks_on(&p2, &PlusStacking::Conservative));
}

#[test]
fn plus_stacks_liberal() {
    let p4 = Card::new_wild(Face::PlusFour);
    assert!(p4.plus_stacks_on(&red(Face::PlusTwo), &PlusStacking::Liberal));
    // A plus two stacks only on a matching color.
    assert!(red(Face::PlusTwo).plus_stacks_on(&red(Face::PlusTwo), &PlusStacking::Liberal));
    assert!(!red(Face::PlusTwo).plus_stacks_on(&blue(Face::PlusTwo), &PlusStacking::Liberal));
}

#[test]
fn plus_stack_values() {
    assert_eq!(Card::new_wild(Face::PlusFour).plus_stack_value(), 4);
    assert_eq!(red(Face::PlusTwo).plus_stack_value(), 2);
    assert_eq!(red(Face::Nine).plus_stack_value(), 0);
    assert_eq!(Card::new_wild(Face::Wild).plus_stack_value(), 0);
}

#[test]
fn numeric_and_special_cards() {
    assert!(red(Face::Zero).is_num());
    assert!(red(Face::Nine).is_num());
    assert!(!red(Face::Skip).is_num());
    assert!(red(Face::Skip).is_special());
    assert!(red(Face::Reverse).is_special());
    assert!(Card::new_wild(Face::Wild).is_special());
    assert!(!red(Face::Four).is_special());
}

#[test]
fn assign_color_fixes_wild() {
    let mut w = Card::new_wild(Face::Wild);
    assert_eq!(w.color, Color::Undecided);
    assert!(w.is_wild);
    w.assign_color(ColorSuite::Blue);
    assert_eq!(w.color, Color::Blue);
    assert!(w.is_wild);
    assert_eq!(w.face, Face::Wild);
}

#[test]
fn constructors() {
    let c = Card::new_colored(Face::Six, ColorSuite::Green);
    assert_eq!(c.face, Face::Six);
    assert_eq!(c.color, Color::Green);
    assert!(!c.is_wild);
    let w = Card::new_wild(Face::PlusFour);
    assert_eq!(w.face, Face::PlusFour);
    assert_eq!(w.color, Color::Undecided);
    assert!(w.is_wild);
}

#[test]
fn faces_and_colors() {
    assert!(Face::PlusTwo.is_plus());
    assert!(Face::PlusFour.is_plus());
    assert!(!Face::Wild.is_plus());
    assert!(!Face::Nine.is_plus());
    assert_eq!(Face::double_faces().len(), 12);
    assert_eq!(ColorSuite::all().len(), 4);
    assert_eq!(ColorSuite::Red.to_color(), Color::Red);
    assert_eq!(ColorSuite::Yellow.to_color(), Color::Yellow);
}
