//! A verified engine for simulating a shedding card game.
//!
//! The crate models the cards, hands, deck and discard pile of an
//! Uno-style game, a reversible circular turn order, a pluggable
//! decision policy, the single-game state machine, and a batch runner
//! that aggregates win counts over many independent matches.

pub mod algorithms;
pub mod card;
pub mod card_sequence;
pub mod color;
pub mod decision_tree;
pub mod deck;
pub mod face;
pub mod game;
pub mod game_master;
pub mod hand;
pub mod options;
pub mod pile;
pub mod player;
pub mod reversible_ring;
mod rng;
pub mod rules;
pub mod strategy;

