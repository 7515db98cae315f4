use uno_sim::card::Card;
use uno_sim::color::Color;
use uno_sim::deck::Deck;
use uno_sim::face::Face;
use uno_sim::game::{Dealer, Game, GameError, MAX_TURNS};
use uno_sim::pile::Pile;
use uno_sim::reversible_ring::ReversibleRing;
use uno_sim::game_master::{worker_range, GameDaemon, GameMasterBuilder};
use uno_sim::options::Options;
use uno_sim::player::Player;
use uno_sim::rules::{PlusStacking, Rules};
use uno_sim::strategy::Strategy;

fn two_players() -> Vec<Player> {
    vec![
        Player::new(0, "alice".to_string(), Strategy::naive()),
        Player::new(1, "bob".to_string(), Strategy::naive()),
    ]
}

#[test]
fn pile_starter_is_never_plus_four_or_undecided() {
    // A wild drawn as the first pile card gets a color; a plus four is
    // redrawn past. Repeat to cover many shuffles.
    for _ in 0..50 {
        let mut game = Game::new(two_players(), Rules::default(), false);
        game.initial_deal();
        game.initialize_pile().unwrap();
        let top = *game.pile.top();
        assert_ne!(top.face, Face::PlusFour);
        assert_ne!(top.color, Color::Undecided);
    }
}

#[test]
fn game_yields_a_winner_with_an_empty_hand() {
    for _ in 0..20 {
        let mut game = Game::new(two_players(), Rules::default(), false);
        let winner = game.play_until_winner().unwrap();
        assert!(winner.hand.is_empty());
        assert!(winner.id == 0 || winner.id == 1);
        // The winner keeps its roster identity.
        if winner.id == 0 {
            assert_eq!(winner.name, "alice");
        } else {
            assert_eq!(winner.name, "bob");
        }
        // The winner left the seating; the loser still holds cards.
        assert_eq!(game.player_handler.len(), 1);
        let loser = game.player_handler.borrow_at(0);
        assert!(!loser.hand.is_empty());
        // A starter was placed and the winning card played on it.
        assert!(game.pile.len() >= 2);
        // Conservation: all 108 cards are in the deck, the loser's
        // hand, or the pile.
        assert_eq!(game.dealer.deck.len() + loser.hand.len() + game.pile.len(), 108);
    }
}

#[test]
fn game_error_values() {
    assert_eq!(GameError::OutOfCards, GameError::OutOfCards);
    assert_ne!(GameError::OutOfCards, GameError::Stalled);
    assert_ne!(GameError::NoStarter, GameError::Stalled);
    assert!(MAX_TURNS >= 1000);
}

#[test]
fn builder_assigns_sequential_ids() {
    let builder = GameMasterBuilder::new()
        .add_player("a".to_string(), Strategy::naive())
        .add_player("b".to_string(), Strategy::naive())
        .add_player("c".to_string(), Strategy::naive());
    let master = builder.build();
    assert_eq!(master.players.len(), 3);
    assert_eq!(master.players[0].id, 0);
    assert_eq!(master.players[1].id, 1);
    assert_eq!(master.players[2].id, 2);
    assert_eq!(master.players[1].name, "b");
}

#[test]
fn worker_ranges_partition_the_batch() {
    // 10 matches over 3 workers: contiguous ranges whose widths sum to
    // 10, the remainder absorbed by later workers.
    assert_eq!(worker_range(0, 10, 3), (0, 3));
    assert_eq!(worker_range(1, 10, 3), (3, 6));
    assert_eq!(worker_range(2, 10, 3), (6, 10));
    let mut total = 0;
    for i in 0..7 {
        let (s, e) = worker_range(i, 100, 7);
        total += e - s;
    }
    assert_eq!(total, 100);
    // More workers than matches: later workers get the single match.
    let mut total1 = 0;
    for i in 0..4 {
        let (s, e) = worker_range(i, 1, 4);
        total1 += e - s;
    }
    assert_eq!(total1, 1);
}

#[test]
fn two_naive_players_conservative_hundred_matches() {
    // Two players on the naive strategy, conservative plus stacking:
    // the two win counts sum to exactly the number of matches.
    let master = GameMasterBuilder::new()
        .add_player("alice".to_string(), Strategy::naive())
        .add_player("bob".to_string(), Strategy::naive())
        .with_rules(Rules { plus_stacking: PlusStacking::Conservative, ..Rules::default() })
        .with_options(Options::new(2, false, false))
        .build();
    let board = master.run(100).unwrap();
    assert_eq!(board.len(), 2);
    assert_eq!(board.get(0) as u64 + board.get(1) as u64, 100);
}

#[test]
fn run_zero_matches() {
    let master = GameMasterBuilder::new()
        .add_player("a".to_string(), Strategy::naive())
        .add_player("b".to_string(), Strategy::naive())
        .build();
    let board = master.run(0).unwrap();
    assert_eq!(board.len(), 2);
    assert_eq!(board.get(0), 0);
    assert_eq!(board.get(1), 0);
}

#[test]
fn run_under_liberal_and_banned_rules() {
    for policy in [PlusStacking::Liberal, PlusStacking::Banned] {
        let master = GameMasterBuilder::new()
            .add_player("a".to_string(), Strategy::naive())
            .add_player("b".to_string(), Strategy::naive())
            .add_player("c".to_string(), Strategy::naive())
            .with_rules(Rules { plus_stacking: policy, ..Rules::default() })
            .with_options(Options::new(3, false, false))
            .build();
        let board = master.run(30).unwrap();
        let total: u64 = (0..board.len()).map(|i| board.get(i) as u64).sum();
        assert_eq!(total, 30);
    }
}

#[test]
fn options_defaults() {
    let o = Options::default();
    assert_eq!(o.num_threads, 4);
    assert!(!o.slow);
    assert!(!o.verbose);
    let r = Rules::default();
    assert_eq!(r.plus_stacking, PlusStacking::Conservative);
}

#[test]
fn daemon_runs_one_match() {
    let daemon = GameDaemon { players: two_players(), rules: Rules::default(), verbose: false };
    for _ in 0..10 {
        let winner = daemon.run().unwrap();
        assert!(winner.hand.is_empty());
        assert!(winner.id == 0 || winner.id == 1);
    }
}

#[test]
fn game_builder_starts_empty() {
    let b = Game::builder();
    assert!(b.players.is_empty());
    assert!(b.rules.is_none());
}

#[test]
fn players_clone_keeps_identity() {
    let p = Player::new(3, "carol".to_string(), Strategy::naive());
    let q = p.clone();
    assert_eq!(q.id, 3);
    assert_eq!(q.name, "carol");
    assert!(q.hand.is_empty());
}

fn plus_four_deck(n: usize) -> Deck {
    let mut d = Deck::new();
    d.take_many(108).unwrap();
    let mut cards = Vec::new();
    for _ in 0..n {
        cards.push(Card::new_wild(Face::PlusFour));
    }
    d.replace_cards(cards);
    d
}

#[test]
fn no_starter_when_only_plus_fours_remain() {
    let mut game = Game {
        player_handler: ReversibleRing::from_iter(two_players()),
        dealer: Dealer::new(plus_four_deck(3)),
        pile: Pile::new(),
        rules: Rules::default(),
        stack_count: 0,
        verbose: false,
    };
    assert!(matches!(game.initialize_pile(), Err(GameError::NoStarter)));
    // The whole match ends in the same fault.
    let mut game2 = Game {
        player_handler: ReversibleRing::from_iter(two_players()),
        dealer: Dealer::new(plus_four_deck(15)),
        pile: Pile::new(),
        rules: Rules::default(),
        stack_count: 0,
        verbose: false,
    };
    assert!(matches!(game2.play_until_winner(), Err(GameError::NoStarter)));
}

#[test]
fn take_starter_skips_plus_fours() {
    let mut d = plus_four_deck(2);
    let mut cards = vec![Card::new_colored(Face::Five, uno_sim::color::ColorSuite::Red)];
    cards.push(Card::new_wild(Face::PlusFour));
    cards.push(Card::new_wild(Face::PlusFour));
    d.replace_cards(cards);
    // The two plus fours on top are passed over; the five is taken out
    // from underneath them.
    let starter = d.take_starter().unwrap();
    assert_eq!(starter.face, Face::Five);
    assert_eq!(d.len(), 2);
    // Nothing but plus fours: no starter at all, the deck keeps them.
    let mut only_plus = plus_four_deck(4);
    assert!(only_plus.take_starter().is_none());
    assert_eq!(only_plus.len(), 4);
}
