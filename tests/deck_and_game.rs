use blackjack::deck::{draw_card, shuffled_deck, standard_deck};
use blackjack::game::{outcome, Choice, Game, Outcome, Step};

fn ordered() -> Vec<&'static str> {
    vec!["2", "3", "4", "5", "6", "7", "8", "9", "10", "J", "Q", "K", "A"]
}

#[test]
fn draw_from_empty_deck_changes_nothing() {
    let mut hand = vec!["K"];
    let mut deck: Vec<&str> = Vec::new();
    assert!(!draw_card(&mut hand, &mut deck));
    assert_eq!(hand, vec!["K"]);
    assert!(deck.is_empty());
}

#[test]
fn draw_moves_last_card_of_deck() {
    let mut hand = vec!["K"];
    let mut deck = vec!["2", "7"];
    assert!(draw_card(&mut hand, &mut deck));
    assert_eq!(hand, vec!["K", "7"]);
    assert_eq!(deck, vec!["2"]);
}

#[test]
fn standard_deck_holds_thirteen_labels_in_order() {
    assert_eq!(standard_deck(), ordered());
}

#[test]
fn shuffled_deck_is_a_reordering() {
    let mut deck = shuffled_deck();
    let mut expected = ordered();
    deck.sort();
    expected.sort();
    assert_eq!(deck, expected);
}

#[test]
fn deal_gives_dealer_one_and_player_two() {
    let g = Game::deal(ordered());
    assert_eq!(g.dealer, vec!["A"]);
    assert_eq!(g.player, vec!["K", "Q"]);
    assert_eq!(g.deck, vec!["2", "3", "4", "5", "6", "7", "8", "9", "10", "J"]);
    assert!(!g.over);
    assert_eq!(g.player_score(), 20);
    assert_eq!(g.dealer_score(), 11);
}

#[test]
fn new_round_keeps_thirteen_cards() {
    let mut g = Game::new();
    assert_eq!(g.deck.len(), 10);
    assert_eq!(g.player.len(), 2);
    assert_eq!(g.dealer.len(), 1);
    let mut cards: Vec<&str> = Vec::new();
    cards.extend(g.deck.iter());
    cards.extend(g.player.iter());
    cards.extend(g.dealer.iter());
    cards.sort();
    let mut expected = ordered();
    expected.sort();
    assert_eq!(cards, expected);
    let step = g.play(Choice::Stay);
    assert!(matches!(step, Step::Finished { .. }));
    assert_eq!(g.deck.len() + g.player.len() + g.dealer.len(), 13);
}

#[test]
fn hits_keep_thirteen_cards() {
    let deck = vec!["K", "Q", "J", "10", "9", "8", "7", "6", "5", "A", "2", "3", "4"];
    let mut g = Game::deal(deck);
    assert_eq!(g.player, vec!["3", "2"]);
    assert_eq!(g.play(Choice::Hit), Step::Drew);
    assert_eq!(g.player, vec!["3", "2", "A"]);
    assert_eq!(g.player_score(), 16);
    assert_eq!(g.deck.len() + g.player.len() + g.dealer.len(), 13);
    assert_eq!(g.play(Choice::Hit), Step::Drew);
    assert_eq!(g.player_score(), 21);
    assert_eq!(g.deck.len() + g.player.len() + g.dealer.len(), 13);
}

#[test]
fn hit_over_twenty_one_busts() {
    let mut g = Game::deal(ordered());
    assert_eq!(g.play(Choice::Hit), Step::Busted);
    assert_eq!(g.player, vec!["K", "Q", "J"]);
    assert_eq!(g.player_score(), 30);
    assert!(g.over);
}

#[test]
fn hit_on_empty_deck_is_reported() {
    let mut g = Game { deck: Vec::new(), player: vec!["2", "3"], dealer: vec!["4"], over: false };
    assert_eq!(g.play(Choice::Hit), Step::DeckEmpty);
    assert_eq!(g.player, vec!["2", "3"]);
    assert!(!g.over);
}

#[test]
fn stay_lets_dealer_draw_to_seventeen() {
    let mut g = Game::deal(ordered());
    let step = g.play(Choice::Stay);
    assert_eq!(g.dealer, vec!["A", "J"]);
    assert_eq!(g.dealer_score(), 21);
    assert_eq!(step, Step::Finished { deck_ran_out: false, outcome: Outcome::DealerWins });
    assert!(g.over);
}

#[test]
fn dealer_draws_several_cards() {
    let deck = vec!["K", "Q", "J", "10", "9", "8", "7", "6", "5", "4", "3", "2", "A"];
    let mut g = Game { deck, player: vec![], dealer: vec!["2"], over: false };
    let ran_out = g.dealer_play();
    assert!(!ran_out);
    assert_eq!(g.dealer, vec!["2", "A", "2", "3"]);
    assert_eq!(g.dealer_score(), 18);
    assert_eq!(g.deck.len(), 10);
}

#[test]
fn dealer_stops_when_deck_runs_out() {
    let mut g = Game { deck: vec!["2"], player: vec!["K", "7"], dealer: vec!["3"], over: false };
    let step = g.play(Choice::Stay);
    assert_eq!(g.dealer, vec!["3", "2"]);
    assert!(g.deck.is_empty());
    assert_eq!(step, Step::Finished { deck_ran_out: true, outcome: Outcome::PlayerWins });
}

#[test]
fn quit_and_invalid_choices() {
    let mut g = Game::deal(ordered());
    assert_eq!(g.play(Choice::Invalid), Step::NotValid);
    assert!(!g.over);
    assert_eq!(g.player.len(), 2);
    assert_eq!(g.play(Choice::Quit), Step::Quit);
    assert!(g.over);
    assert_eq!(g.player.len(), 2);
}

#[test]
fn outcome_of_scores() {
    assert_eq!(outcome(20, 22), Outcome::DealerBusts);
    assert_eq!(outcome(18, 20), Outcome::DealerWins);
    assert_eq!(outcome(20, 18), Outcome::PlayerWins);
    assert_eq!(outcome(19, 19), Outcome::Tie);
}

#[test]
fn parse_trims_and_upper_cases() {
    assert_eq!(Choice::parse(" h\n"), Choice::Hit);
    assert_eq!(Choice::parse("s\n"), Choice::Stay);
    assert_eq!(Choice::parse("  Q "), Choice::Quit);
    assert_eq!(Choice::parse("hit"), Choice::Invalid);
    assert_eq!(Choice::parse(""), Choice::Invalid);
}

#[test]
fn from_command_is_exact() {
    assert_eq!(Choice::from_command("H"), Choice::Hit);
    assert_eq!(Choice::from_command("S"), Choice::Stay);
    assert_eq!(Choice::from_command("Q"), Choice::Quit);
    assert_eq!(Choice::from_command("h"), Choice::Invalid);
    assert_eq!(Choice::from_command(" H"), Choice::Invalid);
}

#[test]
fn shuffled_decks_are_not_all_in_order() {
    let moved = (0..20).any(|_| shuffled_deck() != ordered());
    assert!(moved);
}
