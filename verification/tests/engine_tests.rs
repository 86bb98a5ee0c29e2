use blackjack::blackjack_game::BlackJackGame;
use blackjack::blackjack_game::Outcome;
use blackjack::card::Card;
use blackjack::card::Rank;
use blackjack::card::Suit;
use blackjack::dealer::Dealer;
use blackjack::deck_of_cards::RoundError;
use blackjack::player::Player;

// The deterministic games below deal from an unshuffled canonical deck,
// which is popped from the end: Ks, Kh, Kd, Kc, Qs, Qh, ...

fn fresh_game(names: Vec<&str>) -> BlackJackGame {
    let players = names.into_iter().map(|n| Player::new(n.to_string())).collect();
    BlackJackGame { players, dealer: Dealer::new() }
}

#[test]
fn zero_players_round_dealer_wins() {
    let mut game = fresh_game(vec![]);
    let res = game.play(&vec![]).unwrap();
    assert_eq!(res.players.len(), 0);
    assert!(res.dealer_won);
    assert!(!res.dealer_busted);
    // The dealer keeps its two opening kings and draws nothing more.
    assert_eq!(res.dealer_total, 20);
}

#[test]
fn one_player_standing_pushes_against_twenty() {
    // Player draws Ks, Kh for twenty; the dealer holds Kd (hidden), Kc.
    // The player stands, the dealer reveals twenty and stands: a push.
    let mut game = fresh_game(vec!["Player1"]);
    let res = game.play(&vec![false]).unwrap();
    assert_eq!(res.players.len(), 1);
    assert_eq!(res.players[0].name, "Player1".to_string());
    assert_eq!(res.players[0].total, 20);
    assert_eq!(res.dealer_total, 20);
    assert!(!res.dealer_busted);
    assert!(!res.dealer_won);
    assert_eq!(res.players[0].outcome, Outcome::Push);
}

#[test]
fn busted_player_loses_whatever_the_dealer_does() {
    // The player hits on twenty, draws a queen, and busts at thirty. The
    // last one standing is nobody, so the dealer wins without drawing.
    let mut game = fresh_game(vec!["Player1"]);
    let res = game.play(&vec![true, true]).unwrap();
    assert_eq!(res.players[0].total, 30);
    assert_eq!(res.players[0].outcome, Outcome::Lose);
    assert!(res.dealer_won);
    assert_eq!(res.dealer_total, 20);
}

#[test]
fn round_cleans_the_table() {
    let mut game = fresh_game(vec!["A", "B"]);
    let res = game.play(&vec![false, false]).unwrap();
    assert_eq!(res.players.len(), 2);
    for p in &game.players {
        assert_eq!(p.cards.len(), 0);
        assert_eq!(p.total, 0);
        assert!(p.active);
    }
    assert_eq!(game.dealer.cards.len(), 0);
    assert_eq!(game.dealer.deck_of_cards.cards.len(), 52);
}

#[test]
fn opening_deal_is_two_cards_each() {
    let mut game = fresh_game(vec!["A", "B"]);
    game.deal_initial().unwrap();
    assert_eq!(game.players[0].label(), "A: [\"Ks\", \"Kh\"]".to_string());
    assert_eq!(game.players[1].label(), "B: [\"Kd\", \"Kc\"]".to_string());
    // The dealer's first card lies face down until the reveal.
    assert_eq!(game.dealer.label(), "Dealer: [\"X\", \"Qh\"]".to_string());
    assert_eq!(game.dealer.total, 10);
    assert_eq!(game.dealer.deck_of_cards.cards.len(), 46);
}

#[test]
fn dealer_busts_and_every_standing_player_wins() {
    // Dealer holds a hidden ten and a six: sixteen after the reveal, so
    // the house policy draws the king of spades and busts at twenty-six.
    let mut hole = Card::new(Rank::Ten, Suit::Hearts);
    hole.flip();
    let mut dealer = Dealer::new();
    dealer.cards.push(hole);
    dealer.cards.push(Card::new(Rank::Six, Suit::Hearts));
    dealer.score();
    let mut player = Player::new("Player1".to_string());
    player.add(Card::new(Rank::King, Suit::Hearts));
    player.add(Card::new(Rank::Nine, Suit::Hearts));
    let mut game = BlackJackGame { players: vec![player], dealer };
    let res = game.finish_round().unwrap();
    assert_eq!(res.dealer_total, 26);
    assert!(res.dealer_busted);
    assert_eq!(res.players[0].total, 19);
    assert_eq!(res.players[0].outcome, Outcome::Win);
}

#[test]
fn settlement_compares_totals() {
    // Dealer stands on a revealed twenty; nineteen loses, twenty-one wins.
    let mut hole = Card::new(Rank::Ten, Suit::Hearts);
    hole.flip();
    let mut dealer = Dealer::new();
    dealer.cards.push(hole);
    dealer.cards.push(Card::new(Rank::Ten, Suit::Clubs));
    dealer.score();
    let mut low = Player::new("Low".to_string());
    low.add(Card::new(Rank::King, Suit::Hearts));
    low.add(Card::new(Rank::Nine, Suit::Hearts));
    let mut high = Player::new("High".to_string());
    high.add(Card::new(Rank::Ace, Suit::Hearts));
    high.add(Card::new(Rank::King, Suit::Diamonds));
    let mut game = BlackJackGame { players: vec![low, high], dealer };
    let res = game.finish_round().unwrap();
    assert_eq!(res.dealer_total, 20);
    assert_eq!(res.players[0].outcome, Outcome::Lose);
    assert_eq!(res.players[1].total, 21);
    assert_eq!(res.players[1].outcome, Outcome::Win);
}

#[test]
fn exhausted_deck_aborts_the_deal() {
    let mut game = fresh_game(vec!["Player1"]);
    while game.dealer.deck_of_cards.cards.pop().is_some() {}
    assert_eq!(game.deal_initial(), Err(RoundError::DeckExhausted));
}

#[test]
fn hit_player_deals_one_card() {
    let mut game = fresh_game(vec!["Player1"]);
    game.deal_initial().unwrap();
    let before = game.dealer.deck_of_cards.cards.len();
    game.hit_player(0).unwrap();
    assert_eq!(game.players[0].cards.len(), 3);
    assert_eq!(game.dealer.deck_of_cards.cards.len(), before - 1);
    assert!(game.players[0].is_busted());
}

#[test]
fn named_game_seats_players_in_order() {
    let game = BlackJackGame::new(vec!["A".to_string(), "B".to_string()]);
    assert_eq!(game.players.len(), 2);
    assert_eq!(game.players[0].name, "A".to_string());
    assert_eq!(game.players[1].name, "B".to_string());
    assert_eq!(game.dealer.deck_of_cards.cards.len(), 52);
}
