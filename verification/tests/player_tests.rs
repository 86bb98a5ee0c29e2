use blackjack::card::Card;
use blackjack::card::Rank;
use blackjack::card::Suit;
use blackjack::player::Player;

#[test]
fn player_init_test() {
    let player = Player::new("Player1".to_string());
    assert_eq!(player.label(), "Player1: []".to_string());
}

#[test]
fn cards_test() {
    let mut player = Player::new("Player1".to_string());
    player.add(Card::new(Rank::Ace, Suit::Hearts));
    assert_eq!(player.label(), "Player1: [\"Ah\"]".to_string());
    player.add(Card::new(Rank::Ace, Suit::Spades));
    assert_eq!(player.label(), "Player1: [\"Ah\", \"As\"]".to_string());
    player.clear();
    assert_eq!(player.label(), "Player1: []".to_string());
}

#[test]
fn score_test() {
    let mut player = Player::new("Player1".to_string());
    player.add(Card::new(Rank::Ace, Suit::Hearts));
    player.add(Card::new(Rank::Ace, Suit::Spades));
    player.score();
    assert_eq!(player.total, 12);
}

#[test]
fn player_promotes_one_ace_up_to_eleven() {
    // A lone ace is promoted: 1 + 10 = 11.
    let mut player = Player::new("P".to_string());
    player.add(Card::new(Rank::Ace, Suit::Clubs));
    assert_eq!(player.total, 11);
    // Ace and ten: raw 11, still at the player threshold, promoted to 21.
    let mut player = Player::new("P".to_string());
    player.add(Card::new(Rank::Ace, Suit::Clubs));
    player.add(Card::new(Rank::Ten, Suit::Clubs));
    assert_eq!(player.total, 21);
}

#[test]
fn face_down_ace_is_not_promoted() {
    // A hidden ace contributes nothing, not even promotion.
    let mut hidden = Card::new(Rank::Ace, Suit::Hearts);
    hidden.flip();
    let mut player = Player::new("P".to_string());
    player.add(hidden);
    player.add(Card::new(Rank::Nine, Suit::Clubs));
    assert_eq!(player.total, 9);
}

#[test]
fn busted_player_is_flagged() {
    let mut player = Player::new("P".to_string());
    player.add(Card::new(Rank::King, Suit::Clubs));
    player.add(Card::new(Rank::King, Suit::Diamonds));
    assert!(!player.is_busted());
    player.add(Card::new(Rank::Two, Suit::Clubs));
    assert!(player.is_busted());
    assert_eq!(player.total, 22);
}
