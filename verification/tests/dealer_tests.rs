use blackjack::card::Card;
use blackjack::card::Rank;
use blackjack::card::Suit;
use blackjack::dealer::Dealer;
use blackjack::deck_of_cards::RoundError;

#[test]
fn dealer_init_test() {
    let dealer = Dealer::new();
    assert_eq!(dealer.label(), "Dealer: []".to_string());
}

#[test]
fn lib_cards_test() {
    // The fresh deck is canonical, so the dealer draws the king of spades,
    // then the king of hearts, from the top.
    let mut dealer = Dealer::new();
    dealer.add().unwrap();
    assert_eq!(dealer.label(), "Dealer: [\"Ks\"]".to_string());
    dealer.add().unwrap();
    assert_eq!(dealer.label(), "Dealer: [\"Ks\", \"Kh\"]".to_string());
    dealer.flip_first_card();
    assert_eq!(dealer.label(), "Dealer: [\"X\", \"Kh\"]".to_string());
}

#[test]
fn lib_score_test() {
    // A hidden king is excluded from the total entirely.
    let mut dealer = Dealer::new();
    dealer.add().unwrap();
    assert_eq!(dealer.total, 10);
    dealer.add().unwrap();
    assert_eq!(dealer.total, 20);
    dealer.flip_first_card();
    assert_eq!(dealer.total, 10);
}

#[test]
fn dealer_two_aces_score_twelve() {
    // The dealer threshold is one lower than the player's, but a pair of
    // aces still promotes exactly once: 1 + 1 -> 11 + 1 = 12.
    let mut dealer = Dealer::new();
    dealer.cards.push(Card::new(Rank::Ace, Suit::Hearts));
    dealer.cards.push(Card::new(Rank::Ace, Suit::Spades));
    dealer.score();
    assert_eq!(dealer.total, 12);
}

#[test]
fn dealer_threshold_is_one_lower_than_player() {
    // Raw total 11: a player promotes (11 <= 11 gives 21), the dealer
    // does not (11 > 10 stays 11).
    let mut dealer = Dealer::new();
    dealer.cards.push(Card::new(Rank::Ace, Suit::Hearts));
    dealer.cards.push(Card::new(Rank::Ten, Suit::Clubs));
    dealer.score();
    assert_eq!(dealer.total, 11);

    let mut player = blackjack::player::Player::new("P".to_string());
    player.add(Card::new(Rank::Ace, Suit::Hearts));
    player.add(Card::new(Rank::Ten, Suit::Clubs));
    assert_eq!(player.total, 21);
}

#[test]
fn dealer_hits_below_seventeen() {
    let mut dealer = Dealer::new();
    dealer.cards.push(Card::new(Rank::Ten, Suit::Hearts));
    dealer.cards.push(Card::new(Rank::Six, Suit::Hearts));
    assert!(dealer.is_hitting());
    dealer.cards.push(Card::new(Rank::Ace, Suit::Hearts));
    assert!(!dealer.is_hitting());
    assert_eq!(dealer.total, 17);
    assert!(!dealer.is_busted());
}

#[test]
fn deck_exhaustion_is_reported() {
    let mut dealer = Dealer::new();
    while dealer.deck_of_cards.cards.pop().is_some() {}
    assert_eq!(dealer.add(), Err(RoundError::DeckExhausted));
    let mut player = blackjack::player::Player::new("P".to_string());
    assert_eq!(dealer.give(&mut player), Err(RoundError::DeckExhausted));
    assert_eq!(player.total, 0);
}
