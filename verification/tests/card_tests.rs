use blackjack::card::Card;
use blackjack::card::Rank;
use blackjack::card::Suit;

#[test]
fn init_test() {
    assert_eq!(Card::new(Rank::Ace, Suit::Hearts).label(), "Ah".to_string());
    assert_eq!(Card::new(Rank::Ace, Suit::Spades).label(), "As".to_string());
    assert_eq!(Card::new(Rank::Ten, Suit::Hearts).label(), "10h".to_string());
}

#[test]
fn test_cards_value() {
    let card = Card::new(Rank::Ace, Suit::Hearts);
    assert_eq!(card.value(), 1);
    let card = Card::new(Rank::Ten, Suit::Hearts);
    assert_eq!(card.value(), 10);
    let card = Card::new(Rank::Two, Suit::Hearts);
    assert_eq!(card.value(), 2);
}

#[test]
fn test_cards_flip() {
    let mut card = Card::new(Rank::Ace, Suit::Hearts);
    assert_eq!(card.value(), 1);
    card.flip();
    assert_eq!(card.value(), 0);
    let mut card = Card::new(Rank::Ten, Suit::Hearts);
    card.flip();
    assert_eq!(card.value(), 0);
}

#[test]
fn test_cards_double_flip() {
    let mut card = Card::new(Rank::Ace, Suit::Hearts);
    assert_eq!(card.value(), 1);
    card.flip();
    card.flip();
    assert_eq!(card.value(), 1);
    let mut card = Card::new(Rank::Ten, Suit::Hearts);
    card.flip();
    card.flip();
    assert_eq!(card.value(), 10);
}

#[test]
fn face_down_card_hides_identity() {
    let mut card = Card::new(Rank::King, Suit::Spades);
    assert_eq!(card.label(), "Ks".to_string());
    card.flip();
    assert_eq!(card.label(), "X".to_string());
}
