use blackjack::deck_of_cards::DeckOfCards;

#[test]
fn lib_init_test() {
    let deck = DeckOfCards::new();
    assert_eq!(deck.cards.len(), 52);
}

#[test]
fn shuffel_test() {
    let mut deck = DeckOfCards::new();
    deck.shuffel();
    assert_eq!(deck.cards.len(), 52);
}

#[test]
fn refresh_test() {
    let mut deck = DeckOfCards::new();
    let _t = deck.cards.pop();
    deck.refresh();
    assert_eq!(deck.cards.len(), 52);
}

#[test]
fn new_deck_has_no_duplicates() {
    let deck = DeckOfCards::new();
    let mut labels: Vec<String> = deck.cards.iter().map(|c| c.label()).collect();
    labels.sort();
    labels.dedup();
    assert_eq!(labels.len(), 52);
}

#[test]
fn shuffel_preserves_membership() {
    let fresh = DeckOfCards::new();
    let mut expected: Vec<String> = fresh.cards.iter().map(|c| c.label()).collect();
    expected.sort();

    let mut deck = DeckOfCards::new();
    deck.shuffel();
    let mut got: Vec<String> = deck.cards.iter().map(|c| c.label()).collect();
    got.sort();
    assert_eq!(got, expected);
}

#[test]
fn canonical_order_ends_with_king_of_spades() {
    let deck = DeckOfCards::new();
    assert_eq!(deck.cards[0].label(), "Ac".to_string());
    assert_eq!(deck.cards[51].label(), "Ks".to_string());
}
