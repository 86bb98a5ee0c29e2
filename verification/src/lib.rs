//! A single-round blackjack engine: cards, a 52-card deck, hand scoring with
//! soft-ace promotion, a fixed dealer policy, and the round state machine.

pub mod blackjack_game;
pub mod card;
pub mod dealer;
pub mod deck_of_cards;
pub mod player;
pub mod scoring;
