//! A playing card: a rank/suit pair with a face-up flag and the point value
//! it contributes to a blackjack hand while face up.

use vstd::prelude::*;
use vstd::string::StrSliceExecFns;
use vstd::string::StringExecFns;

verus! {

/// The thirteen ranks, ace low.
#[derive(Clone, Copy, PartialEq, Eq, Structural, Debug)]
pub enum Rank {
    Ace,
    Two,
    Three,
    Four,
    Five,
    Six,
    Seven,
    Eight,
    Nine,
    Ten,
    Jack,
    Queen,
    King,
}

/// The four suits.
#[derive(Clone, Copy, PartialEq, Eq, Structural, Debug)]
pub enum Suit {
    Clubs,
    Diamonds,
    Hearts,
    Spades,
}

/// The base point value of a rank: ace counts one, face cards ten,
/// numeric ranks their number.
pub open spec fn rank_base_value(r: Rank) -> u8 {
    match r {
        Rank::Ace => 1,
        Rank::Two => 2,
        Rank::Three => 3,
        Rank::Four => 4,
        Rank::Five => 5,
        Rank::Six => 6,
        Rank::Seven => 7,
        Rank::Eight => 8,
        Rank::Nine => 9,
        Rank::Ten => 10,
        Rank::Jack => 10,
        Rank::Queen => 10,
        Rank::King => 10,
    }
}

/// The short text of a rank, as it appears in a card label.
pub open spec fn rank_label(r: Rank) -> Seq<char> {
    match r {
        Rank::Ace => "A"@,
        Rank::Two => "2"@,
        Rank::Three => "3"@,
        Rank::Four => "4"@,
        Rank::Five => "5"@,
        Rank::Six => "6"@,
        Rank::Seven => "7"@,
        Rank::Eight => "8"@,
        Rank::Nine => "9"@,
        Rank::Ten => "10"@,
        Rank::Jack => "J"@,
        Rank::Queen => "Q"@,
        Rank::King => "K"@,
    }
}

/// The one-letter suit code, as it appears in a card label.
pub open spec fn suit_label(s: Suit) -> Seq<char> {
    match s {
        Suit::Clubs => "c"@,
        Suit::Diamonds => "d"@,
        Suit::Hearts => "h"@,
        Suit::Spades => "s"@,
    }
}

/// A playing card. `base_value` is fixed at construction from the rank;
/// `face_up` toggles via `flip`.
#[derive(Clone, Copy, Debug)]
pub struct Card {
    pub rank: Rank,
    pub suit: Suit,
    pub face_up: bool,
    pub base_value: u8,
}

impl Card {
    /// A card is valid when its stored value is the one its rank dictates.
    pub open spec fn valid(self) -> bool {
        self.base_value == rank_base_value(self.rank)
    }

    /// The effective value: the base value while face up, zero while face down.
    pub open spec fn spec_value(self) -> u8 {
        if self.face_up {
            self.base_value
        } else {
            0
        }
    }

    /// The same card with its face-up flag toggled.
    pub open spec fn flipped(self) -> Card {
        Card { face_up: !self.face_up, ..self }
    }

    /// The text a card shows: rank then suit code while face up, an opaque
    /// `X` while face down, so a hidden card never leaks its identity.
    pub open spec fn spec_label(self) -> Seq<char> {
        if self.face_up {
            rank_label(self.rank) + suit_label(self.suit)
        } else {
            "X"@
        }
    }

    /// Builds a face-up card of the given rank and suit.
    pub fn new(rank: Rank, suit: Suit) -> (c: Card)
        ensures
            c.rank == rank,
            c.suit == suit,
            c.face_up,
            c.valid(),
    {
        let base_value: u8 = match rank {
            Rank::Ace => 1,
            Rank::Two => 2,
            Rank::Three => 3,
            Rank::Four => 4,
            Rank::Five => 5,
            Rank::Six => 6,
            Rank::Seven => 7,
            Rank::Eight => 8,
            Rank::Nine => 9,
            Rank::Ten => 10,
            Rank::Jack => 10,
            Rank::Queen => 10,
            Rank::King => 10,
        };
        Card { rank, suit, face_up: true, base_value }
    }

    /// Toggles the face-up flag; rank, suit and base value are untouched.
    pub fn flip(&mut self)
        ensures
            *final(self) == old(self).flipped(),
    {
        self.face_up = !self.face_up;
    }

    /// Returns the effective value.
    pub fn value(&self) -> (v: u8)
        ensures
            v == self.spec_value(),
    {
        if self.face_up {
            self.base_value
        } else {
            0
        }
    }

    /// Renders the card's text.
    pub fn label(&self) -> (s: String)
        ensures
            s@ == self.spec_label(),
    {
        if self.face_up {
            let rank_text: &str = match self.rank {
                Rank::Ace => "A",
                Rank::Two => "2",
                Rank::Three => "3",
                Rank::Four => "4",
                Rank::Five => "5",
                Rank::Six => "6",
                Rank::Seven => "7",
                Rank::Eight => "8",
                Rank::Nine => "9",
                Rank::Ten => "10",
                Rank::Jack => "J",
                Rank::Queen => "Q",
                Rank::King => "K",
            };
            let suit_text: &str = match self.suit {
                Suit::Clubs => "c",
                Suit::Diamonds => "d",
                Suit::Hearts => "h",
                Suit::Spades => "s",
            };
            let mut s = String::from_str(rank_text);
            s.append(suit_text);
            s
        } else {
            String::from_str("X")
        }
    }
}

/// Flipping a card twice restores it exactly, so in particular its
/// effective value is back to what it was.
pub proof fn lemma_double_flip(c: Card)
    ensures
        c.flipped().flipped() == c,
        c.flipped().flipped().spec_value() == c.spec_value(),
{
}

/// The text of a whole hand: each card's label in quotes, the entries
/// separated by a comma and a space.
pub open spec fn cards_text(cards: Seq<Card>) -> Seq<char>
    decreases cards.len(),
{
    if cards.len() == 0 {
        Seq::<char>::empty()
    } else {
        cards_text(cards.drop_last()) + (if cards.len() == 1 {
            Seq::<char>::empty()
        } else {
            ", "@
        }) + "\""@ + cards.last().spec_label() + "\""@
    }
}

/// Renders a hand's text.
pub fn cards_label(cards: &Vec<Card>) -> (s: String)
    ensures
        s@ == cards_text(cards@),
{
    let mut s = String::new();
    let mut i: usize = 0;
    while i < cards.len()
        invariant
            i <= cards.len(),
            s@ == cards_text(cards@.take(i as int)),
        decreases cards.len() - i,
    {
        if i > 0 {
            s.append(", ");
        }
        s.append("\"");
        let lab = cards[i].label();
        s.append(lab.as_str());
        s.append("\"");
        proof {
            assert(cards@.take(i as int + 1).drop_last() =~= cards@.take(i as int));
            assert(cards@.take(i as int + 1).last() == cards@[i as int]);
            assert(s@ =~= cards_text(cards@.take(i as int + 1)));
        }
        i = i + 1;
    }
    proof {
        assert(cards@.take(cards@.len() as int) =~= cards@);
    }
    s
}

} // verus!
