//! The 52-card deck: built in canonical rank-major order, refreshed to the
//! same order, and shuffled in place through rand. Cards are dealt by
//! popping from the end of the sequence.

use crate::card::Card;
use crate::card::Rank;
use crate::card::Suit;
use crate::card::rank_base_value;
use crate::scoring::cards_valid;
use vstd::prelude::*;
use vstd::seq_lib::group_to_multiset_ensures;

verus! {

/// The round-fatal failure: a deal was asked of an empty deck.
#[derive(Clone, Copy, PartialEq, Eq, Structural, Debug)]
pub enum RoundError {
    DeckExhausted,
}

/// The rank at a given position of the canonical rank order, ace first.
pub open spec fn rank_of_index(i: int) -> Rank {
    if i == 0 {
        Rank::Ace
    } else if i == 1 {
        Rank::Two
    } else if i == 2 {
        Rank::Three
    } else if i == 3 {
        Rank::Four
    } else if i == 4 {
        Rank::Five
    } else if i == 5 {
        Rank::Six
    } else if i == 6 {
        Rank::Seven
    } else if i == 7 {
        Rank::Eight
    } else if i == 8 {
        Rank::Nine
    } else if i == 9 {
        Rank::Ten
    } else if i == 10 {
        Rank::Jack
    } else if i == 11 {
        Rank::Queen
    } else {
        Rank::King
    }
}

/// The suit at a given position of the canonical suit order.
pub open spec fn suit_of_index(i: int) -> Suit {
    if i == 0 {
        Suit::Clubs
    } else if i == 1 {
        Suit::Diamonds
    } else if i == 2 {
        Suit::Hearts
    } else {
        Suit::Spades
    }
}

/// The card at a given position of the canonical deck: rank-major,
/// suit-minor, every card face up.
pub open spec fn canonical_card(i: int) -> Card {
    Card {
        rank: rank_of_index(i / 4),
        suit: suit_of_index(i % 4),
        face_up: true,
        base_value: rank_base_value(rank_of_index(i / 4)),
    }
}

/// The canonical 52-card sequence.
pub open spec fn canonical_deck() -> Seq<Card> {
    Seq::new(52, |i: int| canonical_card(i))
}

/// No two cards of the sequence share both rank and suit.
pub open spec fn distinct_cards(cards: Seq<Card>) -> bool {
    forall|i: int, j: int|
        0 <= i < j < cards.len() ==> !((#[trigger] cards[i]).rank == (#[trigger] cards[j]).rank
            && cards[i].suit == cards[j].suit)
}

/// The canonical deck holds exactly 52 valid face-up cards and no
/// duplicate rank/suit pair.
pub proof fn lemma_canonical_deck_ok()
    ensures
        canonical_deck().len() == 52,
        cards_valid(canonical_deck()),
        forall|i: int| 0 <= i < 52 ==> (#[trigger] canonical_deck()[i]).face_up,
        distinct_cards(canonical_deck()),
{
    assert forall|i: int, j: int| 0 <= i < j < 52 implies !((#[trigger] canonical_deck()[i]).rank
        == (#[trigger] canonical_deck()[j]).rank && canonical_deck()[i].suit
        == canonical_deck()[j].suit) by {
        assert(i == 4 * (i / 4) + i % 4 && 0 <= i % 4 < 4) by (nonlinear_arith)
            requires
                0 <= i < 52,
        ;
        assert(j == 4 * (j / 4) + j % 4 && 0 <= j % 4 < 4) by (nonlinear_arith)
            requires
                0 <= j < 52,
        ;
        if i / 4 == j / 4 && i % 4 == j % 4 {
            assert(i == j);
        }
    }
}

/// Multiset-equal sequences hold the same cards, so validity of every
/// card carries over to any permutation.
pub proof fn lemma_permutation_keeps_valid(s1: Seq<Card>, s2: Seq<Card>)
    requires
        s1.to_multiset() == s2.to_multiset(),
        cards_valid(s1),
    ensures
        cards_valid(s2),
{
    broadcast use group_to_multiset_ensures;

    assert forall|i: int| 0 <= i < s2.len() implies (#[trigger] s2[i]).valid() by {
        assert(s2.contains(s2[i]));
        assert(s2.to_multiset().count(s2[i]) > 0);
        assert(s1.contains(s2[i]));
        let j = choose|j: int| 0 <= j < s1.len() && s1[j] == s2[i];
        assert(s1[j].valid());
    }
}

/// Relies on rand::thread_rng: a handle on the thread-local generator.
/// Nothing is promised of a source of randomness.
#[verifier::external_body]
fn fresh_rng() -> rand::rngs::ThreadRng {
    rand::thread_rng()
}

#[verifier::external_type_specification]
#[verifier::external_body]
pub struct ExThreadRng(rand::rngs::ThreadRng);

/// Relies on rand's SliceRandom::shuffle: a Fisher-Yates pass built from
/// swaps alone, so whatever order comes out, the multiset of cards is the
/// one that went in.
#[verifier::external_body]
fn shuffle_cards(cards: &mut Vec<Card>, rng: &mut rand::rngs::ThreadRng)
    ensures
        final(cards)@.to_multiset() == old(cards)@.to_multiset(),
{
    rand::seq::SliceRandom::shuffle(cards.as_mut_slice(), rng);
}

/// Builds the canonical 52-card sequence.
fn build_canonical() -> (cards: Vec<Card>)
    ensures
        cards@ == canonical_deck(),
{
    let mut cards: Vec<Card> = Vec::new();
    let mut ri: usize = 0;
    while ri < 13
        invariant
            ri <= 13,
            cards@.len() == 4 * ri,
            forall|k: int| 0 <= k < cards@.len() ==> cards@[k] == canonical_card(k),
        decreases 13 - ri,
    {
        let rank = rank_from_index(ri);
        let mut si: usize = 0;
        while si < 4
            invariant
                ri < 13,
                si <= 4,
                rank == rank_of_index(ri as int),
                cards@.len() == 4 * ri + si,
                forall|k: int| 0 <= k < cards@.len() ==> cards@[k] == canonical_card(k),
            decreases 4 - si,
        {
            let suit = suit_from_index(si);
            let ghost k = cards@.len() as int;
            proof {
                assert(k / 4 == ri && k % 4 == si) by (nonlinear_arith)
                    requires
                        k == 4 * (ri as int) + (si as int),
                        0 <= si < 4,
                        0 <= ri,
                ;
            }
            cards.push(Card::new(rank, suit));
            si = si + 1;
        }
        ri = ri + 1;
    }
    proof {
        assert(cards@ =~= canonical_deck());
    }
    cards
}

/// The rank of a canonical position, as executable code.
fn rank_from_index(i: usize) -> (r: Rank)
    requires
        i < 13,
    ensures
        r == rank_of_index(i as int),
{
    match i {
        0 => Rank::Ace,
        1 => Rank::Two,
        2 => Rank::Three,
        3 => Rank::Four,
        4 => Rank::Five,
        5 => Rank::Six,
        6 => Rank::Seven,
        7 => Rank::Eight,
        8 => Rank::Nine,
        9 => Rank::Ten,
        10 => Rank::Jack,
        11 => Rank::Queen,
        _ => Rank::King,
    }
}

/// The suit of a canonical position, as executable code.
fn suit_from_index(i: usize) -> (s: Suit)
    requires
        i < 4,
    ensures
        s == suit_of_index(i as int),
{
    match i {
        0 => Suit::Clubs,
        1 => Suit::Diamonds,
        2 => Suit::Hearts,
        _ => Suit::Spades,
    }
}

/// An ordered deck of cards, dealt from the end of the sequence.
pub struct DeckOfCards {
    pub cards: Vec<Card>,
}

impl DeckOfCards {
    /// A deck in play: valid cards, never more than one full deck.
    pub open spec fn wf(self) -> bool {
        cards_valid(self.cards@) && self.cards@.len() <= 52
    }

    /// Builds the full deck in canonical order.
    pub fn new() -> (deck: DeckOfCards)
        ensures
            deck.cards@ == canonical_deck(),
            deck.wf(),
    {
        proof {
            lemma_canonical_deck_ok();
        }
        DeckOfCards { cards: build_canonical() }
    }

    /// Restores the full deck in canonical order, discarding whatever
    /// shuffle or removal state came before.
    pub fn refresh(&mut self)
        ensures
            final(self).cards@ == canonical_deck(),
            final(self).wf(),
    {
        proof {
            lemma_canonical_deck_ok();
        }
        self.cards = build_canonical();
    }

    /// Permutes the deck in place at random. The membership is untouched:
    /// the multiset of cards, and so the size, is exactly the old one.
    pub fn shuffel(&mut self)
        ensures
            final(self).cards@.to_multiset() == old(self).cards@.to_multiset(),
            final(self).cards@.len() == old(self).cards@.len(),
            old(self).wf() ==> final(self).wf(),
    {
        let mut rng = fresh_rng();
        shuffle_cards(&mut self.cards, &mut rng);
        proof {
            broadcast use group_to_multiset_ensures;

            assert(self.cards@.to_multiset().len() == self.cards@.len());
            assert(old(self).cards@.to_multiset().len() == old(self).cards@.len());
            if old(self).wf() {
                lemma_permutation_keeps_valid(old(self).cards@, self.cards@);
            }
        }
    }
}

} // verus!
