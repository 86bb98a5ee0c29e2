//! The dealer: a hand scored under the dealer promotion rule, the owned
//! deck, and the fixed house policy of hitting below seventeen.

use crate::card::cards_text;
use crate::card::cards_label;
use crate::card::Card;
use crate::deck_of_cards::DeckOfCards;
use crate::deck_of_cards::RoundError;
use crate::deck_of_cards::canonical_deck;
use crate::player::Player;
use crate::scoring::cards_valid;
use crate::scoring::dealer_score;
use crate::scoring::hand_ok;
use crate::scoring::player_score;
use crate::scoring::score_cards;
use vstd::prelude::*;
use vstd::string::StrSliceExecFns;
use vstd::string::StringExecFns;

verus! {

/// The dealer. It owns the deck for the round and keeps its own hand's
/// total cached under the dealer rule.
pub struct Dealer {
    pub cards: Vec<Card>,
    pub total: u32,
    pub deck_of_cards: DeckOfCards,
}

impl Dealer {
    /// A well-formed dealer: a hand from one deck, the cached total being
    /// the dealer-rule score, over a well-formed deck.
    pub open spec fn wf(self) -> bool {
        hand_ok(self.cards@) && self.total == dealer_score(self.cards@)
            && self.deck_of_cards.wf()
    }

    /// A fresh dealer: empty hand and a full deck in canonical order.
    pub fn new() -> (d: Dealer)
        ensures
            d.cards@ == Seq::<Card>::empty(),
            d.total == 0,
            d.deck_of_cards.cards@ == canonical_deck(),
            d.wf(),
    {
        Dealer { cards: Vec::new(), total: 0, deck_of_cards: DeckOfCards::new() }
    }

    /// Recomputes the cached total from the current cards, under the
    /// dealer rule: promote an ace only while the total is at most ten.
    pub fn score(&mut self)
        requires
            hand_ok(old(self).cards@),
        ensures
            final(self).cards == old(self).cards,
            final(self).deck_of_cards == old(self).deck_of_cards,
            final(self).total == dealer_score(old(self).cards@),
    {
        self.total = score_cards(&self.cards, 10);
    }

    /// Flips the dealer's first card and rescores; with no cards yet,
    /// nothing changes.
    pub fn flip_first_card(&mut self)
        requires
            hand_ok(old(self).cards@),
        ensures
            final(self).deck_of_cards == old(self).deck_of_cards,
            old(self).cards@.len() == 0 ==> *final(self) == *old(self),
            old(self).cards@.len() > 0 ==> final(self).cards@ == old(self).cards@.update(
                0,
                old(self).cards@[0].flipped(),
            ) && final(self).total == dealer_score(final(self).cards@) && hand_ok(
                final(self).cards@,
            ),
    {
        if self.cards.len() > 0 {
            let mut c = self.cards.remove(0);
            c.flip();
            self.cards.insert(0, c);
            proof {
                assert(self.cards@ =~= old(self).cards@.update(
                    0,
                    old(self).cards@[0].flipped(),
                ));
                assert forall|i: int| 0 <= i < self.cards@.len() implies (#[trigger] self.cards@[i]).valid() by {
                    assert(old(self).cards@[i].valid());
                }
            }
            self.score();
        }
    }

    /// The house policy, applied to the freshly rescored hand: hit while
    /// the total is below seventeen.
    pub fn is_hitting(&mut self) -> (b: bool)
        requires
            hand_ok(old(self).cards@),
        ensures
            final(self).cards == old(self).cards,
            final(self).deck_of_cards == old(self).deck_of_cards,
            final(self).total == dealer_score(old(self).cards@),
            b == (dealer_score(old(self).cards@) < 17),
    {
        self.score();
        self.total < 17
    }

    /// Shuffles the owned deck in place; its membership is untouched.
    pub fn shuffel(&mut self)
        ensures
            final(self).cards == old(self).cards,
            final(self).total == old(self).total,
            final(self).deck_of_cards.cards@.to_multiset() == old(
                self,
            ).deck_of_cards.cards@.to_multiset(),
            final(self).deck_of_cards.cards@.len() == old(self).deck_of_cards.cards@.len(),
            old(self).deck_of_cards.wf() ==> final(self).deck_of_cards.wf(),
    {
        self.deck_of_cards.shuffel();
    }

    /// Deals the top deck card, face as it lies, into the player's hand,
    /// which is rescored. An empty deck is the round-fatal error and
    /// changes nothing.
    pub fn give(&mut self, player: &mut Player) -> (r: Result<(), RoundError>)
        requires
            cards_valid(old(self).deck_of_cards.cards@),
            cards_valid(old(player).cards@),
            old(player).cards@.len() + old(self).deck_of_cards.cards@.len() <= 52,
        ensures
            final(self).cards == old(self).cards,
            final(self).total == old(self).total,
            final(player).name == old(player).name,
            final(player).active == old(player).active,
            old(self).deck_of_cards.cards@.len() > 0 ==> r == Ok::<(), RoundError>(())
                && final(self).deck_of_cards.cards@ == old(self).deck_of_cards.cards@.drop_last()
                && final(player).cards@ == old(player).cards@.push(
                old(self).deck_of_cards.cards@.last(),
            ) && final(player).total == player_score(final(player).cards@) && final(player).wf(),
            old(self).deck_of_cards.cards@.len() == 0 ==> r == Err::<(), RoundError>(
                RoundError::DeckExhausted,
            ) && final(self).deck_of_cards.cards@ == old(self).deck_of_cards.cards@
                && *final(player) == *old(player),
    {
        match self.deck_of_cards.cards.pop() {
            Some(c) => {
                proof {
                    assert(old(self).deck_of_cards.cards@.drop_last() =~= old(
                        self,
                    ).deck_of_cards.cards@.subrange(
                        0,
                        old(self).deck_of_cards.cards@.len() - 1,
                    ));
                }
                player.add(c);
                Ok(())
            },
            None => Err(RoundError::DeckExhausted),
        }
    }

    /// Deals the top deck card into the dealer's own hand and rescores.
    /// An empty deck is the round-fatal error and changes nothing.
    pub fn add(&mut self) -> (r: Result<(), RoundError>)
        requires
            cards_valid(old(self).deck_of_cards.cards@),
            cards_valid(old(self).cards@),
            old(self).cards@.len() + old(self).deck_of_cards.cards@.len() <= 52,
        ensures
            old(self).deck_of_cards.cards@.len() > 0 ==> r == Ok::<(), RoundError>(())
                && final(self).deck_of_cards.cards@ == old(self).deck_of_cards.cards@.drop_last()
                && final(self).cards@ == old(self).cards@.push(
                old(self).deck_of_cards.cards@.last(),
            ) && final(self).total == dealer_score(final(self).cards@) && hand_ok(
                final(self).cards@,
            ),
            old(self).deck_of_cards.cards@.len() == 0 ==> r == Err::<(), RoundError>(
                RoundError::DeckExhausted,
            ) && final(self).cards == old(self).cards && final(self).total == old(self).total
                && final(self).deck_of_cards.cards@ == old(self).deck_of_cards.cards@,
    {
        match self.deck_of_cards.cards.pop() {
            Some(c) => {
                proof {
                    assert(old(self).deck_of_cards.cards@.drop_last() =~= old(
                        self,
                    ).deck_of_cards.cards@.subrange(
                        0,
                        old(self).deck_of_cards.cards@.len() - 1,
                    ));
                }
                self.cards.push(c);
                self.score();
                Ok(())
            },
            None => Err(RoundError::DeckExhausted),
        }
    }

    /// Whether the cached total exceeds twenty-one.
    pub fn is_busted(&self) -> (b: bool)
        ensures
            b == (self.total > 21),
    {
        self.total > 21
    }

    /// Renders the dealer's text: the fixed name, then the hand.
    pub fn label(&self) -> (s: String)
        ensures
            s@ == "Dealer: ["@ + cards_text(self.cards@) + "]"@,
    {
        let mut s = String::from_str("Dealer: [");
        let body = cards_label(&self.cards);
        s.append(body.as_str());
        s.append("]");
        s
    }
}

} // verus!
