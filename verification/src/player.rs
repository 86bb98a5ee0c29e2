//! A player: a named hand, its cached total under the player promotion
//! rule, and a participation flag that goes down when the hand busts.

use crate::card::Card;
use crate::card::cards_text;
use crate::card::cards_label;
use crate::scoring::cards_valid;
use crate::scoring::hand_ok;
use crate::scoring::player_score;
use crate::scoring::score_cards;
use vstd::prelude::*;
use vstd::string::StrSliceExecFns;
use vstd::string::StringExecFns;

verus! {

/// A player in the round.
pub struct Player {
    pub cards: Vec<Card>,
    pub name: String,
    pub total: u32,
    pub active: bool,
}

impl Player {
    /// A well-formed player: a hand from one deck whose cached total is
    /// the player-rule score of the visible cards.
    pub open spec fn wf(self) -> bool {
        hand_ok(self.cards@) && self.total == player_score(self.cards@)
    }

    /// A fresh player: empty hand, total zero, taking part.
    pub fn new(name: String) -> (p: Player)
        ensures
            p.name == name,
            p.cards@ == Seq::<Card>::empty(),
            p.total == 0,
            p.active,
            p.wf(),
    {
        Player { cards: Vec::new(), name, total: 0, active: true }
    }

    /// Recomputes the cached total from the current cards, under the
    /// player rule: promote an ace while the total is at most eleven.
    pub fn score(&mut self)
        requires
            hand_ok(old(self).cards@),
        ensures
            final(self).cards == old(self).cards,
            final(self).name == old(self).name,
            final(self).active == old(self).active,
            final(self).total == player_score(old(self).cards@),
            final(self).wf(),
    {
        self.total = score_cards(&self.cards, 11);
    }

    /// Empties the hand and resets the total; used between rounds.
    pub fn clear(&mut self)
        ensures
            final(self).cards@ == Seq::<Card>::empty(),
            final(self).total == 0,
            final(self).name == old(self).name,
            final(self).active == old(self).active,
            final(self).wf(),
    {
        self.cards = Vec::new();
        self.total = 0;
    }

    /// Appends a card to the hand and rescores.
    pub fn add(&mut self, card: Card)
        requires
            cards_valid(old(self).cards@),
            old(self).cards@.len() < 52,
            card.valid(),
        ensures
            final(self).cards@ == old(self).cards@.push(card),
            final(self).total == player_score(old(self).cards@.push(card)),
            final(self).name == old(self).name,
            final(self).active == old(self).active,
            final(self).wf(),
    {
        self.cards.push(card);
        self.score();
    }

    /// Whether the cached total exceeds twenty-one.
    pub fn is_busted(&self) -> (b: bool)
        ensures
            b == (self.total > 21),
    {
        self.total > 21
    }

    /// Renders the player's text: the name, then the hand.
    pub fn label(&self) -> (s: String)
        ensures
            s@ == self.name@ + ": ["@ + cards_text(self.cards@) + "]"@,
    {
        let mut s = self.name.clone();
        s.append(": [");
        let body = cards_label(&self.cards);
        s.append(body.as_str());
        s.append("]");
        s
    }
}

/// The player promotion rule on a pair of aces: the raw total is two and
/// one ace is promoted, for twelve; the second stays at one, since the
/// running total has then passed eleven.
pub proof fn lemma_two_aces_score_twelve(cards: Seq<Card>)
    requires
        cards.len() == 2,
        cards[0].valid(),
        cards[1].valid(),
        cards[0].face_up,
        cards[1].face_up,
        cards[0].rank == crate::card::Rank::Ace,
        cards[1].rank == crate::card::Rank::Ace,
    ensures
        player_score(cards) == 12,
        crate::scoring::dealer_score(cards) == 12,
{
    reveal_with_fuel(crate::scoring::raw_total, 3);
    reveal_with_fuel(crate::scoring::face_up_aces, 3);
    assert(cards.drop_last().drop_last() =~= Seq::<Card>::empty());
    assert(cards.drop_last().last() == cards[0]);
    assert(crate::scoring::raw_total(cards) == 2);
    assert(crate::scoring::face_up_aces(cards) == 2);
    reveal_with_fuel(crate::scoring::promote_aces, 3);
    assert(crate::scoring::promote_aces(2, 2, 11) == 12);
    assert(crate::scoring::promote_aces(2, 2, 10) == 12);
}

} // verus!
