//! Hand scoring: sum the effective values, then promote face-up aces from
//! one to eleven while the running total stays under a role-specific limit.
//! Player hands promote while the total is at most eleven; the dealer's hand
//! promotes only while it is at most ten. The asymmetry is deliberate and
//! both paths are kept exactly.

use crate::card::Card;
use crate::card::Rank;
use vstd::prelude::*;

verus! {

/// Every card in the sequence carries the value its rank dictates.
pub open spec fn cards_valid(cards: Seq<Card>) -> bool {
    forall|i: int| 0 <= i < cards.len() ==> (#[trigger] cards[i]).valid()
}

/// A hand drawn from one 52-card deck: valid cards, at most 52 of them.
pub open spec fn hand_ok(cards: Seq<Card>) -> bool {
    cards_valid(cards) && cards.len() <= 52
}

/// Sum of effective values; a face-down card contributes zero.
pub open spec fn raw_total(cards: Seq<Card>) -> int
    decreases cards.len(),
{
    if cards.len() == 0 {
        0
    } else {
        raw_total(cards.drop_last()) + cards.last().spec_value()
    }
}

/// How many face-up aces the hand holds; a hidden ace is never promoted.
pub open spec fn face_up_aces(cards: Seq<Card>) -> int
    decreases cards.len(),
{
    if cards.len() == 0 {
        0
    } else {
        face_up_aces(cards.drop_last()) + if cards.last().face_up && cards.last().rank
            == Rank::Ace {
            1int
        } else {
            0int
        }
    }
}

/// Promote one ace (add ten) while an unpromoted ace remains and the
/// running total is at most `limit`.
pub open spec fn promote_aces(total: int, aces: int, limit: int) -> int
    decreases aces,
{
    if aces > 0 && total <= limit {
        promote_aces(total + 10, aces - 1, limit)
    } else {
        total
    }
}

/// A player hand's total: promote while the total is at most eleven.
pub open spec fn player_score(cards: Seq<Card>) -> int {
    promote_aces(raw_total(cards), face_up_aces(cards), 11)
}

/// The dealer hand's total: promote only while the total is at most ten.
pub open spec fn dealer_score(cards: Seq<Card>) -> int {
    promote_aces(raw_total(cards), face_up_aces(cards), 10)
}

pub proof fn lemma_promote_step(total: int, aces: int, limit: int)
    requires
        aces > 0,
        total <= limit,
    ensures
        promote_aces(total, aces, limit) == promote_aces(total + 10, aces - 1, limit),
{
    reveal_with_fuel(promote_aces, 2);
}

pub proof fn lemma_raw_total_bounds(cards: Seq<Card>)
    requires
        cards_valid(cards),
    ensures
        0 <= raw_total(cards) <= 10 * cards.len(),
    decreases cards.len(),
{
    if cards.len() > 0 {
        assert(cards_valid(cards.drop_last()));
        lemma_raw_total_bounds(cards.drop_last());
    }
}

pub proof fn lemma_face_up_aces_bounds(cards: Seq<Card>)
    ensures
        0 <= face_up_aces(cards) <= cards.len(),
    decreases cards.len(),
{
    if cards.len() > 0 {
        lemma_face_up_aces_bounds(cards.drop_last());
    }
}

/// A face-down card is excluded from scoring entirely: removing it from
/// the hand changes neither the raw total, nor the ace count, nor either
/// role's promoted score.
pub proof fn lemma_face_down_excluded(cards: Seq<Card>, i: int)
    requires
        0 <= i < cards.len(),
        !cards[i].face_up,
    ensures
        raw_total(cards.remove(i)) == raw_total(cards),
        face_up_aces(cards.remove(i)) == face_up_aces(cards),
        player_score(cards.remove(i)) == player_score(cards),
        dealer_score(cards.remove(i)) == dealer_score(cards),
    decreases cards.len(),
{
    if i == cards.len() - 1 {
        assert(cards.remove(i) =~= cards.drop_last());
    } else {
        assert(cards.remove(i).drop_last() =~= cards.drop_last().remove(i));
        assert(cards.remove(i).last() == cards.last());
        lemma_face_down_excluded(cards.drop_last(), i);
    }
}

/// Computes the promoted total of a hand under the given promotion limit
/// (eleven for players, ten for the dealer).
pub fn score_cards(cards: &Vec<Card>, promote_limit: u32) -> (total: u32)
    requires
        hand_ok(cards@),
        promote_limit <= 11,
    ensures
        total == promote_aces(raw_total(cards@), face_up_aces(cards@), promote_limit as int),
{
    let ghost limit = promote_limit as int;
    let mut res: u32 = 0;
    let mut aces: u32 = 0;
    let mut i: usize = 0;
    while i < cards.len()
        invariant
            hand_ok(cards@),
            i <= cards.len(),
            res == raw_total(cards@.take(i as int)),
            aces == face_up_aces(cards@.take(i as int)),
        decreases cards.len() - i,
    {
        proof {
            assert(cards@.take(i as int + 1).drop_last() =~= cards@.take(i as int));
            assert(cards@.take(i as int + 1).last() == cards@[i as int]);
            assert(cards_valid(cards@.take(i as int)));
            lemma_raw_total_bounds(cards@.take(i as int));
            lemma_face_up_aces_bounds(cards@.take(i as int));
        }
        let c = cards[i];
        if c.face_up && c.rank == Rank::Ace {
            aces = aces + 1;
        }
        res = res + c.value() as u32;
        i = i + 1;
    }
    proof {
        assert(cards@.take(cards@.len() as int) =~= cards@);
        lemma_raw_total_bounds(cards@);
        lemma_face_up_aces_bounds(cards@);
    }
    let ghost raw0 = res as int;
    let ghost aces0 = aces as int;
    while aces > 0 && res <= promote_limit
        invariant
            limit == promote_limit as int,
            promote_limit <= 11,
            res <= 530,
            promote_aces(res as int, aces as int, limit) == promote_aces(raw0, aces0, limit),
        decreases aces,
    {
        proof {
            lemma_promote_step(res as int, aces as int, limit);
        }
        res = res + 10;
        aces = aces - 1;
    }
    res
}

} // verus!
