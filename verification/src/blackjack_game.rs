//! The round engine: one full blackjack round as a state machine — deal,
//! player turns against a queue of hit answers, elimination of busted
//! players, the dealer's reveal and fixed-policy turn, settlement, and
//! cleanup back to a fresh round.

use crate::card::Card;
use crate::dealer::Dealer;
use crate::deck_of_cards::RoundError;
use crate::deck_of_cards::canonical_deck;
use crate::player::Player;
use crate::scoring::cards_valid;
use crate::scoring::dealer_score;
use crate::scoring::hand_ok;
use crate::scoring::player_score;
use vstd::prelude::*;

verus! {

/// One player's settlement against the dealer.
#[derive(Clone, Copy, PartialEq, Eq, Structural, Debug)]
pub enum Outcome {
    Win,
    Lose,
    Push,
}

/// What one player ends the round with.
pub struct PlayerResult {
    pub name: String,
    pub total: u32,
    pub outcome: Outcome,
}

/// What the round settles to: one entry per player, in seating order,
/// plus the dealer's final total, bust flag, and whether the dealer won
/// outright because nobody was left standing.
pub struct RoundResult {
    pub players: Vec<PlayerResult>,
    pub dealer_total: u32,
    pub dealer_busted: bool,
    pub dealer_won: bool,
}

/// The settlement rule. A player out of the running has lost; otherwise a
/// busted dealer loses to everyone, and equal totals push.
pub open spec fn outcome_for(active: bool, total: int, dealer_busted: bool, dealer_total: int) -> Outcome {
    if !active {
        Outcome::Lose
    } else if dealer_busted {
        Outcome::Win
    } else if total > dealer_total {
        Outcome::Win
    } else if total < dealer_total {
        Outcome::Lose
    } else {
        Outcome::Push
    }
}

/// A busted player settles as a loss, whatever the dealer's fate: the
/// totals and bust flag of the dealer never enter into it.
pub proof fn lemma_busted_always_loses(active: bool, total: int, dealer_busted: bool, dealer_total: int)
    requires
        total > 21,
    ensures
        outcome_for(active && total <= 21, total, dealer_busted, dealer_total) == Outcome::Lose,
{
}

/// A hand with its first card flipped: the dealer's reveal.
pub open spec fn revealed(hand: Seq<Card>) -> Seq<Card> {
    if hand.len() == 0 {
        hand
    } else {
        hand.update(0, hand[0].flipped())
    }
}

/// The two cards the dealing order hands player `i`, popped from the end
/// of the deck.
pub open spec fn initial_player_hand(d: Seq<Card>, i: int) -> Seq<Card> {
    seq![d[d.len() - 1 - 2 * i], d[d.len() - 2 - 2 * i]]
}

/// The dealer's own two cards, dealt after `n` players were served; the
/// first lies face down until the reveal.
pub open spec fn initial_dealer_hand(d: Seq<Card>, n: int) -> Seq<Card> {
    seq![d[d.len() - 1 - 2 * n].flipped(), d[d.len() - 2 - 2 * n]]
}

/// One player's turn. While the hand is under twenty-two the next queued
/// answer is consumed; a `true` draws the top deck card, anything else —
/// including an exhausted queue — stands. The flag reports a draw asked
/// of an empty deck. Returns the hand, the deck, the cursor, and that flag.
pub open spec fn player_turn(hand: Seq<Card>, deck: Seq<Card>, ds: Seq<bool>, cur: int) -> (
    Seq<Card>,
    Seq<Card>,
    int,
    bool,
)
    decreases deck.len(),
{
    if player_score(hand) > 21 {
        (hand, deck, cur, false)
    } else if !(0 <= cur < ds.len()) {
        (hand, deck, cur, false)
    } else if !ds[cur] {
        (hand, deck, cur + 1, false)
    } else if deck.len() == 0 {
        (hand, deck, cur + 1, true)
    } else {
        player_turn(hand.push(deck.last()), deck.drop_last(), ds, cur + 1)
    }
}

/// The turns of players `i` onward, each consuming answers and cards in
/// seating order. Returns the hands, the deck, the cursor, and the
/// empty-deck flag.
pub open spec fn turns_from(
    hands: Seq<Seq<Card>>,
    deck: Seq<Card>,
    ds: Seq<bool>,
    cur: int,
    i: int,
) -> (Seq<Seq<Card>>, Seq<Card>, int, bool)
    decreases hands.len() - i,
{
    if i < 0 || i >= hands.len() {
        (hands, deck, cur, false)
    } else {
        let t = player_turn(hands[i], deck, ds, cur);
        if t.3 {
            (hands.update(i, t.0), t.1, t.2, true)
        } else {
            turns_from(hands.update(i, t.0), t.1, ds, t.2, i + 1)
        }
    }
}

/// The dealer's turn: draw from the end of the deck while the dealer-rule
/// total is below seventeen. The flag reports a draw asked of an empty
/// deck.
pub open spec fn dealer_turn(hand: Seq<Card>, deck: Seq<Card>) -> (Seq<Card>, Seq<Card>, bool)
    decreases deck.len(),
{
    if dealer_score(hand) >= 17 {
        (hand, deck, false)
    } else if deck.len() == 0 {
        (hand, deck, true)
    } else {
        dealer_turn(hand.push(deck.last()), deck.drop_last())
    }
}

/// The hands alone of a seated player sequence.
pub open spec fn hands_of(players: Seq<Player>) -> Seq<Seq<Card>> {
    Seq::new(players.len(), |i: int| players[i].cards@)
}

/// Everything a round settles to, seen from its start.
pub struct RoundOutline {
    pub ok: bool,
    pub totals: Seq<int>,
    pub dealer_total: int,
    pub dealer_busted: bool,
    pub dealer_won: bool,
}

/// The fate of a whole round as a function of the number of seated
/// players, the deck order, and the queue of hit answers alone: the
/// opening deal, every player's turn, the reveal, the dealer's policy
/// turn when someone still stands, and the settlement inputs. `ok` is
/// false exactly when some deal runs the deck dry.
pub open spec fn round_outline(n: int, d: Seq<Card>, ds: Seq<bool>) -> RoundOutline {
    if d.len() < 2 * n + 2 {
        RoundOutline {
            ok: false,
            totals: Seq::empty(),
            dealer_total: 0,
            dealer_busted: false,
            dealer_won: false,
        }
    } else {
        let h0 = Seq::new(n as nat, |i: int| initial_player_hand(d, i));
        let deck1 = d.take(d.len() - 2 * n - 2);
        let t = turns_from(h0, deck1, ds, 0, 0);
        if t.3 {
            RoundOutline {
                ok: false,
                totals: Seq::empty(),
                dealer_total: 0,
                dealer_busted: false,
                dealer_won: false,
            }
        } else {
            let totals = Seq::new(n as nat, |i: int| player_score(t.0[i]));
            let rh = revealed(initial_dealer_hand(d, n));
            let any = exists|i: int| 0 <= i < n && (#[trigger] totals[i]) <= 21;
            if any {
                let dt = dealer_turn(rh, t.1);
                if dt.2 {
                    RoundOutline {
                        ok: false,
                        totals,
                        dealer_total: 0,
                        dealer_busted: false,
                        dealer_won: false,
                    }
                } else {
                    RoundOutline {
                        ok: true,
                        totals,
                        dealer_total: dealer_score(dt.0),
                        dealer_busted: dealer_score(dt.0) > 21,
                        dealer_won: false,
                    }
                }
            } else {
                RoundOutline {
                    ok: true,
                    totals,
                    dealer_total: dealer_score(rh),
                    dealer_busted: dealer_score(rh) > 21,
                    dealer_won: true,
                }
            }
        }
    }
}

/// The whole game: the seated players and the dealer with its deck.
pub struct BlackJackGame {
    pub players: Vec<Player>,
    pub dealer: Dealer,
}

impl BlackJackGame {
    /// Structural validity through a round: every hand well formed and
    /// scored, the deck well formed, and no party holding more cards than
    /// one deck can supply together with what remains in it.
    pub open spec fn valid_state(self) -> bool {
        &&& forall|i: int|
            0 <= i < self.players@.len() ==> (#[trigger] self.players@[i]).wf()
                && self.players@[i].cards@.len() + self.dealer.deck_of_cards.cards@.len() <= 52
        &&& self.dealer.wf()
        &&& self.dealer.cards@.len() + self.dealer.deck_of_cards.cards@.len() <= 52
    }

    /// The state between rounds: every hand empty and everyone seated in.
    pub open spec fn round_ready(self) -> bool {
        &&& self.valid_state()
        &&& forall|i: int|
            0 <= i < self.players@.len() ==> (#[trigger] self.players@[i]).cards@.len() == 0
                && self.players@[i].total == 0 && self.players@[i].active
        &&& self.dealer.cards@.len() == 0
        &&& self.dealer.total == 0
    }

    /// Seats one player per name, in order, and gives the dealer a fresh,
    /// shuffled deck: a permutation of the canonical fifty-two cards.
    pub fn new(names: Vec<String>) -> (g: BlackJackGame)
        ensures
            g.players@.len() == names@.len(),
            forall|i: int| 0 <= i < names@.len() ==> (#[trigger] g.players@[i]).name == names@[i],
            g.round_ready(),
            g.dealer.deck_of_cards.cards@.to_multiset() == canonical_deck().to_multiset(),
            g.dealer.deck_of_cards.cards@.len() == 52,
    {
        let mut players: Vec<Player> = Vec::new();
        let mut i: usize = 0;
        while i < names.len()
            invariant
                i <= names.len(),
                players@.len() == i,
                forall|j: int|
                    0 <= j < i ==> (#[trigger] players@[j]).name == names@[j]
                        && players@[j].cards@.len() == 0 && players@[j].total == 0
                        && players@[j].active && players@[j].wf(),
            decreases names.len() - i,
        {
            players.push(Player::new(names[i].clone()));
            i = i + 1;
        }
        let mut dealer = Dealer::new();
        proof {
            crate::deck_of_cards::lemma_canonical_deck_ok();
        }
        dealer.shuffel();
        BlackJackGame { players, dealer }
    }

    /// Marks every busted player as out of the running; nothing else of
    /// any player, nor of the dealer, changes.
    pub fn still_playing(&mut self)
        ensures
            final(self).players@.len() == old(self).players@.len(),
            forall|i: int|
                0 <= i < old(self).players@.len() ==> {
                    &&& (#[trigger] final(self).players@[i]).cards == old(self).players@[i].cards
                    &&& final(self).players@[i].name == old(self).players@[i].name
                    &&& final(self).players@[i].total == old(self).players@[i].total
                    &&& final(self).players@[i].active == (old(self).players@[i].active && old(self).players@[i].total <= 21)
                },
            final(self).dealer == old(self).dealer,
    {
        let mut i: usize = 0;
        while i < self.players.len()
            invariant
                i <= self.players@.len(),
                self.players@.len() == old(self).players@.len(),
                self.dealer == old(self).dealer,
                forall|j: int|
                    i <= j < old(self).players@.len() ==> #[trigger] self.players@[j] == old(self).players@[j],
                forall|j: int|
                    0 <= j < i ==> {
                        &&& (#[trigger] self.players@[j]).cards == old(self).players@[j].cards
                        &&& self.players@[j].name == old(self).players@[j].name
                        &&& self.players@[j].total == old(self).players@[j].total
                        &&& self.players@[j].active == (old(self).players@[j].active && old(self).players@[j].total <= 21)
                    },
            decreases self.players@.len() - i,
        {
            let ghost snap = self.players@;
            let mut p = self.players.remove(i);
            if p.total > 21 {
                p.active = false;
            }
            self.players.insert(i, p);
            proof {
                assert(self.players@ =~= snap.update(i as int, self.players@[i as int]));
            }
            i = i + 1;
        }
    }

    /// Deals the opening hands: two cards to each seated player in order,
    /// then two to the dealer, whose first card goes face down. Succeeds
    /// exactly when the deck holds enough cards; a shortfall is reported
    /// as the round-fatal error with the deck run dry.
    #[verifier::loop_isolation(false)]
    pub fn deal_initial(&mut self) -> (r: Result<(), RoundError>)
        requires
            old(self).round_ready(),
        ensures
            final(self).players@.len() == old(self).players@.len(),
            forall|i: int|
                0 <= i < old(self).players@.len() ==> (#[trigger] final(self).players@[i]).name
                    == old(self).players@[i].name && final(self).players@[i].active,
            final(self).valid_state(),
            r is Ok <==> old(self).dealer.deck_of_cards.cards@.len() >= 2 * old(self).players@.len() + 2,
            r is Err ==> r == Err::<(), RoundError>(RoundError::DeckExhausted) && final(self).dealer.deck_of_cards.cards@.len() == 0,
            r is Ok ==> ({
                let d = old(self).dealer.deck_of_cards.cards@;
                let n = old(self).players@.len() as int;
                &&& forall|i: int|
                    0 <= i < n ==> (#[trigger] final(self).players@[i]).cards@
                        == initial_player_hand(d, i) && final(self).players@[i].total
                        == player_score(initial_player_hand(d, i))
                &&& final(self).dealer.cards@ == initial_dealer_hand(d, n)
                &&& final(self).dealer.total == dealer_score(initial_dealer_hand(d, n))
                &&& final(self).dealer.deck_of_cards.cards@ == d.take(d.len() - 2 * n - 2)
            }),
    {
        let ghost d = old(self).dealer.deck_of_cards.cards@;
        let ghost n = old(self).players@.len() as int;
        let num = self.players.len();
        let mut i: usize = 0;
        while i < num
            invariant
                num == n,
                i <= num,
                self.players@.len() == n,
                d.len() >= 2 * i,
                self.dealer.cards@.len() == 0,
                self.dealer.total == 0,
                self.dealer.deck_of_cards.cards@ == d.take(d.len() - 2 * i),
                cards_valid(d),
                d.len() <= 52,
                forall|j: int|
                    0 <= j < i ==> (#[trigger] self.players@[j]).cards@ == initial_player_hand(
                        d,
                        j,
                    ) && self.players@[j].total == player_score(initial_player_hand(d, j))
                        && self.players@[j].wf(),
                forall|j: int|
                    i <= j < n ==> #[trigger] self.players@[j] == old(self).players@[j],
                forall|j: int|
                    0 <= j < n ==> (#[trigger] self.players@[j]).name == old(self).players@[j].name
                        && self.players@[j].active,
            decreases num - i,
        {
            proof {
                assert(self.players@[i as int] == old(self).players@[i as int]);
                assert(old(self).players@[i as int].wf());
                assert(old(self).players@[i as int].cards@.len() == 0);
            }
            let ghost snap = self.players@;
            let mut p = self.players.remove(i);
            let r1 = self.dealer.give(&mut p);
            match r1 {
                Err(e) => {
                    self.players.insert(i, p);
                    proof {
                        assert(self.players@ =~= snap);
                    }
                    return Err(e);
                },
                Ok(()) => {},
            }
            let r2 = self.dealer.give(&mut p);
            match r2 {
                Err(e) => {
                    self.players.insert(i, p);
                    proof {
                        assert(self.players@ =~= snap.update(i as int, self.players@[i as int]));
                    }
                    return Err(e);
                },
                Ok(()) => {},
            }
            self.players.insert(i, p);
            proof {
                assert(self.players@ =~= snap.update(i as int, self.players@[i as int]));
                assert(d.take(d.len() - 2 * (i as int)).drop_last() =~= d.take(
                    d.len() - 2 * (i as int) - 1,
                ));
                assert(d.take(d.len() - 2 * (i as int) - 1).drop_last() =~= d.take(
                    d.len() - 2 * (i as int) - 2,
                ));
                assert(self.players@[i as int].cards@ =~= initial_player_hand(d, i as int));
            }
            i = i + 1;
        }
        let ra = self.dealer.add();
        match ra {
            Err(e) => {
                return Err(e);
            },
            Ok(()) => {},
        }
        let rb = self.dealer.add();
        match rb {
            Err(e) => {
                return Err(e);
            },
            Ok(()) => {},
        }
        proof {
            assert(d.take(d.len() - 2 * n).drop_last() =~= d.take(d.len() - 2 * n - 1));
            assert(d.take(d.len() - 2 * n - 1).drop_last() =~= d.take(d.len() - 2 * n - 2));
            assert(self.dealer.cards@ =~= seq![
                d[d.len() - 1 - 2 * n],
                d[d.len() - 2 - 2 * n],
            ]);
        }
        self.dealer.flip_first_card();
        proof {
            assert(self.dealer.cards@ =~= initial_dealer_hand(d, n));
        }
        self.dealer.score();
        Ok(())
    }

    /// Deals one more card to player `i`; the hand is rescored. Succeeds
    /// exactly when the deck is not empty; everything else is untouched.
    pub fn hit_player(&mut self, i: usize) -> (r: Result<(), RoundError>)
        requires
            i < old(self).players@.len(),
            old(self).valid_state(),
        ensures
            final(self).valid_state(),
            final(self).players@.len() == old(self).players@.len(),
            final(self).dealer.cards == old(self).dealer.cards,
            final(self).dealer.total == old(self).dealer.total,
            forall|j: int|
                0 <= j < old(self).players@.len() && j != i ==> #[trigger] final(self).players@[j]
                    == old(self).players@[j],
            final(self).players@[i as int].name == old(self).players@[i as int].name,
            final(self).players@[i as int].active == old(self).players@[i as int].active,
            r is Ok <==> old(self).dealer.deck_of_cards.cards@.len() > 0,
            r is Ok ==> ({
                let d = old(self).dealer.deck_of_cards.cards@;
                &&& final(self).players@[i as int].cards@ == old(self).players@[i as int].cards@.push(
                    d.last(),
                )
                &&& final(self).players@[i as int].total == player_score(
                    final(self).players@[i as int].cards@,
                )
                &&& final(self).dealer.deck_of_cards.cards@ == d.drop_last()
            }),
            r is Err ==> r == Err::<(), RoundError>(RoundError::DeckExhausted) && final(self).players@ == old(self).players@ && final(self).dealer.deck_of_cards.cards@ == old(self).dealer.deck_of_cards.cards@,
    {
        let ghost snap = self.players@;
        let mut p = self.players.remove(i);
        let r = self.dealer.give(&mut p);
        self.players.insert(i, p);
        proof {
            assert(self.players@ =~= snap.update(i as int, self.players@[i as int]));
            if old(self).dealer.deck_of_cards.cards@.len() == 0 {
                assert(self.players@ =~= snap);
            }
        }
        r
    }

    /// Ends the round once every player has taken their turn: busted
    /// players are put out of the running, the dealer's hole card is
    /// revealed, and — only if someone is still standing — the dealer
    /// draws by the house policy. Settlement then classifies every
    /// player, and the table is cleaned up for the next round. The
    /// round-fatal error comes exactly when the dealer must draw from an
    /// empty deck.
    #[verifier::loop_isolation(false)]
    pub fn finish_round(&mut self) -> (r: Result<RoundResult, RoundError>)
        requires
            old(self).valid_state(),
        ensures
            ({
                let ps = old(self).players@;
                let h1 = revealed(old(self).dealer.cards@);
                let d0 = old(self).dealer.deck_of_cards.cards@;
                let any = exists|i: int|
                    0 <= i < ps.len() && (#[trigger] ps[i]).active && ps[i].total <= 21;
                let dt = dealer_turn(h1, d0);
                &&& (r is Err <==> any && dt.2)
                &&& (r is Err ==> r == Err::<RoundResult, RoundError>(RoundError::DeckExhausted)
                    && final(self).players@.len() == ps.len() && forall|i: int|
                    0 <= i < ps.len() ==> (#[trigger] final(self).players@[i]).name == ps[i].name)
                &&& (r is Ok ==> ({
                    let res = r->Ok_0;
                    &&& res.players@.len() == ps.len()
                    &&& forall|i: int|
                        0 <= i < ps.len() ==> (#[trigger] res.players@[i]).name == ps[i].name
                            && res.players@[i].total == ps[i].total && res.players@[i].outcome
                            == outcome_for(
                            ps[i].active && ps[i].total <= 21,
                            ps[i].total as int,
                            res.dealer_busted,
                            res.dealer_total as int,
                        )
                    &&& res.dealer_busted == (res.dealer_total > 21)
                    &&& (any ==> res.dealer_total == dealer_score(dt.0) && res.dealer_total >= 17
                        && !res.dealer_won)
                    &&& (!any ==> res.dealer_total == dealer_score(h1) && res.dealer_won)
                    &&& final(self).round_ready()
                    &&& final(self).players@.len() == ps.len()
                    &&& (forall|i: int|
                        0 <= i < ps.len() ==> (#[trigger] final(self).players@[i]).name
                            == ps[i].name)
                    &&& final(self).dealer.deck_of_cards.cards@ == canonical_deck()
                }))
            }),
    {
        let ghost ps = old(self).players@;
        let ghost h1 = revealed(old(self).dealer.cards@);
        let ghost d0 = old(self).dealer.deck_of_cards.cards@;
        let ghost any_ghost = exists|i: int|
            0 <= i < ps.len() && (#[trigger] ps[i]).active && ps[i].total <= 21;

        self.still_playing();
        self.dealer.flip_first_card();
        proof {
            if old(self).dealer.cards@.len() > 0 {
                assert(self.dealer.cards@ =~= h1);
            }
        }

        let mut any_active = false;
        let mut i: usize = 0;
        while i < self.players.len()
            invariant
                i <= self.players@.len(),
                any_active == exists|j: int|
                    0 <= j < i && (#[trigger] ps[j]).active && ps[j].total <= 21,
            decreases self.players@.len() - i,
        {
            if self.players[i].active {
                any_active = true;
            }
            proof {
                assert(self.players@[i as int].active == (ps[i as int].active && ps[i as int].total
                    <= 21));
            }
            i = i + 1;
        }
        proof {
            assert(any_active == any_ghost);
        }

        if any_active {
            let mut hit = self.dealer.is_hitting();
            while hit
                invariant
                    hand_ok(self.dealer.cards@),
                    self.dealer.total == dealer_score(self.dealer.cards@),
                    hit == (dealer_score(self.dealer.cards@) < 17),
                    self.dealer.deck_of_cards.wf(),
                    self.dealer.cards@.len() + self.dealer.deck_of_cards.cards@.len() <= 52,
                    dealer_turn(h1, d0) == dealer_turn(
                        self.dealer.cards@,
                        self.dealer.deck_of_cards.cards@,
                    ),
                    self.players@.len() == ps.len(),
                    forall|j: int|
                        0 <= j < ps.len() ==> (#[trigger] self.players@[j]).name == ps[j].name
                            && self.players@[j].total == ps[j].total && self.players@[j].active
                            == (ps[j].active && ps[j].total <= 21) && self.players@[j].wf(),
                decreases self.dealer.deck_of_cards.cards@.len(),
            {
                let ghost hand_before = self.dealer.cards@;
                let ghost deck_before = self.dealer.deck_of_cards.cards@;
                let ra = self.dealer.add();
                match ra {
                    Err(e) => {
                        proof {
                            assert(dealer_turn(hand_before, deck_before) == (
                                hand_before,
                                deck_before,
                                true,
                            ));
                        }
                        return Err(e);
                    },
                    Ok(()) => {},
                }
                proof {
                    assert(dealer_turn(hand_before, deck_before) == dealer_turn(
                        self.dealer.cards@,
                        self.dealer.deck_of_cards.cards@,
                    ));
                }
                hit = self.dealer.is_hitting();
            }
            proof {
                assert(dealer_turn(h1, d0) == (
                    self.dealer.cards@,
                    self.dealer.deck_of_cards.cards@,
                    false,
                ));
            }
        }
        let dealer_total = self.dealer.total;
        let dealer_busted = self.dealer.is_busted();

        let mut results: Vec<PlayerResult> = Vec::new();
        let mut k: usize = 0;
        while k < self.players.len()
            invariant
                k <= self.players@.len(),
                results@.len() == k,
                forall|j: int|
                    0 <= j < k ==> (#[trigger] results@[j]).name == ps[j].name && results@[j].total
                        == ps[j].total && results@[j].outcome == outcome_for(
                        ps[j].active && ps[j].total <= 21,
                        ps[j].total as int,
                        dealer_busted,
                        dealer_total as int,
                    ),
            decreases self.players@.len() - k,
        {
            let active = self.players[k].active;
            let total = self.players[k].total;
            let outcome = if !active {
                Outcome::Lose
            } else if dealer_busted {
                Outcome::Win
            } else if total > dealer_total {
                Outcome::Win
            } else if total < dealer_total {
                Outcome::Lose
            } else {
                Outcome::Push
            };
            let name = self.players[k].name.clone();
            results.push(PlayerResult { name, total, outcome });
            k = k + 1;
        }

        let mut m: usize = 0;
        while m < self.players.len()
            invariant
                m <= self.players@.len(),
                self.players@.len() == ps.len(),
                forall|j: int|
                    0 <= j < m ==> (#[trigger] self.players@[j]).name == ps[j].name
                        && self.players@[j].cards@.len() == 0 && self.players@[j].total == 0
                        && self.players@[j].active && self.players@[j].wf(),
                forall|j: int|
                    m <= j < ps.len() ==> (#[trigger] self.players@[j]).name == ps[j].name
                        && self.players@[j].wf(),
            decreases self.players@.len() - m,
        {
            let ghost snap = self.players@;
            let mut p = self.players.remove(m);
            p.clear();
            p.active = true;
            self.players.insert(m, p);
            proof {
                assert(self.players@ =~= snap.update(m as int, self.players@[m as int]));
            }
            m = m + 1;
        }
        self.dealer.cards = Vec::new();
        self.dealer.total = 0;
        self.dealer.deck_of_cards.refresh();
        proof {
            crate::deck_of_cards::lemma_canonical_deck_ok();
        }
        Ok(RoundResult { players: results, dealer_total, dealer_busted, dealer_won: !any_active })
    }

    /// Runs one whole round against a queue of hit answers, consumed in
    /// seating order: the opening deal, each player's turn, elimination,
    /// the reveal, the dealer's policy turn when someone still stands,
    /// settlement, and cleanup. Succeeds, with the settlement the outline
    /// predicts, exactly when no deal runs the deck dry; the table is
    /// then ready for the next round.
    #[verifier::loop_isolation(false)]
    pub fn play(&mut self, decisions: &Vec<bool>) -> (r: Result<RoundResult, RoundError>)
        requires
            old(self).round_ready(),
        ensures
            ({
                let o = round_outline(
                    old(self).players@.len() as int,
                    old(self).dealer.deck_of_cards.cards@,
                    decisions@,
                );
                &&& (r is Ok <==> o.ok)
                &&& (r is Err ==> r == Err::<RoundResult, RoundError>(RoundError::DeckExhausted))
                &&& final(self).players@.len() == old(self).players@.len()
                &&& forall|i: int|
                    0 <= i < old(self).players@.len() ==> (#[trigger] final(self).players@[i]).name
                        == old(self).players@[i].name
                &&& (r is Ok ==> ({
                    let res = r->Ok_0;
                    &&& res.players@.len() == old(self).players@.len()
                    &&& forall|i: int|
                        0 <= i < old(self).players@.len() ==> (#[trigger] res.players@[i]).name
                            == old(self).players@[i].name && res.players@[i].total as int
                            == o.totals[i] && res.players@[i].outcome == outcome_for(
                            o.totals[i] <= 21,
                            o.totals[i],
                            o.dealer_busted,
                            o.dealer_total,
                        )
                    &&& res.dealer_total as int == o.dealer_total
                    &&& res.dealer_busted == o.dealer_busted
                    &&& res.dealer_busted == (res.dealer_total > 21)
                    &&& res.dealer_won == o.dealer_won
                    &&& final(self).round_ready()
                    &&& final(self).dealer.deck_of_cards.cards@ == canonical_deck()
                }))
            }),
    {
        let ghost d = old(self).dealer.deck_of_cards.cards@;
        let ghost n = old(self).players@.len() as int;
        let ghost ds = decisions@;
        let ghost o = round_outline(n, d, ds);

        let r0 = self.deal_initial();
        match r0 {
            Err(e) => {
                return Err(e);
            },
            Ok(()) => {},
        }
        let ghost h0 = Seq::new(n as nat, |i: int| initial_player_hand(d, i));
        let ghost deck1 = d.take(d.len() - 2 * n - 2);
        proof {
            assert(hands_of(self.players@) =~= h0);
        }

        let mut cursor: usize = 0;
        let mut i: usize = 0;
        while i < self.players.len()
            invariant
                i <= n,
                self.players@.len() == n,
                cursor <= ds.len(),
                self.dealer.cards@ == initial_dealer_hand(d, n),
                self.dealer.total == dealer_score(initial_dealer_hand(d, n)),
                hand_ok(self.dealer.cards@),
                self.dealer.deck_of_cards.wf(),
                self.dealer.cards@.len() + self.dealer.deck_of_cards.cards@.len() <= 52,
                forall|j: int|
                    0 <= j < n ==> (#[trigger] self.players@[j]).wf() && self.players@[j].name
                        == old(self).players@[j].name && self.players@[j].active
                        && self.players@[j].cards@.len() + self.dealer.deck_of_cards.cards@.len()
                        <= 52,
                turns_from(h0, deck1, ds, 0, 0) == turns_from(
                    hands_of(self.players@),
                    self.dealer.deck_of_cards.cards@,
                    ds,
                    cursor as int,
                    i as int,
                ),
            decreases n - i,
        {
            let ghost snap = self.players@;
            let ghost hcur = hands_of(self.players@);
            let ghost deck_entry_len = self.dealer.deck_of_cards.cards@.len() as int;
            let mut p = self.players.remove(i);
            proof {
                assert(p == snap[i as int]);
                assert(hcur[i as int] == p.cards@);
                assert(turns_from(hcur, self.dealer.deck_of_cards.cards@, ds, cursor as int, i as int)
                    == ({
                    let t = player_turn(
                        p.cards@,
                        self.dealer.deck_of_cards.cards@,
                        ds,
                        cursor as int,
                    );
                    if t.3 {
                        (hcur.update(i as int, t.0), t.1, t.2, true)
                    } else {
                        turns_from(hcur.update(i as int, t.0), t.1, ds, t.2, i as int + 1)
                    }
                }));
            }
            let mut turn_done = false;
            while !turn_done
                invariant
                    p.wf(),
                    p.name == snap[i as int].name,
                    p.active,
                    i < n,
                    cursor <= ds.len(),
                    p.cards@.len() + self.dealer.deck_of_cards.cards@.len() <= 52,
                    self.dealer.cards@ == initial_dealer_hand(d, n),
                    self.dealer.total == dealer_score(initial_dealer_hand(d, n)),
                    self.dealer.deck_of_cards.wf(),
                    self.dealer.cards@.len() + self.dealer.deck_of_cards.cards@.len() <= 52,
                    self.dealer.deck_of_cards.cards@.len() <= deck_entry_len,
                    self.players@ == snap.remove(i as int),
                    !turn_done ==> turns_from(h0, deck1, ds, 0, 0) == ({
                        let t = player_turn(
                            p.cards@,
                            self.dealer.deck_of_cards.cards@,
                            ds,
                            cursor as int,
                        );
                        if t.3 {
                            (hcur.update(i as int, t.0), t.1, t.2, true)
                        } else {
                            turns_from(hcur.update(i as int, t.0), t.1, ds, t.2, i as int + 1)
                        }
                    }),
                    turn_done ==> turns_from(h0, deck1, ds, 0, 0) == turns_from(
                        hcur.update(i as int, p.cards@),
                        self.dealer.deck_of_cards.cards@,
                        ds,
                        cursor as int,
                        i as int + 1,
                    ),
                decreases self.dealer.deck_of_cards.cards@.len(), (if turn_done {
                    0int
                } else {
                    1int
                }),
            {
                if p.total > 21 {
                    turn_done = true;
                } else if cursor >= decisions.len() {
                    turn_done = true;
                } else {
                    let hit = decisions[cursor];
                    cursor = cursor + 1;
                    if !hit {
                        turn_done = true;
                    } else {
                        let ghost hand_before = p.cards@;
                        let ghost deck_before = self.dealer.deck_of_cards.cards@;
                        let ghost cur_before = cursor as int - 1;
                        proof {
                            assert(player_turn(hand_before, deck_before, ds, cur_before) == (if deck_before.len()
                                == 0 {
                                (hand_before, deck_before, cur_before + 1, true)
                            } else {
                                player_turn(
                                    hand_before.push(deck_before.last()),
                                    deck_before.drop_last(),
                                    ds,
                                    cur_before + 1,
                                )
                            }));
                        }
                        let rg = self.dealer.give(&mut p);
                        match rg {
                            Err(e) => {
                                self.players.insert(i, p);
                                proof {
                                    assert(turns_from(h0, deck1, ds, 0, 0).3);
                                    assert(!o.ok);
                                    assert(self.players@ =~= snap.update(i as int, p));
                                }
                                return Err(e);
                            },
                            Ok(()) => {},
                        }
                    }
                }
            }
            self.players.insert(i, p);
            proof {
                assert(self.players@ =~= snap.update(i as int, p));
                assert(hands_of(self.players@) =~= hcur.update(i as int, p.cards@));
            }
            i = i + 1;
        }
        proof {
            assert(turns_from(
                hands_of(self.players@),
                self.dealer.deck_of_cards.cards@,
                ds,
                cursor as int,
                n,
            ) == (hands_of(self.players@), self.dealer.deck_of_cards.cards@, cursor as int, false));
        }
        let ghost t = turns_from(h0, deck1, ds, 0, 0);
        let ghost ps2 = self.players@;
        let ghost dh2 = self.dealer.cards@;
        let ghost dk2 = self.dealer.deck_of_cards.cards@;
        proof {
            assert(!t.3);
            assert(t.0 == hands_of(ps2));
            assert(t.1 == dk2);
            assert forall|j: int| 0 <= j < n implies (#[trigger] ps2[j]).total as int
                == o.totals[j] by {
                assert(hands_of(ps2)[j] == ps2[j].cards@);
                assert(ps2[j].wf());
            }
            assert((exists|j: int|
                0 <= j < ps2.len() && (#[trigger] ps2[j]).active && ps2[j].total <= 21) <==> (
            exists|j: int| 0 <= j < n && (#[trigger] o.totals[j]) <= 21)) by {
                if exists|j: int|
                    0 <= j < ps2.len() && (#[trigger] ps2[j]).active && ps2[j].total <= 21 {
                    let w = choose|j: int|
                        0 <= j < ps2.len() && (#[trigger] ps2[j]).active && ps2[j].total <= 21;
                    assert(o.totals[w] <= 21);
                }
                if exists|j: int| 0 <= j < n && (#[trigger] o.totals[j]) <= 21 {
                    let w = choose|j: int| 0 <= j < n && (#[trigger] o.totals[j]) <= 21;
                    assert(ps2[w].active && ps2[w].total <= 21);
                }
            }
            assert(revealed(dh2) == revealed(initial_dealer_hand(d, n)));
        }
        self.finish_round()
    }
}

} // verus!
