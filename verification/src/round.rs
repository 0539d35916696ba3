//! The round engine: one deal of four 13-card hands, the calling sub-phase,
//! and the sequence of thirteen tricks, with turn derivation.

use vstd::prelude::*;
use crate::cards::Card;
use crate::cards::Deck;
use crate::errors::GameError;
use crate::trick::Trick;
use crate::trick::TrickView;
use crate::trick::trick_wf;
use crate::trick::winner_seat;
use crate::trick::lemma_winner_upto_bound;

verus! {

/// The phase a round is in: calls are gathered first, then the thirteen
/// tricks are played, and then the round is over.
#[derive(Clone, Copy, PartialEq, Eq, Structural, Debug)]
pub enum State {
    Calling,
    Playing,
    Complete,
}

/// The mathematical content of a round: the seat that leads its first
/// trick, the four hands, the calls in seating order, and the tricks in
/// play order.
#[verifier::ext_equal]
pub ghost struct RoundView {
    pub start_seat: int,
    pub hands: Seq<Seq<Card>>,
    pub calls: Seq<u8>,
    pub tricks: Seq<TrickView>,
}

/// The view of a sequence of hands.
pub open spec fn hands_view(hs: Seq<Vec<Card>>) -> Seq<Seq<Card>> {
    Seq::new(hs.len(), |i: int| hs[i]@)
}

/// The view of a sequence of tricks.
pub open spec fn tricks_view(ts: Seq<Trick>) -> Seq<TrickView> {
    Seq::new(ts.len(), |i: int| ts[i]@)
}

/// A well-formed round: at most four calls and thirteen tricks, tricks only
/// once all calls are in, every trick but the last complete, the first
/// trick led by the round's starting seat, every later trick led by the
/// winner of the one before it, and a complete last trick only in a
/// finished round.
pub open spec fn round_wf(rv: RoundView) -> bool {
    &&& 0 <= rv.start_seat < 4
    &&& rv.hands.len() == 4
    &&& rv.calls.len() <= 4
    &&& rv.tricks.len() <= 13
    &&& rv.calls.len() < 4 ==> rv.tricks.len() == 0
    &&& rv.calls.len() == 4 ==> rv.tricks.len() >= 1
    &&& forall|i: int| 0 <= i < rv.tricks.len() ==> trick_wf(#[trigger] rv.tricks[i])
    &&& forall|i: int| 0 <= i < rv.tricks.len() - 1 ==> (#[trigger] rv.tricks[i]).cards.len() == 4
    &&& rv.tricks.len() >= 1 ==> rv.tricks[0].leader == rv.start_seat
    &&& forall|i: int|
        1 <= i < rv.tricks.len() ==> (#[trigger] rv.tricks[i]).leader == winner_seat(
            rv.tricks[i - 1],
        )
    &&& (rv.tricks.len() >= 1 && rv.tricks.last().cards.len() == 4) ==> rv.tricks.len() == 13
}

/// The phase of a well-formed round.
pub open spec fn spec_phase(rv: RoundView) -> State {
    if rv.calls.len() < 4 {
        State::Calling
    } else if rv.tricks.len() == 13 && rv.tricks.last().cards.len() == 4 {
        State::Complete
    } else {
        State::Playing
    }
}

/// The seat to act next in a round that is not complete: during calling,
/// the starting seat advanced by the calls already made; during play, the
/// current trick's leader advanced by the cards already played to it.
pub open spec fn spec_next(rv: RoundView) -> int {
    if rv.calls.len() < 4 {
        (rv.start_seat + rv.calls.len()) % 4
    } else {
        (rv.tricks.last().leader + rv.tricks.last().cards.len()) % 4
    }
}

/// The round after a call is recorded: the call is appended, and when it is
/// the fourth, the first trick opens, led by the round's starting seat.
pub open spec fn spec_record_call(rv: RoundView, v: u8) -> RoundView {
    let calls2 = rv.calls.push(v);
    let tricks2 = if calls2.len() == 4 {
        seq![TrickView { leader: rv.start_seat, cards: Seq::<Card>::empty() }]
    } else {
        rv.tricks
    };
    RoundView { start_seat: rv.start_seat, hands: rv.hands, calls: calls2, tricks: tricks2 }
}

/// The round after the seat whose turn it is plays `card` (which that
/// seat's hand must contain): the first copy of the card leaves the hand
/// and joins the current trick; a trick completed by it is resolved, and a
/// new trick led by its winner opens unless all thirteen are done.
pub open spec fn spec_play(rv: RoundView, card: Card) -> RoundView {
    let t = spec_next(rv);
    let k = rv.hands[t].index_of_first(card)->0;
    let hands2 = rv.hands.update(t, rv.hands[t].remove(k));
    let lt = rv.tricks.last();
    let lt2 = TrickView { leader: lt.leader, cards: lt.cards.push(card) };
    let tricks_upd = rv.tricks.update(rv.tricks.len() - 1, lt2);
    let tricks2 = if lt2.cards.len() == 4 && rv.tricks.len() < 13 {
        tricks_upd.push(TrickView { leader: winner_seat(lt2), cards: Seq::<Card>::empty() })
    } else {
        tricks_upd
    };
    RoundView { start_seat: rv.start_seat, hands: hands2, calls: rv.calls, tricks: tricks2 }
}

/// One round of the game: the four dealt hands, the calls, and the tricks
/// played so far.
pub struct Round {
    start_seat: usize,
    hands: Vec<Vec<Card>>,
    calls: Vec<u8>,
    tricks: Vec<Trick>,
}

impl View for Round {
    type V = RoundView;

    closed spec fn view(&self) -> RoundView {
        RoundView {
            start_seat: self.start_seat as int,
            hands: hands_view(self.hands@),
            calls: self.calls@,
            tricks: tricks_view(self.tricks@),
        }
    }
}

/// The first position of `card` in `hand`, if the hand holds it.
fn find_card(hand: &Vec<Card>, card: Card) -> (r: Option<usize>)
    ensures
        r is Some <==> hand@.index_of_first(card) is Some,
        r is Some ==> hand@.index_of_first(card)->0 == r->0 as int,
        r is Some <==> hand@.contains(card),
{
    proof {
        hand@.index_of_first_ensures(card);
    }
    let mut j: usize = 0;
    while j < hand.len()
        invariant
            j <= hand@.len(),
            forall|i: int| 0 <= i < j ==> hand@[i] != card,
            hand@.index_of_first(card) matches Some(k) ==> 0 <= k < hand@.len() && hand@[k] == card
                && forall|i: int| 0 <= i < k ==> hand@[i] != card,
            hand@.index_of_first(card) is Some <==> hand@.contains(card),
        decreases hand@.len() - j,
    {
        if hand[j] == card {
            proof {
                assert(hand@.contains(card));
            }
            return Some(j);
        }
        j += 1;
    }
    proof {
        assert(!hand@.contains(card)) by {
            if hand@.contains(card) {
                let w = choose|i: int| 0 <= i < hand@.len() && hand@[i] == card;
                assert(hand@[w] != card);
            }
        }
    }
    None
}

impl Round {
    /// A fresh, undealt round: four empty hands, no calls, no tricks, led
    /// by seat 0.
    pub fn new() -> (r: Round)
        ensures
            round_wf(r@),
            r@.start_seat == 0,
            r@.hands =~= seq![
                Seq::<Card>::empty(),
                Seq::<Card>::empty(),
                Seq::<Card>::empty(),
                Seq::<Card>::empty(),
            ],
            r@.calls == Seq::<u8>::empty(),
            r@.tricks =~= Seq::<TrickView>::empty(),
    {
        let mut hands: Vec<Vec<Card>> = Vec::new();
        hands.push(Vec::new());
        hands.push(Vec::new());
        hands.push(Vec::new());
        hands.push(Vec::new());
        Round { start_seat: 0, hands, calls: Vec::new(), tricks: Vec::new() }
    }

    /// A dealt round led by `start_seat`: the deck is split into four
    /// 13-card hands in fixed seat order, no calls and no tricks yet.
    pub fn deal(start_seat: usize, deck: &Deck) -> (r: Round)
        requires
            start_seat < 4,
            deck@.len() == 52,
        ensures
            round_wf(r@),
            r@.start_seat == start_seat as int,
            r@.calls == Seq::<u8>::empty(),
            r@.tricks =~= Seq::<TrickView>::empty(),
            forall|s: int|
                0 <= s < 4 ==> #[trigger] r@.hands[s] == deck@.subrange(13 * s, 13 * s + 13),
    {
        let cards = deck.cards();
        let mut hands: Vec<Vec<Card>> = Vec::new();
        let mut s: usize = 0;
        while s < 4
            invariant
                s <= 4,
                hands@.len() == s,
                deck@.len() == 52,
                cards@ == deck@,
                forall|i: int|
                    0 <= i < s ==> #[trigger] hands@[i]@ == deck@.subrange(13 * i, 13 * i + 13),
            decreases 4 - s,
        {
            let mut hand: Vec<Card> = Vec::new();
            let mut j: usize = 0;
            while j < 13
                invariant
                    j <= 13,
                    s < 4,
                    deck@.len() == 52,
                    cards@ == deck@,
                    hand@ =~= deck@.subrange(13 * s as int, 13 * s as int + j as int),
                decreases 13 - j,
            {
                hand.push(cards[13 * s + j]);
                j += 1;
            }
            proof {
                assert(hand@ =~= deck@.subrange(13 * s as int, 13 * s as int + 13));
            }
            hands.push(hand);
            s += 1;
        }
        let r = Round { start_seat, hands, calls: Vec::new(), tricks: Vec::new() };
        proof {
            assert forall|i: int| 0 <= i < 4 implies #[trigger] r@.hands[i] == deck@.subrange(
                13 * i,
                13 * i + 13,
            ) by {
                assert(r@.hands[i] == hands@[i]@);
            }
        }
        r
    }

    /// The seat that leads the first trick of this round.
    pub fn start_seat(&self) -> (r: usize)
        ensures
            r as int == self@.start_seat,
    {
        self.start_seat
    }

    /// The calls recorded so far, in the order they were made.
    pub fn calls(&self) -> (r: &Vec<u8>)
        ensures
            r@ == self@.calls,
    {
        &self.calls
    }

    /// The hand currently held by `seat`.
    pub fn hand_at(&self, seat: usize) -> (r: &Vec<Card>)
        requires
            (seat as int) < self@.hands.len(),
        ensures
            r@ == self@.hands[seat as int],
    {
        &self.hands[seat]
    }

    /// How many tricks have been opened so far.
    pub fn trick_count(&self) -> (r: usize)
        ensures
            r as int == self@.tricks.len(),
    {
        self.tricks.len()
    }

    /// The trick at position `index` in play order.
    pub fn trick_at(&self, index: usize) -> (r: &Trick)
        requires
            (index as int) < self@.tricks.len(),
        ensures
            r@ == self@.tricks[index as int],
    {
        &self.tricks[index]
    }

    /// The phase this round is in.
    pub fn phase(&self) -> (r: State)
        requires
            round_wf(self@),
        ensures
            r == spec_phase(self@),
    {
        if self.calls.len() < 4 {
            State::Calling
        } else if self.tricks.len() == 13 && self.tricks[12].cards().len() == 4 {
            State::Complete
        } else {
            State::Playing
        }
    }

    /// The seat that won the trick at `index`: its leader advanced by the
    /// winning card's position.
    pub fn trick_winner(&self, index: usize) -> (r: usize)
        requires
            round_wf(self@),
            (index as int) < self@.tricks.len(),
            self@.tricks[index as int].cards.len() == 4,
        ensures
            r < 4,
            r as int == winner_seat(self@.tricks[index as int]),
    {
        match self.tricks[index].winner() {
            Some(w) => {
                proof {
                    lemma_winner_upto_bound(self@.tricks[index as int].cards, 4);
                }
                (self.tricks[index].leader() + w) % 4
            },
            None => {
                proof {
                    assert(false);
                }
                0
            },
        }
    }

    /// The seat to act next; the round must not be complete.
    pub fn next(&self) -> (r: usize)
        requires
            round_wf(self@),
            spec_phase(self@) != State::Complete,
        ensures
            r < 4,
            r as int == spec_next(self@),
    {
        if self.calls.len() < 4 {
            (self.start_seat + self.calls.len()) % 4
        } else {
            let last = self.tricks.len() - 1;
            (self.tricks[last].leader() + self.tricks[last].cards().len()) % 4
        }
    }

    /// Records a call made in turn. The fourth call moves the round into
    /// its playing phase, opening the first trick.
    pub fn record_call(&mut self, v: u8)
        requires
            round_wf(old(self)@),
            spec_phase(old(self)@) == State::Calling,
        ensures
            round_wf(final(self)@),
            final(self)@ == spec_record_call(old(self)@, v),
    {
        let ghost target = spec_record_call(old(self)@, v);
        self.calls.push(v);
        if self.calls.len() == 4 {
            self.tricks.push(Trick::new(self.start_seat));
        }
        proof {
            assert(tricks_view(self.tricks@) =~~= target.tricks);
            assert(self@ == target);
        }
    }

    /// Plays `card` for the seat whose turn it is. Accepted exactly when
    /// that seat's hand holds the card; the card then moves from the hand
    /// to the current trick, and a trick completed by it is resolved, the
    /// next trick opening with its winner in the lead unless the round is
    /// over.
    pub fn playcard(&mut self, card: Card) -> (r: Result<(), GameError>)
        requires
            round_wf(old(self)@),
            spec_phase(old(self)@) == State::Playing,
        ensures
            round_wf(final(self)@),
            r is Ok <==> old(self)@.hands[spec_next(old(self)@)].contains(card),
            r is Ok ==> final(self)@ == spec_play(old(self)@, card),
            r is Err ==> final(self)@ == old(self)@ && r == Err::<(), GameError>(
                GameError::CardNotInHand,
            ),
    {
        let ghost rv = old(self)@;
        let t = self.next();
        proof {
            rv.hands[t as int].index_of_first_ensures(card);
            assert(rv.hands[t as int] == self.hands@[t as int]@);
        }
        match find_card(&self.hands[t], card) {
            None => Err(GameError::CardNotInHand),
            Some(k) => {
                let ghost target = spec_play(rv, card);
                // Move the card from the acting seat's hand ...
                let mut hand = self.hands.remove(t);
                hand.remove(k);
                let ghost new_hand = hand@;
                self.hands.insert(t, hand);
                proof {
                    assert(new_hand == rv.hands[t as int].remove(k as int));
                    assert(self.hands@ =~= old(self).hands@.update(t as int, self.hands@[t as int]));
                    assert forall|i: int| 0 <= i < 4 implies hands_view(self.hands@)[i]
                        == target.hands[i] by {
                        if i == t as int {
                            assert(hands_view(self.hands@)[i] == new_hand);
                        } else {
                            assert(self.hands@[i] == old(self).hands@[i]);
                        }
                    }
                    assert(hands_view(self.hands@) =~~= target.hands);
                }
                // ... onto the current trick.
                let ghost lt2 = TrickView {
                    leader: rv.tricks.last().leader,
                    cards: rv.tricks.last().cards.push(card),
                };
                let mut lt = match self.tricks.pop() {
                    Some(x) => x,
                    None => {
                        proof {
                            assert(false);
                        }
                        Trick::new(0)
                    },
                };
                lt.push_card(card);
                proof {
                    assert(lt@ == lt2);
                }
                if lt.cards().len() == 4 {
                    // The trick is complete: resolve it, and open the next
                    // one unless all thirteen have been played.
                    let w = match lt.winner() {
                        Some(w) => w,
                        None => {
                            proof {
                                assert(false);
                            }
                            0
                        },
                    };
                    proof {
                        lemma_winner_upto_bound(lt2.cards, 4);
                    }
                    let next_leader = (lt.leader() + w) % 4;
                    self.tricks.push(lt);
                    if self.tricks.len() < 13 {
                        self.tricks.push(Trick::new(next_leader));
                    }
                    proof {
                        assert(tricks_view(self.tricks@) =~~= target.tricks);
                    }
                } else {
                    self.tricks.push(lt);
                    proof {
                        assert(tricks_view(self.tricks@) =~~= target.tricks);
                    }
                }
                proof {
                    lemma_play_preserves_wf(rv, card);
                    assert(self@ == target);
                }
                Ok(())
            },
        }
    }

    /// Decides well-formedness at run time, as required when a round comes
    /// back from the persistence layer rather than from the engine itself.
    pub fn is_well_formed(&self) -> (r: bool)
        ensures
            r == round_wf(self@),
    {
        let ghost rv = self@;
        if self.start_seat >= 4 {
            return false;
        }
        if self.hands.len() != 4 {
            return false;
        }
        if self.calls.len() > 4 {
            return false;
        }
        if self.tricks.len() > 13 {
            return false;
        }
        if self.calls.len() < 4 && self.tricks.len() != 0 {
            return false;
        }
        if self.calls.len() == 4 && self.tricks.len() == 0 {
            return false;
        }
        let n = self.tricks.len();
        let mut i: usize = 0;
        while i < n
            invariant
                rv == self@,
                i <= n,
                n == self.tricks@.len(),
                n <= 13,
                0 <= rv.start_seat < 4,
                forall|k: int| 0 <= k < i ==> trick_wf(#[trigger] rv.tricks[k]),
                forall|k: int| 0 <= k < i && k < n - 1 ==> (#[trigger] rv.tricks[k]).cards.len()
                    == 4,
                i >= 1 ==> rv.tricks[0].leader == rv.start_seat,
                forall|k: int|
                    1 <= k < i ==> (#[trigger] rv.tricks[k]).leader == winner_seat(
                        rv.tricks[k - 1],
                    ),
            decreases n - i,
        {
            proof {
                assert(rv.tricks[i as int] == self.tricks@[i as int]@);
            }
            let t = &self.tricks[i];
            if t.leader() >= 4 || t.cards().len() > 4 {
                return false;
            }
            if i < n - 1 && t.cards().len() != 4 {
                return false;
            }
            if i == 0 {
                if t.leader() != self.start_seat {
                    return false;
                }
            } else {
                proof {
                    assert(rv.tricks[i as int - 1] == self.tricks@[i as int - 1]@);
                }
                let prev = &self.tricks[i - 1];
                match prev.winner() {
                    None => {
                        proof {
                            assert(false);
                        }
                        return false;
                    },
                    Some(w) => {
                        proof {
                            lemma_winner_upto_bound(rv.tricks[i as int - 1].cards, 4);
                        }
                        if t.leader() != (prev.leader() + w) % 4 {
                            return false;
                        }
                    },
                }
            }
            i += 1;
        }
        if n >= 1 {
            proof {
                assert(rv.tricks[n as int - 1] == self.tricks@[n as int - 1]@);
            }
            if self.tricks[n - 1].cards().len() == 4 && n != 13 {
                return false;
            }
        }
        true
    }

    /// A round from stored parts, as the persistence layer hands them back;
    /// accepted exactly when they form a well-formed round.
    pub fn from_parts(start_seat: usize, hands: Vec<Vec<Card>>, calls: Vec<u8>, tricks: Vec<
        Trick,
    >) -> (r: Option<Round>)
        ensures
            ({
                let rv = RoundView {
                    start_seat: start_seat as int,
                    hands: hands_view(hands@),
                    calls: calls@,
                    tricks: tricks_view(tricks@),
                };
                &&& r is Some <==> round_wf(rv)
                &&& r is Some ==> r->0@ == rv
            }),
    {
        let candidate = Round { start_seat, hands, calls, tricks };
        if candidate.is_well_formed() {
            Some(candidate)
        } else {
            None
        }
    }

    /// An identical copy of this round.
    pub fn duplicate(&self) -> (r: Round)
        requires
            round_wf(self@),
        ensures
            r@ == self@,
    {
        let mut hands: Vec<Vec<Card>> = Vec::new();
        let mut s: usize = 0;
        while s < self.hands.len()
            invariant
                s <= self.hands@.len(),
                hands@.len() == s,
                forall|i: int| 0 <= i < s ==> #[trigger] hands@[i]@ == self.hands@[i]@,
            decreases self.hands@.len() - s,
        {
            let mut hand: Vec<Card> = Vec::new();
            let src = &self.hands[s];
            let mut j: usize = 0;
            while j < src.len()
                invariant
                    j <= src@.len(),
                    hand@ =~= src@.subrange(0, j as int),
                decreases src@.len() - j,
            {
                hand.push(src[j]);
                j += 1;
            }
            proof {
                assert(hand@ =~= src@);
            }
            hands.push(hand);
            s += 1;
        }
        let mut calls: Vec<u8> = Vec::new();
        let mut c: usize = 0;
        while c < self.calls.len()
            invariant
                c <= self.calls@.len(),
                calls@ =~= self.calls@.subrange(0, c as int),
            decreases self.calls@.len() - c,
        {
            calls.push(self.calls[c]);
            c += 1;
        }
        let mut tricks: Vec<Trick> = Vec::new();
        let mut i: usize = 0;
        while i < self.tricks.len()
            invariant
                i <= self.tricks@.len(),
                tricks@.len() == i,
                round_wf(self@),
                forall|j: int| 0 <= j < i ==> #[trigger] tricks@[j]@ == self.tricks@[j]@,
            decreases self.tricks@.len() - i,
        {
            let src = &self.tricks[i];
            let mut cs: Vec<Card> = Vec::new();
            let mut j: usize = 0;
            let n = src.cards().len();
            while j < n
                invariant
                    j <= n,
                    n == src@.cards.len(),
                    cs@ =~= src@.cards.subrange(0, j as int),
                decreases n - j,
            {
                cs.push(src.cards()[j]);
                j += 1;
            }
            proof {
                assert(cs@ =~= src@.cards);
                assert(trick_wf(self@.tricks[i as int]));
                assert(src@ == self@.tricks[i as int]);
            }
            let twin = match Trick::from_parts(src.leader(), cs) {
                Some(x) => x,
                None => {
                    proof {
                        assert(false);
                    }
                    Trick::new(0)
                },
            };
            tricks.push(twin);
            i += 1;
        }
        let r = Round { start_seat: self.start_seat, hands, calls, tricks };
        proof {
            assert(calls@ =~= self.calls@);
            assert(hands_view(r.hands@) =~~= self@.hands);
            assert(tricks_view(r.tricks@) =~~= self@.tricks);
            assert(r@ == self@);
        }
        r
    }
}

/// Playing a held card in a round in its playing phase keeps the round
/// well formed.
proof fn lemma_play_preserves_wf(rv: RoundView, card: Card)
    requires
        round_wf(rv),
        spec_phase(rv) == State::Playing,
        rv.hands[spec_next(rv)].contains(card),
    ensures
        round_wf(spec_play(rv, card)),
{
    let rv2 = spec_play(rv, card);
    let t = spec_next(rv);
    rv.hands[t].index_of_first_ensures(card);
    let n = rv.tricks.len() as int;
    let lt2 = TrickView {
        leader: rv.tricks.last().leader,
        cards: rv.tricks.last().cards.push(card),
    };
    if lt2.cards.len() == 4 && n < 13 {
        lemma_winner_upto_bound(lt2.cards, 4);
        assert(rv2.tricks.len() == n + 1);
        assert(rv2.tricks[n - 1] == lt2);
        assert forall|i: int| 0 <= i < rv2.tricks.len() implies trick_wf(
            #[trigger] rv2.tricks[i],
        ) by {
            if i < n - 1 {
                assert(rv2.tricks[i] == rv.tricks[i]);
            }
        }
        assert forall|i: int| 1 <= i < rv2.tricks.len() implies (#[trigger] rv2.tricks[i]).leader
            == winner_seat(rv2.tricks[i - 1]) by {
            if i < n - 1 {
                assert(rv2.tricks[i] == rv.tricks[i]);
                assert(rv2.tricks[i - 1] == rv.tricks[i - 1]);
            } else if i == n - 1 && i >= 1 {
                assert(rv2.tricks[i - 1] == rv.tricks[i - 1]);
                assert(rv.tricks[i].leader == winner_seat(rv.tricks[i - 1]));
            }
        }
    } else {
        assert(rv2.tricks.len() == n);
        assert forall|i: int| 0 <= i < rv2.tricks.len() implies trick_wf(
            #[trigger] rv2.tricks[i],
        ) by {
            if i < n - 1 {
                assert(rv2.tricks[i] == rv.tricks[i]);
            }
        }
        assert forall|i: int| 1 <= i < rv2.tricks.len() implies (#[trigger] rv2.tricks[i]).leader
            == winner_seat(rv2.tricks[i - 1]) by {
            if i < n - 1 {
                assert(rv2.tricks[i] == rv.tricks[i]);
                assert(rv2.tricks[i - 1] == rv.tricks[i - 1]);
            } else {
                assert(rv2.tricks[i - 1] == rv.tricks[i - 1]);
                assert(rv.tricks[i].leader == winner_seat(rv.tricks[i - 1]));
            }
        }
    }
}

} // verus!
