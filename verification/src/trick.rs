//! The trick engine: a trick accumulates up to four played cards, one per
//! seat in turn order, and is resolved to exactly one winning card once it
//! holds four.

use vstd::prelude::*;
use crate::cards::Card;
use crate::cards::Suit;
use crate::cards::rank_value;

verus! {

/// Whether the card `c`, played after the current best card `best` of a
/// trick led in suit `led`, takes the lead from it. A spade outranks every
/// non-spade; within one suit the higher rank wins; between two distinct
/// non-spade suits only a card of the led suit can take the lead.
pub open spec fn beats(c: Card, best: Card, led: Suit) -> bool {
    if c.suit == best.suit {
        rank_value(c.rank) > rank_value(best.rank)
    } else if c.suit == Suit::Spades {
        true
    } else if best.suit == Suit::Spades {
        false
    } else {
        c.suit == led
    }
}

/// The position of the winning card among the first `n` cards of a trick:
/// the fold of `beats` over the cards in play order, starting from the led
/// card.
pub open spec fn winner_upto(cards: Seq<Card>, n: int) -> int
    decreases n,
{
    if n <= 1 {
        0
    } else {
        let w = winner_upto(cards, n - 1);
        if beats(cards[n - 1], cards[w], cards[0].suit) {
            n - 1
        } else {
            w
        }
    }
}

/// The position, in play order, of the card that wins the trick.
pub open spec fn winning_index(cards: Seq<Card>) -> int {
    winner_upto(cards, cards.len() as int)
}

/// The winning position among the first `n` cards is one of those positions.
pub proof fn lemma_winner_upto_bound(cards: Seq<Card>, n: int)
    requires
        1 <= n,
    ensures
        0 <= winner_upto(cards, n) < n,
    decreases n,
{
    if n > 1 {
        lemma_winner_upto_bound(cards, n - 1);
    }
}

proof fn lemma_winner_upto_lone_spade(cards: Seq<Card>, i: int, n: int)
    requires
        0 <= i < cards.len(),
        1 <= n <= cards.len(),
        cards[i].suit == Suit::Spades,
        forall|j: int| 0 <= j < cards.len() && j != i ==> cards[j].suit != Suit::Spades,
    ensures
        n > i ==> winner_upto(cards, n) == i,
        n <= i ==> cards[winner_upto(cards, n)].suit != Suit::Spades,
    decreases n,
{
    lemma_winner_upto_bound(cards, n);
    if n > 1 {
        lemma_winner_upto_lone_spade(cards, i, n - 1);
        lemma_winner_upto_bound(cards, n - 1);
    }
}

/// A trick that holds exactly one spade is won by that spade, whatever the
/// ranks and whatever the other suits played.
pub proof fn lemma_lone_spade_wins(cards: Seq<Card>, i: int)
    requires
        cards.len() == 4,
        0 <= i < 4,
        cards[i].suit == Suit::Spades,
        forall|j: int| 0 <= j < 4 && j != i ==> cards[j].suit != Suit::Spades,
    ensures
        winning_index(cards) == i,
{
    lemma_winner_upto_lone_spade(cards, i, 4);
}

proof fn lemma_winner_upto_no_spades(cards: Seq<Card>, n: int)
    requires
        1 <= n <= cards.len(),
        forall|j: int| 0 <= j < cards.len() ==> cards[j].suit != Suit::Spades,
    ensures
        0 <= winner_upto(cards, n) < n,
        cards[winner_upto(cards, n)].suit == cards[0].suit,
        forall|j: int|
            0 <= j < n && (#[trigger] cards[j]).suit == cards[0].suit ==> rank_value(cards[j].rank)
                <= rank_value(cards[winner_upto(cards, n)].rank),
    decreases n,
{
    if n > 1 {
        lemma_winner_upto_no_spades(cards, n - 1);
    }
}

/// A trick with no spades is won by the highest-ranked card among those
/// matching the suit of the first card played.
pub proof fn lemma_no_spades_led_suit_wins(cards: Seq<Card>)
    requires
        cards.len() == 4,
        forall|j: int| 0 <= j < 4 ==> cards[j].suit != Suit::Spades,
    ensures
        ({
            let w = winning_index(cards);
            &&& 0 <= w < 4
            &&& cards[w].suit == cards[0].suit
            &&& forall|j: int|
                0 <= j < 4 && (#[trigger] cards[j]).suit == cards[0].suit ==> rank_value(
                    cards[j].rank,
                ) <= rank_value(cards[w].rank)
        }),
{
    lemma_winner_upto_no_spades(cards, 4);
}

/// The mathematical content of a trick: the seat that led it and the cards
/// played so far, in play order.
#[verifier::ext_equal]
pub ghost struct TrickView {
    pub leader: int,
    pub cards: Seq<Card>,
}

/// A well-formed trick: led by one of the four seats, and holding at most
/// one card per seat.
pub open spec fn trick_wf(tv: TrickView) -> bool {
    &&& 0 <= tv.leader < 4
    &&& tv.cards.len() <= 4
}

/// The seat that wins a complete trick: the leader's seat advanced by the
/// winning card's position in play order.
pub open spec fn winner_seat(tv: TrickView) -> int {
    (tv.leader + winning_index(tv.cards)) % 4
}

/// An ordered sequence of up to four played cards, one per seat in turn
/// order starting from the seat that led the trick.
pub struct Trick {
    leader: usize,
    cards: Vec<Card>,
}

impl View for Trick {
    type V = TrickView;

    closed spec fn view(&self) -> TrickView {
        TrickView { leader: self.leader as int, cards: self.cards@ }
    }
}

/// Whether `c` takes the lead from the current best card `best` of a trick
/// led in suit `led`.
fn card_beats(c: &Card, best: &Card, led: Suit) -> (r: bool)
    ensures
        r == beats(*c, *best, led),
{
    if c.suit == best.suit {
        c.rank.value() > best.rank.value()
    } else if c.suit == Suit::Spades {
        true
    } else if best.suit == Suit::Spades {
        false
    } else {
        c.suit == led
    }
}

impl Trick {
    /// An empty trick about to be led by `leader`.
    pub fn new(leader: usize) -> (t: Trick)
        requires
            leader < 4,
        ensures
            t@.leader == leader as int,
            t@.cards == Seq::<Card>::empty(),
    {
        let t = Trick { leader, cards: Vec::new() };
        proof {
            assert(t@.cards =~= Seq::<Card>::empty());
        }
        t
    }

    /// A trick from stored parts, as the persistence layer hands them back;
    /// accepted exactly when they are well formed.
    pub fn from_parts(leader: usize, cards: Vec<Card>) -> (r: Option<Trick>)
        ensures
            r is Some <==> trick_wf(TrickView { leader: leader as int, cards: cards@ }),
            r is Some ==> r->0@ == (TrickView { leader: leader as int, cards: cards@ }),
    {
        if leader < 4 && cards.len() <= 4 {
            Some(Trick { leader, cards })
        } else {
            None
        }
    }

    /// The seat that led (or is about to lead) this trick.
    pub fn leader(&self) -> (r: usize)
        ensures
            r as int == self@.leader,
    {
        self.leader
    }

    /// The cards played to this trick so far, in play order.
    pub fn cards(&self) -> (r: &Vec<Card>)
        ensures
            r@ == self@.cards,
    {
        &self.cards
    }

    /// How many cards have been played to this trick: the offset from the
    /// leader of the seat to act next.
    pub fn next(&self) -> (r: usize)
        ensures
            r == self@.cards.len(),
    {
        self.cards.len()
    }

    /// Appends the next played card in turn order.
    pub fn push_card(&mut self, c: Card)
        requires
            old(self)@.cards.len() < 4,
        ensures
            final(self)@.leader == old(self)@.leader,
            final(self)@.cards == old(self)@.cards.push(c),
    {
        self.cards.push(c);
    }

    /// Resolves the trick: the position, in play order, of the winning card.
    /// A trick has a winner exactly when it is complete, that is, holds four
    /// cards.
    pub fn winner(&self) -> (r: Option<usize>)
        ensures
            r is Some <==> self@.cards.len() == 4,
            r is Some ==> r->0 as int == winning_index(self@.cards),
    {
        if self.cards.len() != 4 {
            return None;
        }
        let ghost cs = self@.cards;
        let mut w: usize = 0;
        let mut i: usize = 1;
        while i < 4
            invariant
                self@.cards == cs,
                cs.len() == 4,
                1 <= i <= 4,
                w < i,
                w as int == winner_upto(cs, i as int),
            decreases 4 - i,
        {
            if card_beats(&self.cards[i], &self.cards[w], self.cards[0].suit) {
                w = i;
            }
            i += 1;
        }
        Some(w)
    }
}

} // verus!
