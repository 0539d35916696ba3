//! The card model: ranks, suits, cards, and the 52-card deck.

use vstd::prelude::*;
use vstd::seq_lib::lemma_multiset_commutative;
use rand::seq::SliceRandom;

verus! {

/// The thirteen ranks, 2 low, Ace high.
#[derive(Clone, Copy, PartialEq, Eq, Structural, Debug)]
pub enum Rank {
    Two,
    Three,
    Four,
    Five,
    Six,
    Seven,
    Eight,
    Nine,
    Ten,
    Jack,
    Queen,
    King,
    Ace,
}

/// The numeric strength of a rank on the standard 13-rank ladder.
pub open spec fn rank_value(r: Rank) -> int {
    match r {
        Rank::Two => 2,
        Rank::Three => 3,
        Rank::Four => 4,
        Rank::Five => 5,
        Rank::Six => 6,
        Rank::Seven => 7,
        Rank::Eight => 8,
        Rank::Nine => 9,
        Rank::Ten => 10,
        Rank::Jack => 11,
        Rank::Queen => 12,
        Rank::King => 13,
        Rank::Ace => 14,
    }
}

/// The rank of strength `v + 2`, for `v` in `0..13`.
pub open spec fn rank_from_index(v: int) -> Rank {
    if v == 0 {
        Rank::Two
    } else if v == 1 {
        Rank::Three
    } else if v == 2 {
        Rank::Four
    } else if v == 3 {
        Rank::Five
    } else if v == 4 {
        Rank::Six
    } else if v == 5 {
        Rank::Seven
    } else if v == 6 {
        Rank::Eight
    } else if v == 7 {
        Rank::Nine
    } else if v == 8 {
        Rank::Ten
    } else if v == 9 {
        Rank::Jack
    } else if v == 10 {
        Rank::Queen
    } else if v == 11 {
        Rank::King
    } else {
        Rank::Ace
    }
}

/// All thirteen ranks, weakest first.
pub open spec fn all_ranks() -> Seq<Rank> {
    Seq::new(13, |i: int| rank_from_index(i))
}

impl Rank {
    /// The numeric strength of this rank, 2 for `Two` up to 14 for `Ace`.
    pub fn value(&self) -> (v: u8)
        ensures
            v as int == rank_value(*self),
    {
        match self {
            Rank::Two => 2,
            Rank::Three => 3,
            Rank::Four => 4,
            Rank::Five => 5,
            Rank::Six => 6,
            Rank::Seven => 7,
            Rank::Eight => 8,
            Rank::Nine => 9,
            Rank::Ten => 10,
            Rank::Jack => 11,
            Rank::Queen => 12,
            Rank::King => 13,
            Rank::Ace => 14,
        }
    }

    /// All thirteen ranks, weakest first.
    pub fn all() -> (r: Vec<Rank>)
        ensures
            r@ == all_ranks(),
    {
        let ranks = vec![
            Rank::Two,
            Rank::Three,
            Rank::Four,
            Rank::Five,
            Rank::Six,
            Rank::Seven,
            Rank::Eight,
            Rank::Nine,
            Rank::Ten,
            Rank::Jack,
            Rank::Queen,
            Rank::King,
            Rank::Ace,
        ];
        proof {
            assert(ranks@ =~= all_ranks());
        }
        ranks
    }
}

/// The four suits. Spades dominate the other suits regardless of rank.
#[derive(Clone, Copy, PartialEq, Eq, Structural, Debug)]
pub enum Suit {
    Clubs,
    Diamonds,
    Hearts,
    Spades,
}

/// The suit at position `v` of the fixed suit order, for `v` in `0..4`.
pub open spec fn suit_from_index(v: int) -> Suit {
    if v == 0 {
        Suit::Clubs
    } else if v == 1 {
        Suit::Diamonds
    } else if v == 2 {
        Suit::Hearts
    } else {
        Suit::Spades
    }
}

/// All four suits in the fixed suit order.
pub open spec fn all_suits() -> Seq<Suit> {
    Seq::new(4, |i: int| suit_from_index(i))
}

impl Suit {
    /// All four suits in the fixed suit order.
    pub fn all() -> (r: Vec<Suit>)
        ensures
            r@ == all_suits(),
    {
        let suits = vec![Suit::Clubs, Suit::Diamonds, Suit::Hearts, Suit::Spades];
        proof {
            assert(suits@ =~= all_suits());
        }
        suits
    }
}

/// One playing card: a rank and a suit. An immutable value; a given
/// rank-and-suit pair occurs exactly once in a deck.
#[derive(Clone, Copy, PartialEq, Eq, Structural, Debug)]
pub struct Card {
    pub rank: Rank,
    pub suit: Suit,
}

/// The card at position `i` of the fixed deck order, for `i` in `0..52`:
/// ranks in the outer position, suits in the inner one.
pub open spec fn card_from_index(i: int) -> Card {
    Card { rank: rank_from_index(i / 4), suit: suit_from_index(i % 4) }
}

/// The full 52-card deck in the fixed deck order: each rank-and-suit pair
/// exactly once.
pub open spec fn full_deck() -> Seq<Card> {
    Seq::new(52, |i: int| card_from_index(i))
}

/// Distinct positions of the fixed deck order hold distinct cards.
pub proof fn lemma_card_from_index_injective(i: int, j: int)
    requires
        0 <= i < 52,
        0 <= j < 52,
        card_from_index(i) == card_from_index(j),
    ensures
        i == j,
{
    assert(rank_from_index(i / 4) == rank_from_index(j / 4));
    assert(suit_from_index(i % 4) == suit_from_index(j % 4));
    assert(i / 4 == j / 4);
    assert(i % 4 == j % 4);
}

/// The full deck holds no card twice.
pub proof fn lemma_full_deck_no_duplicates()
    ensures
        full_deck().no_duplicates(),
{
    assert forall|i: int, j: int|
        0 <= i < full_deck().len() && 0 <= j < full_deck().len() && i != j implies full_deck()[i]
        != full_deck()[j] by {
        if full_deck()[i] == full_deck()[j] {
            lemma_card_from_index_injective(i, j);
        }
    }
}

/// The card at position `i` of the fixed deck order.
fn card_at_index(i: usize) -> (c: Card)
    requires
        i < 52,
    ensures
        c == card_from_index(i as int),
{
    let rank_idx: usize = i / 4;
    let suit_idx: usize = i % 4;
    let rank = match rank_idx {
        0 => Rank::Two,
        1 => Rank::Three,
        2 => Rank::Four,
        3 => Rank::Five,
        4 => Rank::Six,
        5 => Rank::Seven,
        6 => Rank::Eight,
        7 => Rank::Nine,
        8 => Rank::Ten,
        9 => Rank::Jack,
        10 => Rank::Queen,
        11 => Rank::King,
        _ => Rank::Ace,
    };
    let suit = match suit_idx {
        0 => Suit::Clubs,
        1 => Suit::Diamonds,
        2 => Suit::Hearts,
        _ => Suit::Spades,
    };
    Card { rank, suit }
}

/// A deck of cards as dealt for one round: a random permutation of the
/// full 52-card deck.
pub struct Deck {
    cards: Vec<Card>,
}

/// Relies on rand's `SliceRandom::shuffle` (rand 0.8), which permutes the
/// slice in place by element swaps, adding and removing nothing.
#[verifier::external_body]
fn shuffle_cards(cards: &mut Vec<Card>)
    ensures
        final(cards)@.to_multiset() == old(cards)@.to_multiset(),
        final(cards)@.len() == old(cards)@.len(),
{
    cards.shuffle(&mut rand::thread_rng());
}

impl Deck {
    /// The cards of this deck in their current order.
    pub closed spec fn view(&self) -> Seq<Card> {
        self.cards@
    }

    /// Builds a fresh deck: the 52 distinct cards in a random order.
    /// Two calls yield independent permutations.
    pub fn new() -> (d: Deck)
        ensures
            d@.len() == 52,
            d@.to_multiset() == full_deck().to_multiset(),
            d@.no_duplicates(),
    {
        let mut cards: Vec<Card> = Vec::new();
        let mut i: usize = 0;
        while i < 52
            invariant
                i <= 52,
                cards@ =~= full_deck().subrange(0, i as int),
            decreases 52 - i,
        {
            cards.push(card_at_index(i));
            i += 1;
        }
        proof {
            assert(cards@ =~= full_deck());
        }
        shuffle_cards(&mut cards);
        proof {
            lemma_full_deck_no_duplicates();
            full_deck().lemma_multiset_has_no_duplicates();
            cards@.lemma_multiset_has_no_duplicates_conv();
        }
        Deck { cards }
    }

    /// The cards of the deck, in their shuffled order.
    pub fn cards(&self) -> (r: &Vec<Card>)
        ensures
            r@ == self@,
    {
        &self.cards
    }
}

/// Four hands whose multisets add up to the full deck are a true partition
/// of it: no hand holds a card twice, and no card sits in two hands.
pub proof fn lemma_deal_is_a_partition(h0: Seq<Card>, h1: Seq<Card>, h2: Seq<Card>, h3: Seq<Card>)
    requires
        h0.to_multiset().add(h1.to_multiset()).add(h2.to_multiset()).add(h3.to_multiset())
            == full_deck().to_multiset(),
    ensures
        h0.no_duplicates(),
        h1.no_duplicates(),
        h2.no_duplicates(),
        h3.no_duplicates(),
        forall|c: Card| #![trigger h0.contains(c), h1.contains(c)] !(h0.contains(c) && h1.contains(c)),
        forall|c: Card| #![trigger h0.contains(c), h2.contains(c)] !(h0.contains(c) && h2.contains(c)),
        forall|c: Card| #![trigger h0.contains(c), h3.contains(c)] !(h0.contains(c) && h3.contains(c)),
        forall|c: Card| #![trigger h1.contains(c), h2.contains(c)] !(h1.contains(c) && h2.contains(c)),
        forall|c: Card| #![trigger h1.contains(c), h3.contains(c)] !(h1.contains(c) && h3.contains(c)),
        forall|c: Card| #![trigger h2.contains(c), h3.contains(c)] !(h2.contains(c) && h3.contains(c)),
{
    broadcast use vstd::seq_lib::group_to_multiset_ensures;
    broadcast use vstd::multiset::group_multiset_axioms;

    lemma_full_deck_no_duplicates();
    full_deck().lemma_multiset_has_no_duplicates();
    let m = full_deck().to_multiset();
    assert forall|c: Card|
        h0.to_multiset().count(c) + h1.to_multiset().count(c) + h2.to_multiset().count(c)
            + h3.to_multiset().count(c) <= 1 by {
        if m.count(c) > 0 {
            assert(m.contains(c));
        }
    }
    assert forall|c: Card| h0.to_multiset().contains(c) implies h0.to_multiset().count(c)
        == 1 by {}
    h0.lemma_multiset_has_no_duplicates_conv();
    assert forall|c: Card| h1.to_multiset().contains(c) implies h1.to_multiset().count(c)
        == 1 by {}
    h1.lemma_multiset_has_no_duplicates_conv();
    assert forall|c: Card| h2.to_multiset().contains(c) implies h2.to_multiset().count(c)
        == 1 by {}
    h2.lemma_multiset_has_no_duplicates_conv();
    assert forall|c: Card| h3.to_multiset().contains(c) implies h3.to_multiset().count(c)
        == 1 by {}
    h3.lemma_multiset_has_no_duplicates_conv();
    assert forall|c: Card|
        (h0.contains(c) ==> h0.to_multiset().count(c) > 0) && (h1.contains(c)
            ==> h1.to_multiset().count(c) > 0) && (h2.contains(c) ==> h2.to_multiset().count(c)
            > 0) && (h3.contains(c) ==> h3.to_multiset().count(c) > 0) by {}
}

/// Splitting a 52-card sequence into its four 13-card quarters loses and
/// invents nothing: the quarters' multisets add up to the whole.
pub proof fn lemma_quarters_partition(s: Seq<Card>)
    requires
        s.len() == 52,
    ensures
        s.to_multiset() == s.subrange(0, 13).to_multiset().add(
            s.subrange(13, 26).to_multiset(),
        ).add(s.subrange(26, 39).to_multiset()).add(s.subrange(39, 52).to_multiset()),
{
    let q0 = s.subrange(0, 13);
    let q1 = s.subrange(13, 26);
    let q2 = s.subrange(26, 39);
    let q3 = s.subrange(39, 52);
    assert(s =~= ((q0 + q1) + q2) + q3);
    lemma_multiset_commutative((q0 + q1) + q2, q3);
    lemma_multiset_commutative(q0 + q1, q2);
    lemma_multiset_commutative(q0, q1);
}

} // verus!
