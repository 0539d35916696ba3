use callbreak::Card;
use callbreak::Deck;
use callbreak::Rank;
use callbreak::Suit;
use callbreak::trick::Trick;

fn card(rank: Rank, suit: Suit) -> Card {
    Card { rank, suit }
}

fn suit_no(s: Suit) -> u8 {
    match s {
        Suit::Clubs => 0,
        Suit::Diamonds => 1,
        Suit::Hearts => 2,
        Suit::Spades => 3,
    }
}

#[test]
fn all_ranks_has_thirteen_in_order() {
    let ranks = Rank::all();
    assert_eq!(ranks.len(), 13);
    for (i, r) in ranks.iter().enumerate() {
        assert_eq!(r.value() as usize, i + 2);
    }
}

#[test]
fn all_suits_has_four() {
    let suits = Suit::all();
    assert_eq!(suits.len(), 4);
    assert_eq!(suits[0], Suit::Clubs);
    assert_eq!(suits[3], Suit::Spades);
}

#[test]
fn deck_has_52_distinct_cards() {
    let deck = Deck::new();
    let mut keys: Vec<(u8, u8)> = deck
        .cards()
        .iter()
        .map(|c| (c.rank.value(), suit_no(c.suit)))
        .collect();
    assert_eq!(keys.len(), 52);
    keys.sort();
    keys.dedup();
    assert_eq!(keys.len(), 52);
}

#[test]
fn two_decks_are_independent_permutations_of_the_same_cards() {
    let a = Deck::new();
    let b = Deck::new();
    let mut ka: Vec<(u8, u8)> = a.cards().iter().map(|c| (c.rank.value(), suit_no(c.suit))).collect();
    let mut kb: Vec<(u8, u8)> = b.cards().iter().map(|c| (c.rank.value(), suit_no(c.suit))).collect();
    ka.sort();
    kb.sort();
    assert_eq!(ka, kb);
}

#[test]
fn lone_spade_wins_regardless_of_rank() {
    let t = Trick::from_parts(
        0,
        vec![
            card(Rank::Ace, Suit::Hearts),
            card(Rank::Two, Suit::Spades),
            card(Rank::King, Suit::Hearts),
            card(Rank::Queen, Suit::Hearts),
        ],
    )
    .unwrap();
    assert_eq!(t.winner(), Some(1));
}

#[test]
fn lone_spade_wins_from_any_position() {
    for i in 0..4 {
        let mut cards = vec![
            card(Rank::Ace, Suit::Diamonds),
            card(Rank::King, Suit::Diamonds),
            card(Rank::Queen, Suit::Diamonds),
            card(Rank::Jack, Suit::Diamonds),
        ];
        cards[i] = card(Rank::Three, Suit::Spades);
        let t = Trick::from_parts(2, cards).unwrap();
        assert_eq!(t.winner(), Some(i));
    }
}

#[test]
fn no_spades_highest_of_led_suit_wins() {
    let t = Trick::from_parts(
        0,
        vec![
            card(Rank::Ten, Suit::Hearts),
            card(Rank::Ace, Suit::Clubs),
            card(Rank::King, Suit::Hearts),
            card(Rank::Two, Suit::Diamonds),
        ],
    )
    .unwrap();
    // No spades: the ace of clubs does not follow the led suit, so the
    // king of hearts takes the trick.
    assert_eq!(t.winner(), Some(2));
}

#[test]
fn higher_spade_beats_lower_spade() {
    let t = Trick::from_parts(
        1,
        vec![
            card(Rank::Two, Suit::Spades),
            card(Rank::Ace, Suit::Hearts),
            card(Rank::Five, Suit::Spades),
            card(Rank::Three, Suit::Spades),
        ],
    )
    .unwrap();
    assert_eq!(t.winner(), Some(2));
}

#[test]
fn incomplete_trick_has_no_winner() {
    let mut t = Trick::new(0);
    assert_eq!(t.winner(), None);
    t.push_card(card(Rank::Ace, Suit::Spades));
    assert_eq!(t.winner(), None);
    assert_eq!(t.next(), 1);
}

#[test]
fn from_parts_rejects_bad_leader_or_overfull_trick() {
    assert!(Trick::from_parts(4, vec![]).is_none());
    let five = vec![
        card(Rank::Two, Suit::Clubs),
        card(Rank::Three, Suit::Clubs),
        card(Rank::Four, Suit::Clubs),
        card(Rank::Five, Suit::Clubs),
        card(Rank::Six, Suit::Clubs),
    ];
    assert!(Trick::from_parts(0, five).is_none());
}
