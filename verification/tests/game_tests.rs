use callbreak::Card;
use callbreak::Game;
use callbreak::GameError;
use callbreak::State;
use callbreak::round::Round;
use callbreak::trick::Trick;

fn seat_four(g: &mut Game) {
    for id in ["alice1", "bob22", "carol3", "dave44"] {
        g.add_player(&id.to_string()).unwrap();
    }
}

fn card_key(c: &Card) -> (u8, u8) {
    let s = match c.suit {
        callbreak::Suit::Clubs => 0,
        callbreak::Suit::Diamonds => 1,
        callbreak::Suit::Hearts => 2,
        callbreak::Suit::Spades => 3,
    };
    (c.rank.value(), s)
}

/// Makes the four calls of the current round, each from the seat whose
/// turn it is.
fn make_calls(g: &mut Game) {
    for _ in 0..4 {
        let t = g.current_turn_seat().unwrap();
        let player = g.player_id(t).clone();
        g.call(&player, 3).unwrap();
    }
}

/// Plays the current round out: each seat in turn plays the first card of
/// its hand until the thirteen tricks are done.
fn play_out_round(g: &mut Game) {
    let round_index = g.round_count() - 1;
    for _ in 0..52 {
        let t = g.current_turn_seat().unwrap();
        let player = g.player_id(t).clone();
        let card = g.round_at(round_index).hand_at(t)[0];
        g.playcard(&player, card).unwrap();
    }
    assert_eq!(g.round_at(round_index).phase(), State::Complete);
}

#[test]
fn seating_in_call_order() {
    let mut g = Game::new();
    assert_eq!(g.add_player(&"alice1".to_string()), Ok(1));
    assert_eq!(g.add_player(&"bob22".to_string()), Ok(2));
    assert_eq!(g.add_player(&"carol3".to_string()), Ok(3));
    assert_eq!(g.add_player(&"dave44".to_string()), Ok(4));
    assert_eq!(g.add_player(&"erin55".to_string()), Err(GameError::TableFull));
    assert_eq!(g.player_count(), 4);
    assert_eq!(g.player_id(0), "alice1");
    assert_eq!(g.player_id(1), "bob22");
    assert_eq!(g.player_id(2), "carol3");
    assert_eq!(g.player_id(3), "dave44");
}

#[test]
fn duplicate_identity_rejected_without_change() {
    let mut g = Game::new();
    assert_eq!(g.add_player(&"alice1".to_string()), Ok(1));
    assert_eq!(
        g.add_player(&"alice1".to_string()),
        Err(GameError::IdentityConflict)
    );
    assert_eq!(g.player_count(), 1);
    // Even at a full table, the conflict is reported before the capacity.
    g.add_player(&"bob22".to_string()).unwrap();
    g.add_player(&"carol3".to_string()).unwrap();
    g.add_player(&"dave44".to_string()).unwrap();
    assert_eq!(
        g.add_player(&"alice1".to_string()),
        Err(GameError::IdentityConflict)
    );
    assert_eq!(g.player_count(), 4);
}

#[test]
fn deal_partitions_the_deck() {
    let mut g = Game::new();
    seat_four(&mut g);
    g.start_round().unwrap();
    let round = g.round_at(0);
    let mut all: Vec<(u8, u8)> = Vec::new();
    for s in 0..4 {
        let hand = round.hand_at(s);
        assert_eq!(hand.len(), 13);
        all.extend(hand.iter().map(card_key));
    }
    assert_eq!(all.len(), 52);
    all.sort();
    all.dedup();
    assert_eq!(all.len(), 52);
}

#[test]
fn game_id_is_a_36_character_token() {
    let g = Game::new();
    assert_eq!(g.id().len(), 36);
}

#[test]
fn turn_derivation_is_pure() {
    let mut g = Game::new();
    seat_four(&mut g);
    g.start_round().unwrap();
    let first = g.current_turn_seat();
    let second = g.current_turn_seat();
    assert_eq!(first, second);
    assert_eq!(first, Ok(0));
}

#[test]
fn end_to_end_seating_deal_and_turn_checks() {
    let mut g = Game::new();
    for id in ["alice1", "bob22", "carol3", "dave44"] {
        g.add_player(&id.to_string()).unwrap();
    }
    assert_eq!(g.start_round(), Ok(()));
    let round = g.round_at(0);
    let mut all: Vec<(u8, u8)> = Vec::new();
    for s in 0..4 {
        assert_eq!(round.hand_at(s).len(), 13);
        all.extend(round.hand_at(s).iter().map(card_key));
    }
    all.sort();
    all.dedup();
    assert_eq!(all.len(), 52, "hands share no card");
    // The first round is led by seat 0, so only alice1 may call.
    let turn = g.current_turn_seat().unwrap();
    assert_eq!(turn, 0);
    assert_eq!(
        g.call(&"bob22".to_string(), 2),
        Err(GameError::OutOfTurn)
    );
    assert_eq!(
        g.call(&"dave44".to_string(), 2),
        Err(GameError::OutOfTurn)
    );
    assert_eq!(g.call(&"alice1".to_string(), 2), Ok(()));
    // Now it is bob22's turn.
    assert_eq!(g.current_turn_seat(), Ok(1));
    assert_eq!(
        g.call(&"alice1".to_string(), 2),
        Err(GameError::OutOfTurn)
    );
}

#[test]
fn acting_before_any_round_is_rejected() {
    let mut g = Game::new();
    seat_four(&mut g);
    assert_eq!(
        g.call(&"alice1".to_string(), 1),
        Err(GameError::NoActiveRound)
    );
    let c = Card { rank: callbreak::Rank::Ace, suit: callbreak::Suit::Spades };
    assert_eq!(
        g.playcard(&"alice1".to_string(), c),
        Err(GameError::NoActiveRound)
    );
    assert_eq!(g.current_turn_seat(), Err(GameError::NoActiveRound));
}

#[test]
fn starting_short_handed_is_rejected() {
    let mut g = Game::new();
    g.add_player(&"alice1".to_string()).unwrap();
    assert_eq!(g.start_round(), Err(GameError::NotEnoughPlayers));
}

#[test]
fn starting_over_a_round_in_progress_is_rejected() {
    let mut g = Game::new();
    seat_four(&mut g);
    g.start_round().unwrap();
    assert_eq!(g.start_round(), Err(GameError::WrongPhase));
}

#[test]
fn playing_during_calling_is_rejected() {
    let mut g = Game::new();
    seat_four(&mut g);
    g.start_round().unwrap();
    let card = g.round_at(0).hand_at(0)[0];
    assert_eq!(
        g.playcard(&"alice1".to_string(), card),
        Err(GameError::WrongPhase)
    );
}

#[test]
fn calling_during_play_is_rejected() {
    let mut g = Game::new();
    seat_four(&mut g);
    g.start_round().unwrap();
    make_calls(&mut g);
    assert_eq!(
        g.call(&"alice1".to_string(), 1),
        Err(GameError::WrongPhase)
    );
}

#[test]
fn playing_a_card_not_held_is_rejected() {
    let mut g = Game::new();
    seat_four(&mut g);
    g.start_round().unwrap();
    make_calls(&mut g);
    let t = g.current_turn_seat().unwrap();
    let player = g.player_id(t).clone();
    // Hands are disjoint, so a card from another seat's hand is not held.
    let other = (t + 1) % 4;
    let foreign = g.round_at(0).hand_at(other)[0];
    assert_eq!(g.playcard(&player, foreign), Err(GameError::CardNotInHand));
    // The hand is untouched by the rejected play.
    assert_eq!(g.round_at(0).hand_at(t).len(), 13);
}

#[test]
fn trick_leaders_chain_from_trick_winners() {
    let mut g = Game::new();
    seat_four(&mut g);
    g.start_round().unwrap();
    make_calls(&mut g);
    play_out_round(&mut g);
    let round = g.round_at(0);
    assert_eq!(round.trick_count(), 13);
    assert_eq!(round.trick_at(0).leader(), round.start_seat());
    for i in 0..12 {
        assert_eq!(round.trick_at(i + 1).leader(), round.trick_winner(i));
    }
}

#[test]
fn five_rounds_finish_the_game() {
    let mut g = Game::new();
    seat_four(&mut g);
    for n in 0..5 {
        assert_eq!(g.start_round(), Ok(()));
        assert_eq!(g.round_count(), n + 1);
        // The starting seat rotates with the round number.
        assert_eq!(g.round_at(n).start_seat(), n % 4);
        assert_eq!(g.current_turn_seat(), Ok(n % 4));
        make_calls(&mut g);
        play_out_round(&mut g);
    }
    assert_eq!(g.start_round(), Err(GameError::GameFinished));
    assert_eq!(g.current_turn_seat(), Err(GameError::NoActiveRound));
}

#[test]
fn game_round_trips_through_its_parts() {
    let mut g = Game::new();
    seat_four(&mut g);
    g.start_round().unwrap();
    make_calls(&mut g);
    let id = g.id().clone();
    let players: Vec<String> = (0..g.player_count()).map(|i| g.player_id(i).clone()).collect();
    let rounds: Vec<Round> = (0..g.round_count()).map(|i| g.round_at(i).duplicate()).collect();
    let rebuilt = Game::from_parts(id, players, rounds).unwrap();
    assert_eq!(rebuilt.id(), g.id());
    assert_eq!(rebuilt.player_count(), 4);
    assert_eq!(rebuilt.round_count(), 1);
    for s in 0..4 {
        assert_eq!(rebuilt.round_at(0).hand_at(s), g.round_at(0).hand_at(s));
    }
    assert_eq!(rebuilt.current_turn_seat(), g.current_turn_seat());
}

#[test]
fn from_parts_rejects_malformed_states() {
    // Duplicate identities.
    assert!(Game::from_parts(
        "g".to_string(),
        vec!["alice1".to_string(), "alice1".to_string()],
        vec![],
    )
    .is_none());
    // Too many players.
    assert!(Game::from_parts(
        "g".to_string(),
        vec![
            "a1".to_string(),
            "b2".to_string(),
            "c3".to_string(),
            "d4".to_string(),
            "e5".to_string(),
        ],
        vec![],
    )
    .is_none());
    // A round without a full table.
    assert!(Game::from_parts(
        "g".to_string(),
        vec!["alice1".to_string()],
        vec![Round::new()],
    )
    .is_none());
}

#[test]
fn round_from_parts_validates() {
    assert!(Round::from_parts(5, vec![vec![], vec![], vec![], vec![]], vec![], vec![]).is_none());
    assert!(Round::from_parts(0, vec![vec![], vec![], vec![], vec![]], vec![], vec![]).is_some());
    // Tricks may not exist before all four calls are in.
    assert!(Round::from_parts(
        0,
        vec![vec![], vec![], vec![], vec![]],
        vec![1],
        vec![Trick::new(0)],
    )
    .is_none());
}

#[test]
fn error_messages_name_the_fault() {
    assert_eq!(GameError::OutOfTurn.message(), "attempted out of turn play");
    assert_eq!(
        GameError::NoActiveRound.message(),
        "no active round in play"
    );
    assert_eq!(GameError::TableFull.message(), "table already full");
}
