//! A flat document shape for a stored game: plain records a persistence
//! layer can hold, with cards and tricks written as text tokens. Nothing is
//! computed over these; they only carry data.

use vstd::prelude::*;

verus! {

/// One round's hand of a player, by round number.
pub struct RoundHand {
    pub round: i32,
    pub hand: Vec<String>,
}

/// One round's score of a player, by round number.
pub struct RoundScore {
    pub round: i32,
    pub score: i32,
}

/// A player's record: identity and per-round hands and scores.
pub struct Player {
    pub id: i32,
    pub hands: Vec<RoundHand>,
    pub scores: Vec<RoundScore>,
}

/// A round's record: its number, its starting seat, its tricks as text
/// tokens, and the per-seat scores.
pub struct Round {
    pub id: i32,
    pub starter: i32,
    pub tricks: Vec<String>,
    pub scores: Vec<i32>,
}

/// The whole stored game document: players and rounds.
pub struct Schema {
    pub players: Vec<Player>,
    pub rounds: Vec<Round>,
}

} // verus!
