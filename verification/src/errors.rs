//! The caller-visible error outcomes of the game engine. All are
//! recoverable: an operation returns one of these instead of aborting, and
//! none of them is retried silently by the engine itself.

use vstd::prelude::*;

verus! {

/// Why a game operation was rejected.
#[derive(Clone, Copy, PartialEq, Eq, Structural, Debug)]
pub enum GameError {
    /// Four players are already seated.
    TableFull,
    /// The identity is already seated at this table.
    IdentityConflict,
    /// No round is in progress.
    NoActiveRound,
    /// The round is not in the phase this operation needs.
    WrongPhase,
    /// The acting seat is not the one whose turn it is.
    OutOfTurn,
    /// The acting seat does not hold the card it tried to play.
    CardNotInHand,
    /// Fewer than four players are seated.
    NotEnoughPlayers,
    /// The game has already played its full complement of rounds.
    GameFinished,
    /// The stored game this operation addressed does not exist.
    GameNotFound,
}

/// The description `message` returns for each error.
pub open spec fn spec_message(e: GameError) -> Seq<char> {
    match e {
        GameError::TableFull => "table already full"@,
        GameError::IdentityConflict => "player is already in this game"@,
        GameError::NoActiveRound => "no active round in play"@,
        GameError::WrongPhase => "the round is not in the right phase"@,
        GameError::OutOfTurn => "attempted out of turn play"@,
        GameError::CardNotInHand => "the player does not hold that card"@,
        GameError::NotEnoughPlayers => "not enough players to start the round"@,
        GameError::GameFinished => "the game is already over"@,
        GameError::GameNotFound => "no such game"@,
    }
}

impl GameError {
    /// A short description of the error, for the transport layer to report.
    pub fn message(&self) -> (r: &'static str)
        ensures
            r@ == spec_message(*self),
    {
        let m: &'static str = match self {
            GameError::TableFull => "table already full",
            GameError::IdentityConflict => "player is already in this game",
            GameError::NoActiveRound => "no active round in play",
            GameError::WrongPhase => "the round is not in the right phase",
            GameError::OutOfTurn => "attempted out of turn play",
            GameError::CardNotInHand => "the player does not hold that card",
            GameError::NotEnoughPlayers => "not enough players to start the round",
            GameError::GameFinished => "the game is already over",
            GameError::GameNotFound => "no such game",
        };
        proof {
            reveal_strlit("table already full");
            reveal_strlit("player is already in this game");
            reveal_strlit("no active round in play");
            reveal_strlit("the round is not in the right phase");
            reveal_strlit("attempted out of turn play");
            reveal_strlit("the player does not hold that card");
            reveal_strlit("not enough players to start the round");
            reveal_strlit("the game is already over");
            reveal_strlit("no such game");
        }
        m
    }
}

} // verus!
