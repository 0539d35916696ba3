//! Engine for a four-player trick-taking card game of the Callbreak family,
//! together with the optimistic-concurrency protocol that lets stateless
//! request handlers mutate one shared game safely.
//!
//! The game logic is pure: every operation turns an owned in-memory `Game`
//! value into a new one, and persistence is the caller's business. The
//! `store` module models the compare-and-swap protocol that the persistence
//! layer must follow.

pub mod cards;
pub mod errors;
pub mod game;
pub mod round;
pub mod schema;
pub mod store;
pub mod trick;

pub use cards::Card;
pub use cards::Deck;
pub use cards::Rank;
pub use cards::Suit;
pub use errors::GameError;
pub use game::Game;
pub use round::State;
