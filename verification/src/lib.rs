//! Core engine of a turn-based betting round over a shared deck: card and
//! deck model, player registry, table state, and the stage/turn rules.

pub mod board;
pub mod card;
pub mod decision;
pub mod deck;
pub mod errors;
pub mod player;
pub mod text;

pub use board::{Board, Decision, TurnOutcome};
pub use card::{Card, Color, Rank, Suit};
pub use decision::Action;
pub use deck::Deck;
pub use errors::{AdvanceError, GameError};
pub use player::Player;
