//! Fatal conditions of the round engine, surfaced as result states so a
//! host can log and exit deterministically instead of crashing.

use vstd::prelude::*;

verus! {

/// A condition the round cannot recover from.
#[derive(Clone, Copy, Debug, PartialEq, Eq, Structural)]
pub enum GameError {
    /// A draw was requested on an empty deck.
    DeckExhausted,
    /// A lookup by player name found no player.
    PlayerNotFound,
}

/// Why a stage transition was refused; the table is left unchanged.
#[derive(Clone, Copy, Debug, PartialEq, Eq, Structural)]
pub enum AdvanceError {
    /// Not every player has settled since the last raise.
    StageNotSettled,
    /// The round already reached the terminal showdown stage.
    RoundOver,
}

} // verus!
