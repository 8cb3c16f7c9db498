//! The player: a name used as lookup key, a hand of cards, and betting state.

use vstd::prelude::*;
use crate::card::Card;
use crate::text::{lower_of, lowercase};

verus! {

/// A seated player. The name is stored lower-cased and is the lookup key;
/// the hand starts empty and gains exactly two cards when a round is dealt.
#[derive(Clone, Debug)]
pub struct Player {
    pub name: String,
    pub cards: Vec<Card>,
    pub balance: i32,
    pub bet: i32,
}

impl Player {
    /// Creates a player with the name normalised to lower case, an empty
    /// hand, the fixed starting balance of 10,000 chips and no current bet.
    pub fn new(name: &str) -> (p: Player)
        ensures
            p.name@ == lower_of(name@),
            p.cards@ == Seq::<Card>::empty(),
            p.balance == 10_000,
            p.bet == 0,
    {
        Player { name: lowercase(name), cards: Vec::new(), balance: 10_000, bet: 0 }
    }
}

} // verus!
