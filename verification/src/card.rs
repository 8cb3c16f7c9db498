//! Immutable card identity: rank, suit, derived color and numeric value.

use vstd::prelude::*;
use vstd::string::StringExecFns;

verus! {

/// The thirteen ranks of a standard playing card.
#[derive(Clone, Copy, Debug, PartialEq, Eq, Structural)]
pub enum Rank {
    Ace,
    Two,
    Three,
    Four,
    Five,
    Six,
    Seven,
    Eight,
    Nine,
    Ten,
    Jacks,
    Queen,
    King,
}

/// The four suits of a standard playing card.
#[derive(Clone, Copy, Debug, PartialEq, Eq, Structural)]
pub enum Suit {
    Spades,
    Diamonds,
    Hearts,
    Clubs,
}

/// The color a suit belongs to.
#[derive(Clone, Copy, Debug, PartialEq, Eq, Structural)]
pub enum Color {
    Red,
    Black,
}

/// A playing card, identified entirely by its rank and suit.
#[derive(Clone, Copy, Debug, PartialEq, Eq, Structural)]
pub struct Card {
    pub suit: Suit,
    pub rank: Rank,
}

/// The color of a suit: spades and clubs are black, diamonds and hearts red.
pub open spec fn spec_color_of(suit: Suit) -> Color {
    match suit {
        Suit::Spades => Color::Black,
        Suit::Diamonds => Color::Red,
        Suit::Hearts => Color::Red,
        Suit::Clubs => Color::Black,
    }
}

/// The numeric value of a rank, for future hand evaluation: ace is 11,
/// number cards count face value, jack 12, queen 13, king 14.
pub open spec fn spec_value_of(rank: Rank) -> int {
    match rank {
        Rank::Ace => 11,
        Rank::Two => 2,
        Rank::Three => 3,
        Rank::Four => 4,
        Rank::Five => 5,
        Rank::Six => 6,
        Rank::Seven => 7,
        Rank::Eight => 8,
        Rank::Nine => 9,
        Rank::Ten => 10,
        Rank::Jacks => 12,
        Rank::Queen => 13,
        Rank::King => 14,
    }
}

impl Card {
    /// Builds the card with the given rank and suit.
    pub fn new(rank: Rank, suit: Suit) -> (c: Card)
        ensures
            c.rank == rank,
            c.suit == suit,
    {
        Card { suit, rank }
    }

    /// Returns the color of this card's suit.
    pub fn get_color(&self) -> (c: Color)
        ensures
            c == spec_color_of(self.suit),
    {
        match self.suit {
            Suit::Spades => Color::Black,
            Suit::Diamonds => Color::Red,
            Suit::Hearts => Color::Red,
            Suit::Clubs => Color::Black,
        }
    }

    /// Returns the numeric value of this card's rank.
    pub fn get_value(&self) -> (v: i32)
        ensures
            v as int == spec_value_of(self.rank),
    {
        match self.rank {
            Rank::Ace => 11,
            Rank::Two => 2,
            Rank::Three => 3,
            Rank::Four => 4,
            Rank::Five => 5,
            Rank::Six => 6,
            Rank::Seven => 7,
            Rank::Eight => 8,
            Rank::Nine => 9,
            Rank::Ten => 10,
            Rank::Jacks => 12,
            Rank::Queen => 13,
            Rank::King => 14,
        }
    }

    /// The text a renderer shows for this card: rank, "of", suit.
    pub fn label(&self) -> (s: String)
        ensures
            s@ == spec_rank_name(self.rank) + " of "@ + spec_suit_name(self.suit),
    {
        let mut s = rank_name(self.rank).to_owned();
        s.append(" of ");
        s.append(suit_name(self.suit));
        s
    }
}

/// The display name of a rank.
pub open spec fn spec_rank_name(r: Rank) -> Seq<char> {
    match r {
        Rank::Ace => "Ace"@,
        Rank::Two => "Two"@,
        Rank::Three => "Three"@,
        Rank::Four => "Four"@,
        Rank::Five => "Five"@,
        Rank::Six => "Six"@,
        Rank::Seven => "Seven"@,
        Rank::Eight => "Eight"@,
        Rank::Nine => "Nine"@,
        Rank::Ten => "Ten"@,
        Rank::Jacks => "Jack"@,
        Rank::Queen => "Queen"@,
        Rank::King => "King"@,
    }
}

/// The display name of a suit.
pub open spec fn spec_suit_name(s: Suit) -> Seq<char> {
    match s {
        Suit::Spades => "Spades"@,
        Suit::Diamonds => "Diamonds"@,
        Suit::Hearts => "Hearts"@,
        Suit::Clubs => "Clubs"@,
    }
}

/// The display name of a rank.
pub fn rank_name(r: Rank) -> (s: &'static str)
    ensures
        s@ == spec_rank_name(r),
{
    match r {
        Rank::Ace => "Ace",
        Rank::Two => "Two",
        Rank::Three => "Three",
        Rank::Four => "Four",
        Rank::Five => "Five",
        Rank::Six => "Six",
        Rank::Seven => "Seven",
        Rank::Eight => "Eight",
        Rank::Nine => "Nine",
        Rank::Ten => "Ten",
        Rank::Jacks => "Jack",
        Rank::Queen => "Queen",
        Rank::King => "King",
    }
}

/// The display name of a suit.
pub fn suit_name(s: Suit) -> (r: &'static str)
    ensures
        r@ == spec_suit_name(s),
{
    match s {
        Suit::Spades => "Spades",
        Suit::Diamonds => "Diamonds",
        Suit::Hearts => "Hearts",
        Suit::Clubs => "Clubs",
    }
}

} // verus!
