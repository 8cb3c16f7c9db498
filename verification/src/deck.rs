//! The standard 52-card deck: canonical construction, shuffling, and
//! draw-from-top with depletion reported as an error.

use vstd::prelude::*;
use vstd::multiset::Multiset;
use rand::seq::SliceRandom;
use crate::card::{Card, Rank, Suit};
use crate::errors::GameError;

verus! {

/// The rank at position `i` of the ace-through-king run a suit follows in
/// the canonical order.
pub open spec fn spec_rank_of(i: int) -> Rank {
    if i == 0 {
        Rank::Ace
    } else if i == 1 {
        Rank::Two
    } else if i == 2 {
        Rank::Three
    } else if i == 3 {
        Rank::Four
    } else if i == 4 {
        Rank::Five
    } else if i == 5 {
        Rank::Six
    } else if i == 6 {
        Rank::Seven
    } else if i == 7 {
        Rank::Eight
    } else if i == 8 {
        Rank::Nine
    } else if i == 9 {
        Rank::Ten
    } else if i == 10 {
        Rank::Jacks
    } else if i == 11 {
        Rank::Queen
    } else {
        Rank::King
    }
}

/// The position of a rank in the ace-through-king run.
pub open spec fn spec_rank_index(r: Rank) -> int {
    match r {
        Rank::Ace => 0,
        Rank::Two => 1,
        Rank::Three => 2,
        Rank::Four => 3,
        Rank::Five => 4,
        Rank::Six => 5,
        Rank::Seven => 6,
        Rank::Eight => 7,
        Rank::Nine => 8,
        Rank::Ten => 9,
        Rank::Jacks => 10,
        Rank::Queen => 11,
        Rank::King => 12,
    }
}

/// The rank at position `i` of the clubs run, which opens the canonical
/// deck with two before ace and then climbs three through king.
pub open spec fn spec_club_rank_of(i: int) -> Rank {
    if i == 0 {
        Rank::Two
    } else if i == 1 {
        Rank::Ace
    } else {
        spec_rank_of(i)
    }
}

/// The position of a rank in the clubs run.
pub open spec fn spec_club_rank_index(r: Rank) -> int {
    match r {
        Rank::Two => 0,
        Rank::Ace => 1,
        _ => spec_rank_index(r),
    }
}

/// The suit of the `i`-th canonical run of thirteen cards: clubs lead,
/// then spades, hearts and diamonds.
pub open spec fn spec_suit_of(i: int) -> Suit {
    if i == 0 {
        Suit::Clubs
    } else if i == 1 {
        Suit::Spades
    } else if i == 2 {
        Suit::Hearts
    } else {
        Suit::Diamonds
    }
}

/// The position of a suit among the canonical runs.
pub open spec fn spec_suit_index(s: Suit) -> int {
    match s {
        Suit::Clubs => 0,
        Suit::Spades => 1,
        Suit::Hearts => 2,
        Suit::Diamonds => 3,
    }
}

/// The card at position `i` of the canonical deck order.
pub open spec fn spec_card_of(i: int) -> Card {
    Card {
        suit: spec_suit_of(i / 13),
        rank: if i < 13 {
            spec_club_rank_of(i % 13)
        } else {
            spec_rank_of(i % 13)
        },
    }
}

/// The position of a card in the canonical deck order.
pub open spec fn spec_card_index(c: Card) -> int {
    spec_suit_index(c.suit) * 13 + (if c.suit == Suit::Clubs {
        spec_club_rank_index(c.rank)
    } else {
        spec_rank_index(c.rank)
    })
}

/// The full deck in canonical order: all 52 rank-suit combinations.
pub open spec fn standard_deck() -> Seq<Card> {
    Seq::new(52, |i: int| spec_card_of(i))
}

/// The standard deck as an unordered collection of cards.
pub open spec fn standard_multiset() -> Multiset<Card> {
    standard_deck().to_multiset()
}

/// Positions in the canonical order round-trip through cards.
pub proof fn lemma_card_index_of(i: int)
    requires
        0 <= i < 52,
    ensures
        spec_card_index(spec_card_of(i)) == i,
        0 <= spec_card_index(spec_card_of(i)) < 52,
{
    assert(0 <= i % 13 < 13 && (i < 13 <==> i / 13 == 0)) by (nonlinear_arith)
        requires 0 <= i < 52;
    if i < 13 {
        assert(spec_club_rank_index(spec_club_rank_of(i % 13)) == i % 13);
    } else {
        assert(spec_rank_index(spec_rank_of(i % 13)) == i % 13);
    }
    assert(spec_suit_index(spec_suit_of(i / 13)) == i / 13);
    assert((i / 13) * 13 + i % 13 == i) by (nonlinear_arith)
        requires 0 <= i < 52;
}

/// Cards round-trip through their position in the canonical order.
pub proof fn lemma_card_of_index(c: Card)
    ensures
        0 <= spec_card_index(c) < 52,
        spec_card_of(spec_card_index(c)) == c,
{
    let si = spec_suit_index(c.suit);
    let ri = if c.suit == Suit::Clubs {
        spec_club_rank_index(c.rank)
    } else {
        spec_rank_index(c.rank)
    };
    assert((si * 13 + ri) / 13 == si && (si * 13 + ri) % 13 == ri && (si * 13 + ri < 13 <==> si
        == 0)) by (nonlinear_arith)
        requires 0 <= si < 4 && 0 <= ri < 13;
}

/// The standard deck holds exactly 52 cards, no two alike, and every
/// rank-suit combination is present.
pub proof fn lemma_standard_deck_complete()
    ensures
        standard_deck().len() == 52,
        standard_deck().no_duplicates(),
        forall|r: Rank, s: Suit| standard_deck().contains(Card { suit: s, rank: r }),
{
    assert forall|i: int, j: int|
        0 <= i < 52 && 0 <= j < 52 && i != j implies standard_deck()[i] != standard_deck()[j] by {
        lemma_card_index_of(i);
        lemma_card_index_of(j);
    }
    assert forall|r: Rank, s: Suit| standard_deck().contains(Card { suit: s, rank: r }) by {
        let c = Card { suit: s, rank: r };
        lemma_card_of_index(c);
        assert(standard_deck()[spec_card_index(c)] == c);
    }
}

/// Every card occurs at most once in the standard deck's multiset.
pub proof fn lemma_standard_multiset_counts()
    ensures
        forall|c: Card| #[trigger] standard_multiset().count(c) <= 1,
        standard_multiset().len() == 52,
{
    broadcast use vstd::seq_lib::group_to_multiset_ensures;

    lemma_standard_deck_complete();
    standard_deck().lemma_multiset_has_no_duplicates();
    assert forall|c: Card| #[trigger] standard_multiset().count(c) <= 1 by {
        if standard_multiset().count(c) > 0 {
            assert(standard_multiset().contains(c));
        }
    }
}

/// An ordered pile of cards, drawn from the top (the end).
#[derive(Clone, Debug)]
pub struct Deck {
    pub cards: Vec<Card>,
}

/// Relies on rand's `SliceRandom::shuffle`: a Fisher-Yates pass that
/// permutes the slice in place, so the cards are rearranged but none is
/// added, removed or duplicated.
#[verifier::external_body]
fn shuffle_cards(cards: &mut Vec<Card>)
    ensures
        final(cards)@.to_multiset() == old(cards)@.to_multiset(),
        final(cards)@.len() == old(cards)@.len(),
{
    cards.shuffle(&mut rand::thread_rng());
}

impl Deck {
    /// Builds the full 52-card deck in the canonical order.
    pub fn create_deck() -> (d: Deck)
        ensures
            d.cards@ == standard_deck(),
    {
        let mut cards: Vec<Card> = Vec::new();
        let mut s: u8 = 0;
        while s < 4
            invariant
                s <= 4,
                cards@.len() == s * 13,
                forall|k: int| 0 <= k < cards@.len() ==> cards@[k] == spec_card_of(k),
            decreases 4 - s,
        {
            let mut r: u8 = 0;
            while r < 13
                invariant
                    s < 4,
                    r <= 13,
                    cards@.len() == s * 13 + r,
                    forall|k: int| 0 <= k < cards@.len() ==> cards@[k] == spec_card_of(k),
                decreases 13 - r,
            {
                let rank = if s == 0 {
                    club_rank_from_index(r)
                } else {
                    rank_from_index(r)
                };
                let suit = suit_from_index(s);
                proof {
                    let k = s * 13 + r;
                    assert(k / 13 == s as int && k % 13 == r as int && (k < 13 <==> s == 0))
                        by (nonlinear_arith)
                        requires 0 <= s < 4 && 0 <= r < 13 && k == s * 13 + r;
                }
                cards.push(Card { suit, rank });
                r = r + 1;
            }
            s = s + 1;
        }
        proof {
            assert(cards@ =~= standard_deck());
        }
        Deck { cards }
    }

    /// Shuffles the deck in place: the same 52 cards, in a fresh random order.
    pub fn shuffle_deck(&mut self)
        ensures
            final(self).cards@.to_multiset() == old(self).cards@.to_multiset(),
            final(self).cards@.len() == old(self).cards@.len(),
    {
        shuffle_cards(&mut self.cards);
    }

    /// Removes and returns the top card; an empty deck reports exhaustion
    /// and is left unchanged.
    pub fn draw(&mut self) -> (r: Result<Card, GameError>)
        ensures
            match r {
                Ok(c) => old(self).cards@.len() > 0 && c == old(self).cards@.last()
                    && final(self).cards@ == old(self).cards@.drop_last(),
                Err(e) => e == GameError::DeckExhausted && old(self).cards@.len() == 0
                    && final(self).cards@ == old(self).cards@,
            },
    {
        match self.cards.pop() {
            Some(c) => Ok(c),
            None => Err(GameError::DeckExhausted),
        }
    }

    /// How many cards remain to be drawn.
    pub fn len(&self) -> (n: usize)
        ensures
            n == self.cards@.len(),
    {
        self.cards.len()
    }
}

/// The rank at a given position of the ace-through-king run.
fn rank_from_index(i: u8) -> (r: Rank)
    requires
        i < 13,
    ensures
        r == spec_rank_of(i as int),
{
    if i == 0 {
        Rank::Ace
    } else if i == 1 {
        Rank::Two
    } else if i == 2 {
        Rank::Three
    } else if i == 3 {
        Rank::Four
    } else if i == 4 {
        Rank::Five
    } else if i == 5 {
        Rank::Six
    } else if i == 6 {
        Rank::Seven
    } else if i == 7 {
        Rank::Eight
    } else if i == 8 {
        Rank::Nine
    } else if i == 9 {
        Rank::Ten
    } else if i == 10 {
        Rank::Jacks
    } else if i == 11 {
        Rank::Queen
    } else {
        Rank::King
    }
}

/// The rank at a given position of the clubs run, which swaps two and ace.
fn club_rank_from_index(i: u8) -> (r: Rank)
    requires
        i < 13,
    ensures
        r == spec_club_rank_of(i as int),
{
    if i == 0 {
        Rank::Two
    } else if i == 1 {
        Rank::Ace
    } else {
        rank_from_index(i)
    }
}

/// The suit of a given canonical run of thirteen cards.
fn suit_from_index(i: u8) -> (s: Suit)
    requires
        i < 4,
    ensures
        s == spec_suit_of(i as int),
{
    if i == 0 {
        Suit::Clubs
    } else if i == 1 {
        Suit::Spades
    } else if i == 2 {
        Suit::Hearts
    } else {
        Suit::Diamonds
    }
}

} // verus!
