use holdem_round::{Card, Color, Deck, GameError, Rank, Suit};

fn all_ranks() -> Vec<Rank> {
    vec![
        Rank::Ace,
        Rank::Two,
        Rank::Three,
        Rank::Four,
        Rank::Five,
        Rank::Six,
        Rank::Seven,
        Rank::Eight,
        Rank::Nine,
        Rank::Ten,
        Rank::Jacks,
        Rank::Queen,
        Rank::King,
    ]
}

fn all_suits() -> Vec<Suit> {
    vec![Suit::Spades, Suit::Diamonds, Suit::Hearts, Suit::Clubs]
}

#[test]
fn standard_deck_has_52_unique_cards_with_all_combinations() {
    let deck = Deck::create_deck();
    assert_eq!(deck.cards.len(), 52);
    for i in 0..deck.cards.len() {
        for j in 0..i {
            assert_ne!(deck.cards[i], deck.cards[j]);
        }
    }
    for rank in all_ranks() {
        for suit in all_suits() {
            assert!(deck.cards.contains(&Card::new(rank, suit)));
        }
    }
}

#[test]
fn canonical_order_opens_with_clubs_two_then_ace() {
    let deck = Deck::create_deck();
    assert_eq!(deck.cards[0], Card::new(Rank::Two, Suit::Clubs));
    assert_eq!(deck.cards[1], Card::new(Rank::Ace, Suit::Clubs));
    assert_eq!(deck.cards[2], Card::new(Rank::Three, Suit::Clubs));
    assert_eq!(deck.cards[12], Card::new(Rank::King, Suit::Clubs));
    assert_eq!(deck.cards[13], Card::new(Rank::Ace, Suit::Spades));
    assert_eq!(deck.cards[26], Card::new(Rank::Ace, Suit::Hearts));
    assert_eq!(deck.cards[39], Card::new(Rank::Ace, Suit::Diamonds));
    assert_eq!(deck.cards[51], Card::new(Rank::King, Suit::Diamonds));
}

#[test]
fn shuffle_keeps_the_same_multiset_of_cards() {
    let mut deck = Deck::create_deck();
    let before = deck.cards.clone();
    deck.shuffle_deck();
    assert_eq!(deck.cards.len(), before.len());
    for card in &before {
        let was = before.iter().filter(|c| *c == card).count();
        let is = deck.cards.iter().filter(|c| *c == card).count();
        assert_eq!(was, is);
    }
}

#[test]
fn draw_from_empty_deck_reports_exhaustion() {
    let mut deck = Deck { cards: Vec::new() };
    assert_eq!(deck.draw(), Err(GameError::DeckExhausted));
    assert_eq!(deck.cards.len(), 0);
}

#[test]
fn draw_removes_the_top_card_and_shrinks_the_deck_by_one() {
    let mut deck = Deck::create_deck();
    assert_eq!(deck.len(), 52);
    let top = *deck.cards.last().unwrap();
    let drawn = deck.draw().unwrap();
    assert_eq!(drawn, top);
    assert_eq!(deck.len(), 51);
    assert!(!deck.cards.contains(&drawn));
}

#[test]
fn drawing_the_whole_deck_never_repeats_a_card() {
    let mut deck = Deck::create_deck();
    deck.shuffle_deck();
    let mut seen: Vec<Card> = Vec::new();
    for _ in 0..52 {
        let card = deck.draw().unwrap();
        assert!(!seen.contains(&card));
        seen.push(card);
    }
    assert_eq!(deck.draw(), Err(GameError::DeckExhausted));
}

#[test]
fn card_values_follow_the_fixed_scheme() {
    assert_eq!(Card::new(Rank::Ace, Suit::Spades).get_value(), 11);
    assert_eq!(Card::new(Rank::Two, Suit::Spades).get_value(), 2);
    assert_eq!(Card::new(Rank::Ten, Suit::Clubs).get_value(), 10);
    assert_eq!(Card::new(Rank::Jacks, Suit::Hearts).get_value(), 12);
    assert_eq!(Card::new(Rank::Queen, Suit::Diamonds).get_value(), 13);
    assert_eq!(Card::new(Rank::King, Suit::Clubs).get_value(), 14);
}

#[test]
fn card_colors_follow_the_suits() {
    assert_eq!(Card::new(Rank::Ace, Suit::Spades).get_color(), Color::Black);
    assert_eq!(Card::new(Rank::Ace, Suit::Clubs).get_color(), Color::Black);
    assert_eq!(Card::new(Rank::Ace, Suit::Hearts).get_color(), Color::Red);
    assert_eq!(Card::new(Rank::Ace, Suit::Diamonds).get_color(), Color::Red);
}

#[test]
fn card_label_reads_rank_of_suit() {
    assert_eq!(Card::new(Rank::Queen, Suit::Hearts).label(), "Queen of Hearts");
    assert_eq!(Card::new(Rank::Jacks, Suit::Spades).label(), "Jack of Spades");
}
