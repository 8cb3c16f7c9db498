use holdem_round::{AdvanceError, Board, Card, Decision, GameError, Player, TurnOutcome};

fn four_players() -> Vec<Player> {
    vec![
        Player::new("A"),
        Player::new("B"),
        Player::new("C"),
        Player::new("D"),
    ]
}

fn gathered_cards(board: &Board) -> Vec<Card> {
    let mut all: Vec<Card> = Vec::new();
    all.extend(board.deck.cards.iter().copied());
    for player in &board.players {
        all.extend(player.cards.iter().copied());
    }
    all.extend(board.middle_cards.iter().copied());
    all
}

#[test]
fn player_starts_with_lowercased_name_and_fixed_stake() {
    let p = Player::new("Alice");
    assert_eq!(p.name, "alice");
    assert_eq!(p.cards.len(), 0);
    assert_eq!(p.balance, 10_000);
    assert_eq!(p.bet, 0);
}

#[test]
fn dealing_gives_two_cards_each_five_middle_and_the_rest_stays_in_the_deck() {
    let board = Board::new(four_players());
    assert_eq!(board.deck.cards.len(), 52 - 2 * 4 - 5);
    assert_eq!(board.middle_cards.len(), 5);
    for player in &board.players {
        assert_eq!(player.cards.len(), 2);
    }
    let all = gathered_cards(&board);
    assert_eq!(all.len(), 52);
    for i in 0..all.len() {
        for j in 0..i {
            assert_ne!(all[i], all[j]);
        }
    }
}

#[test]
fn dealing_handles_one_player_and_the_full_table_of_23() {
    let small = Board::new(vec![Player::new("Solo")]);
    assert_eq!(small.deck.cards.len(), 52 - 2 - 5);
    assert_eq!(small.players[0].cards.len(), 2);

    let mut names: Vec<Player> = Vec::new();
    for i in 0..23 {
        names.push(Player::new(&format!("p{}", i)));
    }
    let big = Board::new(names);
    assert_eq!(big.deck.cards.len(), 52 - 2 * 23 - 5);
    for player in &big.players {
        assert_eq!(player.cards.len(), 2);
    }
    let all = gathered_cards(&big);
    assert_eq!(all.len(), 52);
    for i in 0..all.len() {
        for j in 0..i {
            assert_ne!(all[i], all[j]);
        }
    }
}

#[test]
fn hands_are_found_by_name_ignoring_case() {
    let board = Board::new(four_players());
    let hand = board.get_cards("A").expect("player a is seated");
    assert_eq!(hand.len(), 2);
    let same = board.get_cards("a").expect("lookup is case-insensitive");
    assert_eq!(hand, same);
    assert_eq!(board.get_cards("nobody").err(), Some(GameError::PlayerNotFound));
}

#[test]
fn draw_player_adds_the_top_card_to_that_hand() {
    let mut board = Board::new(four_players());
    let top = *board.deck.cards.last().unwrap();
    board.draw_player("B").expect("player b is seated");
    let hand = board.get_cards("B").unwrap();
    assert_eq!(hand.len(), 3);
    assert_eq!(*hand.last().unwrap(), top);
    assert_eq!(board.deck.cards.len(), 52 - 2 * 4 - 5 - 1);
    assert_eq!(
        board.draw_player("nobody").err(),
        Some(GameError::PlayerNotFound)
    );
}

#[test]
fn stage_settles_exactly_with_the_last_call_in_seating_order() {
    let mut board = Board::new(four_players());
    assert!(!board.is_stage_settled());
    for seat in 0..4 {
        assert!(!board.is_stage_settled());
        board.record_decision(seat, Decision::Call);
        assert_eq!(board.count_settled(), seat + 1);
    }
    assert!(board.is_stage_settled());
}

#[test]
fn a_raise_leaves_only_the_raiser_settled() {
    let mut board = Board::new(four_players());
    for seat in 0..4 {
        board.record_decision(seat, Decision::Call);
    }
    assert!(board.is_stage_settled());
    board.record_decision(2, Decision::Raise);
    assert_eq!(board.count_settled(), 1);
    assert_eq!(board.players_done, vec![false, false, true, false]);
    assert!(!board.is_stage_settled());
}

#[test]
fn repeating_a_call_changes_nothing_further() {
    let mut board = Board::new(four_players());
    board.record_decision(1, Decision::Call);
    let flags = board.players_done.clone();
    board.record_decision(1, Decision::Call);
    assert_eq!(board.players_done, flags);
}

#[test]
fn advancing_an_unsettled_stage_is_refused_and_changes_nothing() {
    let mut board = Board::new(four_players());
    board.record_decision(0, Decision::Call);
    let flags = board.players_done.clone();
    assert_eq!(board.advance_stage(), Err(AdvanceError::StageNotSettled));
    assert_eq!(board.round, 0);
    assert_eq!(board.players_done, flags);
}

#[test]
fn full_round_of_calls_walks_the_stages_and_reveals_the_middle() {
    let mut board = Board::new(four_players());
    assert_eq!(board.deck.cards.len(), 39);
    assert_eq!(board.middle_cards.len(), 5);
    for player in &board.players {
        assert_eq!(player.cards.len(), 2);
    }
    assert_eq!(board.revealed_middle_count(), 0);

    for (stage, revealed) in [(1, 3), (2, 4), (3, 5)] {
        for seat in 0..3 {
            assert_eq!(board.play_turn(seat, Decision::Call), TurnOutcome::Pending);
        }
        assert_eq!(board.play_turn(3, Decision::Call), TurnOutcome::StageAdvanced);
        assert_eq!(board.round, stage);
        assert_eq!(board.revealed_middle_count(), revealed);
    }
    assert!(board.is_round_over());

    for seat in 0..3 {
        assert_eq!(board.play_turn(seat, Decision::Call), TurnOutcome::Pending);
    }
    assert_eq!(board.play_turn(3, Decision::Call), TurnOutcome::RoundComplete);
    assert_eq!(board.round, 3);
    assert_eq!(board.revealed_middle_count(), 5);
    assert!(board.is_stage_settled());
    assert_eq!(board.advance_stage(), Err(AdvanceError::RoundOver));
    assert_eq!(board.round, 3);
}

#[test]
fn a_raise_reopens_the_stage_until_everyone_else_calls_again() {
    let mut board = Board::new(four_players());
    assert_eq!(board.play_turn(0, Decision::Raise), TurnOutcome::Pending);
    assert_eq!(board.count_settled(), 1);
    assert_eq!(board.play_turn(1, Decision::Call), TurnOutcome::Pending);
    assert_eq!(board.count_settled(), 2);
    assert_eq!(board.play_turn(2, Decision::Call), TurnOutcome::Pending);
    assert_eq!(board.count_settled(), 3);
    assert_eq!(board.play_turn(3, Decision::Call), TurnOutcome::StageAdvanced);
    assert_eq!(board.round, 1);
    assert_eq!(board.revealed_middle_count(), 3);
}
