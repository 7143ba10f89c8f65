use connect_four::game::board::Board;
use connect_four::game::game_state::GameState;
use connect_four::game::match_context::{MatchContext, MatchError};
use connect_four::game::movement::Movement;
use connect_four::game::player::Player;

#[test]
fn new_match_is_empty() {
    let context = MatchContext::new();
    assert_eq!(context.movement_count(), 0);
    assert!(context.movement_history().is_empty());
    assert_eq!(context.last_movement(), None);
    assert_eq!(context.game_state(), GameState::InProgress);
    assert!(!context.is_finished());
    assert_eq!(context.board().zobrist_hash(), 0);
}

#[test]
fn play_records_history() {
    let mut context = MatchContext::new();
    context.play(Movement::new(2)).unwrap();
    context.play(Movement::new(5)).unwrap();
    assert_eq!(context.movement_count(), 2);
    assert_eq!(context.movement_history(), &[Movement::new(2), Movement::new(5)]);
    assert_eq!(context.last_movement(), Some(Movement::new(5)));
    assert_eq!(context.board().grid()[5][2], Some(Player::Red));
    assert_eq!(context.board().grid()[5][5], Some(Player::Yellow));
    assert_eq!(context.board().current_player(), Player::Red);
}

#[test]
fn full_column_is_refused_and_nothing_changes() {
    let mut context = MatchContext::new();
    for _ in 0..6 {
        context.play(Movement::new(4)).unwrap();
    }
    let hash = context.board().zobrist_hash();
    match context.play(Movement::new(4)) {
        Err(MatchError::InvalidMovement(movement)) => assert_eq!(movement, Movement::new(4)),
        Ok(()) => panic!("a full column was accepted"),
    }
    assert_eq!(context.movement_count(), 6);
    assert_eq!(context.board().zobrist_hash(), hash);
    assert_eq!(context.board().movements_played(), 6);
}

#[test]
fn match_finishes_on_a_win() {
    let mut context = MatchContext::new();
    for column in [0, 0, 1, 1, 2, 2] {
        context.play(Movement::new(column)).unwrap();
        assert!(!context.is_finished());
    }
    context.play(Movement::new(3)).unwrap();
    assert!(context.is_finished());
    assert_eq!(context.game_state(), GameState::Win(Player::Red));
}

#[test]
fn same_position_by_different_orders_has_same_hash() {
    let mut first = MatchContext::new();
    let mut second = MatchContext::new();
    for column in [0, 1, 2] {
        first.play(Movement::new(column)).unwrap();
    }
    for column in [2, 1, 0] {
        second.play(Movement::new(column)).unwrap();
    }
    assert_eq!(first.board().grid(), second.board().grid());
    assert_eq!(first.board().zobrist_hash(), second.board().zobrist_hash());
    assert_ne!(first.board().zobrist_hash(), 0);
}

#[test]
fn board_matches_replay_of_history() {
    let mut context = MatchContext::new();
    for column in [3, 3, 4, 2, 6, 0] {
        context.play(Movement::new(column)).unwrap();
    }
    let mut board = Board::new();
    for movement in context.movement_history() {
        board = board.apply_movement(*movement, Some(context.zobrist())).unwrap();
    }
    assert_eq!(board.grid(), context.board().grid());
    assert_eq!(board.zobrist_hash(), context.board().zobrist_hash());
    assert_eq!(board.movements_played(), context.movement_count());
}

#[test]
fn draw_when_board_is_full_without_four() {
    // Columns filled in pairs so that no line of four appears.
    let order = [0, 1, 0, 1, 0, 1, 1, 0, 1, 0, 1, 0, 2, 3, 2, 3, 2, 3, 3, 2, 3, 2, 3, 2, 4, 5, 4, 5, 4, 5, 5, 4, 5, 4, 5, 4, 6, 6, 6, 6, 6, 6];
    let mut context = MatchContext::new();
    for column in order {
        assert_eq!(context.game_state(), GameState::InProgress);
        context.play(Movement::new(column)).unwrap();
    }
    assert_eq!(context.board().movements_played(), 42);
    assert_eq!(context.game_state(), GameState::Draw);
    assert!(context.board().legal_movements().is_empty());
}
