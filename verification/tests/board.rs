use connect_four::game::board::Board;
use connect_four::game::game_state::GameState;
use connect_four::game::movement::Movement;
use connect_four::game::player::Player;

#[test]
fn should_create_empty_board() {
    let board = Board::new();
    assert_eq!(board.grid(), [[None; 7]; 6]);
    assert_eq!(board.movements_played(), 0);
    assert_eq!(board.current_player(), Player::Red);
    assert_eq!(board.game_state(), GameState::InProgress);
}

#[test]
fn should_generate_seven_legal_movements() {
    let board = Board::new();
    let movements = board.legal_movements();
    assert_eq!(movements.len(), 7);
}

#[test]
fn should_drop_piece_at_bottom() {
    let board = Board::new();

    let board = board.apply_movement(Movement::new(3), None).unwrap();
    assert_eq!(board.grid()[5][3], Some(Player::Red));
}

#[test]
fn should_stack_pieces() {
    let board = Board::new();

    let board = board.apply_movement(Movement::new(3), None).unwrap();
    let board = board.apply_movement(Movement::new(3), None).unwrap();

    assert_eq!(board.grid()[5][3], Some(Player::Red));
    assert_eq!(board.grid()[4][3], Some(Player::Yellow));
}

#[test]
fn should_not_allow_full_column() {
    let mut board = Board::new();

    for _ in 0..6 {
        board = board.apply_movement(Movement::new(0), None).unwrap();
    }
    assert!(board.apply_movement(Movement::new(0), None).is_none());
}

#[test]
fn should_detect_horizontal_win() {
    let mut board = Board::new();

    board = board.apply_movement(Movement::new(0), None).unwrap();
    board = board.apply_movement(Movement::new(0), None).unwrap();

    board = board.apply_movement(Movement::new(1), None).unwrap();
    board = board.apply_movement(Movement::new(1), None).unwrap();

    board = board.apply_movement(Movement::new(2), None).unwrap();
    board = board.apply_movement(Movement::new(2), None).unwrap();

    board = board.apply_movement(Movement::new(3), None).unwrap();

    assert_eq!(board.game_state(), GameState::Win(Player::Red));
}

#[test]
fn should_detect_vertical_win() {
    let mut board = Board::new();

    board = board.apply_movement(Movement::new(0), None).unwrap();
    board = board.apply_movement(Movement::new(1), None).unwrap();

    board = board.apply_movement(Movement::new(0), None).unwrap();
    board = board.apply_movement(Movement::new(1), None).unwrap();

    board = board.apply_movement(Movement::new(0), None).unwrap();
    board = board.apply_movement(Movement::new(1), None).unwrap();

    board = board.apply_movement(Movement::new(0), None).unwrap();

    assert_eq!(board.game_state(), GameState::Win(Player::Red));
}

#[test]
fn should_detect_diagonal_up_win() {
    let mut board = Board::new();

    board = board.apply_movement(Movement::new(0), None).unwrap();
    board = board.apply_movement(Movement::new(6), None).unwrap();

    board = board.apply_movement(Movement::new(1), None).unwrap();
    board = board.apply_movement(Movement::new(6), None).unwrap();
    board = board.apply_movement(Movement::new(1), None).unwrap();
    board = board.apply_movement(Movement::new(6), None).unwrap();

    board = board.apply_movement(Movement::new(2), None).unwrap();
    board = board.apply_movement(Movement::new(5), None).unwrap();
    board = board.apply_movement(Movement::new(2), None).unwrap();
    board = board.apply_movement(Movement::new(5), None).unwrap();
    board = board.apply_movement(Movement::new(2), None).unwrap();
    board = board.apply_movement(Movement::new(5), None).unwrap();

    board = board.apply_movement(Movement::new(4), None).unwrap();
    board = board.apply_movement(Movement::new(3), None).unwrap();
    board = board.apply_movement(Movement::new(4), None).unwrap();
    board = board.apply_movement(Movement::new(3), None).unwrap();
    board = board.apply_movement(Movement::new(4), None).unwrap();
    board = board.apply_movement(Movement::new(3), None).unwrap();
    board = board.apply_movement(Movement::new(3), None).unwrap();

    assert_eq!(board.game_state(), GameState::Win(Player::Red));
}

#[test]
fn should_detect_diagonal_down_win() {
    let mut board = Board::new();

    board = board.apply_movement(Movement::new(5), None).unwrap();
    board = board.apply_movement(Movement::new(5), None).unwrap();

    board = board.apply_movement(Movement::new(3), None).unwrap();
    board = board.apply_movement(Movement::new(4), None).unwrap();
    board = board.apply_movement(Movement::new(4), None).unwrap();
    board = board.apply_movement(Movement::new(3), None).unwrap();

    board = board.apply_movement(Movement::new(3), None).unwrap();
    board = board.apply_movement(Movement::new(2), None).unwrap();
    board = board.apply_movement(Movement::new(2), None).unwrap();
    board = board.apply_movement(Movement::new(2), None).unwrap();
    board = board.apply_movement(Movement::new(2), None).unwrap();

    assert_eq!(board.game_state(), GameState::Win(Player::Red));
}
