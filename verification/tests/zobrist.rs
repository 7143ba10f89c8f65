use connect_four::game::board::Board;
use connect_four::game::movement::Movement;
use connect_four::game::zobrist::ZobristTable;
use std::collections::HashSet;

#[test]
fn same_position_should_have_same_hash() {
    let zobrist = ZobristTable::new();

    let board1 = Board::new()
        .apply_movement(Movement::new(3), Some(&zobrist))
        .unwrap();

    let board2 = Board::new()
        .apply_movement(Movement::new(3), Some(&zobrist))
        .unwrap();

    assert_eq!(board1.zobrist_hash(), board2.zobrist_hash());
}

#[test]
fn different_positions_should_have_different_hashes() {
    let zobrist = ZobristTable::new();

    let board1 = Board::new()
        .apply_movement(Movement::new(3), Some(&zobrist))
        .unwrap();

    let board2 = Board::new()
        .apply_movement(Movement::new(4), Some(&zobrist))
        .unwrap();

    assert_ne!(board1.zobrist_hash(), board2.zobrist_hash());
}

#[test]
fn side_to_move_should_change_hash() {
    let zobrist = ZobristTable::new();

    let board1 = Board::new();

    let board2 = board1
        .apply_movement(Movement::new(0), Some(&zobrist))
        .unwrap();

    assert_ne!(board1.zobrist_hash(), board2.zobrist_hash());
}

#[test]
fn should_not_collide_in_small_sample() {
    let zobrist = ZobristTable::new();

    let mut hashes = HashSet::new();

    for column in 0..7 {
        let board = Board::new()
            .apply_movement(Movement::new(column), Some(&zobrist))
            .unwrap();

        assert!(hashes.insert(board.zobrist_hash()));
    }
}
