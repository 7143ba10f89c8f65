use connect_four::game::board::Board;
use connect_four::game::evaluation::evaluate;
use connect_four::game::movement::Movement;
use connect_four::game::rules::winner;
use connect_four::game::player::Player;

fn play(columns: &[usize]) -> Board {
    let mut board = Board::new();
    for &column in columns {
        board = board.apply_movement(Movement::new(column), None).unwrap();
    }
    board
}

#[test]
fn empty_board_evaluates_to_zero() {
    assert_eq!(evaluate(&Board::new()), 0);
    assert_eq!(Board::new().evaluate(), 0);
}

#[test]
fn center_piece_scores_center_bonus() {
    // One red piece at the bottom of the center column: the center bonus
    // alone, every window holding it has one piece.
    assert_eq!(play(&[3]).evaluate(), 6);
    // A yellow piece answering on top takes the bonus back.
    assert_eq!(play(&[3, 3]).evaluate(), 0);
}

#[test]
fn two_and_three_in_a_row_score() {
    // Red at the bottom of columns 0 and 1: two windows with two reds and
    // two empties, yellow on top of column 0 in one window with three empties.
    let board = play(&[0, 6, 1]);
    // Windows along the bottom row: [0..4) has red 2, empty 2 -> +10;
    // [1..5) red 1; [2..6) none; [3..7) yellow 1 (column 6).
    // Vertical and diagonal windows hold at most one piece each.
    assert_eq!(board.evaluate(), 10);
}

#[test]
fn win_scores_win_score() {
    let board = play(&[0, 0, 1, 1, 2, 2, 3]);
    assert_eq!(winner(&board), Some(Player::Red));
    assert_eq!(board.evaluate(), 1_000_000);

    let board = play(&[6, 0, 0, 1, 1, 2, 2, 3]);
    assert_eq!(winner(&board), Some(Player::Yellow));
    assert_eq!(board.evaluate(), -1_000_000);
}

#[test]
fn no_winner_on_scattered_board() {
    assert_eq!(winner(&play(&[0, 1, 2, 3, 4, 5, 6])), None);
}
