use vstd::prelude::*;

use crate::game::{
    board::{lemma_in_progress_has_move, lemma_legal_columns, lemma_lowest_empty_some, Board, ROWS},
    evaluation::{lemma_evaluate_within_win, lemma_evaluation_bound_fits, spec_evaluate, WIN_SCORE},
    game_state::GameState,
    player::Player,
    rules::spec_winner,
};

verus! {

/// The position after the side to move drops a piece into `column` (the
/// hash is left as it is).
pub open spec fn child_position(board: Board, column: usize) -> Board {
    board.spec_apply(column as int, None)->0
}

/// The value of the `index`-th legal movement of `board`: the minimax value
/// of the position it leads to, searched one level less deep by the other
/// side.
pub open spec fn child_value(board: Board, depth: nat, maximizing: bool, index: int) -> int
    decreases depth, 0nat, 0nat,
{
    if depth == 0 || index < 0 {
        0
    } else {
        minimax_value(child_position(board, board.spec_legal_columns()[index]), (depth - 1) as nat, !maximizing)
    }
}

/// The depth-limited minimax value of `board` for Red: the evaluation at the
/// depth horizon or when the match is over; otherwise the largest (Red to
/// choose) or smallest (Yellow to choose) value of the legal movements.
pub open spec fn minimax_value(board: Board, depth: nat, maximizing: bool) -> int
    decreases depth, 2nat, 0nat,
{
    if depth == 0 || !(board.spec_game_state() is InProgress) {
        spec_evaluate(board.spec_grid())
    } else {
        children_value(board, depth, maximizing, board.spec_legal_columns().len())
    }
}

/// The best of the values of the first `k` legal movements, starting from
/// `isize::MIN` when maximizing and from `isize::MAX` when minimizing.
pub open spec fn children_value(board: Board, depth: nat, maximizing: bool, k: nat) -> int
    decreases depth, 1nat, k,
{
    if depth == 0 || k == 0 {
        if maximizing {
            isize::MIN as int
        } else {
            isize::MAX as int
        }
    } else {
        let previous = children_value(board, depth, maximizing, (k - 1) as nat);
        let value = child_value(board, depth, maximizing, k - 1);
        if maximizing {
            if value > previous {
                value
            } else {
                previous
            }
        } else {
            if value < previous {
                value
            } else {
                previous
            }
        }
    }
}

/// Among the first `k` legal movements, the best value and the index of the
/// first movement that reaches it (a later movement replaces the best only
/// when it is strictly better).
pub open spec fn best_choice(board: Board, depth: nat, maximizing: bool, k: nat) -> (int, int)
    decreases k,
{
    if k == 0 {
        (if maximizing {
            isize::MIN as int
        } else {
            isize::MAX as int
        }, 0)
    } else {
        let previous = best_choice(board, depth, maximizing, (k - 1) as nat);
        let value = child_value(board, depth, maximizing, k - 1);
        if (maximizing && value > previous.0) || (!maximizing && value < previous.0) {
            (value, k - 1)
        } else {
            previous
        }
    }
}

/// The movement that plain minimax chooses at the root: the first legal
/// movement with the best value for the side to move (Red maximizes).
pub open spec fn minimax_choice(board: Board, depth: nat) -> usize {
    let maximizing = board.spec_current_player() == Player::Red;
    board.spec_legal_columns()[best_choice(board, depth, maximizing, board.spec_legal_columns().len()).1]
}

/// The result `value` of a search of `board` with the window
/// `(alpha, beta)` bounds the minimax value the way alpha-beta promises: a
/// result at or below `alpha` is an upper bound, one at or above `beta` a
/// lower bound, and one strictly inside the window is exact.
pub open spec fn alpha_beta_sound(board: Board, depth: nat, maximizing: bool, alpha: int, beta: int, value: int) -> bool {
    let exact = minimax_value(board, depth, maximizing);
    &&& value <= alpha ==> exact <= value
    &&& value >= beta ==> exact >= value
    &&& alpha < value < beta ==> exact == value
}

/// The best value over more movements is at least as good.
pub proof fn lemma_children_value_monotone(board: Board, depth: nat, maximizing: bool, k: nat, n: nat)
    requires
        k <= n,
        depth > 0,
    ensures
        maximizing ==> children_value(board, depth, maximizing, k) <= children_value(board, depth, maximizing, n),
        !maximizing ==> children_value(board, depth, maximizing, k) >= children_value(board, depth, maximizing, n),
    decreases n - k,
{
    if k < n {
        lemma_children_value_monotone(board, depth, maximizing, k, (n - 1) as nat);
    }
}

/// The best value of `best_choice` is the fold of `children_value`, and its
/// index names one of the movements considered.
pub proof fn lemma_best_choice(board: Board, depth: nat, maximizing: bool, k: nat)
    requires
        depth > 0,
    ensures
        best_choice(board, depth, maximizing, k).0 == children_value(board, depth, maximizing, k),
        k > 0 ==> 0 <= best_choice(board, depth, maximizing, k).1 < k,
    decreases k,
{
    if k > 0 {
        lemma_best_choice(board, depth, maximizing, (k - 1) as nat);
    }
}

/// The position after a legal movement of a reachable position is reachable.
pub proof fn lemma_child_wf(board: Board, column: usize)
    requires
        board.wf(),
        board.spec_is_legal(column as int),
    ensures
        board.spec_apply(column as int, None) is Some,
        child_position(board, column).wf(),
{
    lemma_lowest_empty_some(board.spec_grid(), column as int);
    board.lemma_apply(column as int, None);
}

/// Minimax values of reachable positions never go past the win score.
pub proof fn lemma_minimax_value_bound(board: Board, depth: nat, maximizing: bool)
    requires
        board.wf(),
    ensures
        -WIN_SCORE <= minimax_value(board, depth, maximizing) <= WIN_SCORE,
    decreases depth, 2nat, 0nat,
{
    lemma_evaluate_within_win(board.spec_grid());
    if depth > 0 && board.spec_game_state() is InProgress {
        lemma_in_progress_has_move(board);
        lemma_children_value_bound(board, depth, maximizing, board.spec_legal_columns().len());
    }
}

/// The value of each legal movement of a reachable position stays within
/// the win score.
pub proof fn lemma_child_value_bound(board: Board, depth: nat, maximizing: bool, index: int)
    requires
        board.wf(),
        depth > 0,
        0 <= index < board.spec_legal_columns().len(),
    ensures
        -WIN_SCORE <= child_value(board, depth, maximizing, index) <= WIN_SCORE,
    decreases depth, 1nat, 0nat,
{
    lemma_legal_columns(board);
    let column = board.spec_legal_columns()[index];
    lemma_child_wf(board, column);
    lemma_minimax_value_bound(child_position(board, column), (depth - 1) as nat, !maximizing);
}

proof fn lemma_children_value_bound(board: Board, depth: nat, maximizing: bool, k: nat)
    requires
        board.wf(),
        depth > 0,
        1 <= k <= board.spec_legal_columns().len(),
    ensures
        -WIN_SCORE <= children_value(board, depth, maximizing, k) <= WIN_SCORE,
    decreases depth, 1nat, k,
{
    lemma_evaluation_bound_fits();
    lemma_child_value_bound(board, depth, maximizing, k - 1);
    if k > 1 {
        lemma_children_value_bound(board, depth, maximizing, (k - 1) as nat);
    } else {
        assert(children_value(board, depth, maximizing, 0) == if maximizing {
            isize::MIN as int
        } else {
            isize::MAX as int
        });
    }
}

/// The fold is at least (maximizing) or at most (minimizing) the value of
/// every movement it has seen.
proof fn lemma_children_value_covers(board: Board, depth: nat, maximizing: bool, k: nat, index: int)
    requires
        depth > 0,
        0 <= index < k,
    ensures
        maximizing ==> children_value(board, depth, maximizing, k) >= child_value(board, depth, maximizing, index),
        !maximizing ==> children_value(board, depth, maximizing, k) <= child_value(board, depth, maximizing, index),
    decreases k,
{
    if index < k - 1 {
        lemma_children_value_covers(board, depth, maximizing, (k - 1) as nat, index);
    }
}

/// The best value of `best_choice` is the value of the movement it names.
proof fn lemma_best_choice_names_value(board: Board, depth: nat, maximizing: bool, k: nat)
    requires
        board.wf(),
        depth > 0,
        1 <= k <= board.spec_legal_columns().len(),
    ensures
        best_choice(board, depth, maximizing, k).0 == child_value(
            board,
            depth,
            maximizing,
            best_choice(board, depth, maximizing, k).1,
        ),
    decreases k,
{
    lemma_evaluation_bound_fits();
    lemma_child_value_bound(board, depth, maximizing, k - 1);
    if k > 1 {
        lemma_best_choice_names_value(board, depth, maximizing, (k - 1) as nat);
    } else {
        assert(best_choice(board, depth, maximizing, 0).0 == if maximizing {
            isize::MIN as int
        } else {
            isize::MAX as int
        });
    }
}

/// Law: an immediate win is never missed. When the side to move has a legal
/// movement after which it has four in a row, the movement that minimax
/// chooses (searching at least one movement ahead) has the winning value:
/// `WIN_SCORE` for Red, `-WIN_SCORE` for Yellow.
pub proof fn lemma_immediate_win_is_taken(board: Board, depth: nat, column: usize)
    requires
        board.wf(),
        depth >= 1,
        board.spec_is_legal(column as int),
        spec_winner(child_position(board, column).spec_grid()) == Some(board.spec_current_player()),
    ensures
        ({
            let maximizing = board.spec_current_player() == Player::Red;
            let n = board.spec_legal_columns().len();
            let chosen = best_choice(board, depth, maximizing, n).1;
            &&& 0 <= chosen < n
            &&& minimax_choice(board, depth) == board.spec_legal_columns()[chosen]
            &&& child_value(board, depth, maximizing, chosen) == if maximizing {
                WIN_SCORE as int
            } else {
                -WIN_SCORE
            }
        }),
{
    let maximizing = board.spec_current_player() == Player::Red;
    let n = board.spec_legal_columns().len();
    lemma_legal_columns(board);
    let index = choose|i: int| 0 <= i < n && board.spec_legal_columns()[i] == column;
    let child = child_position(board, column);
    lemma_child_wf(board, column);
    lemma_evaluate_within_win(child.spec_grid());
    assert(!(child.spec_game_state() is InProgress));
    assert(child_value(board, depth, maximizing, index) == spec_evaluate(child.spec_grid()));
    lemma_children_value_covers(board, depth, maximizing, n, index);
    lemma_children_value_bound(board, depth, maximizing, n);
    lemma_best_choice(board, depth, maximizing, n);
    lemma_best_choice_names_value(board, depth, maximizing, n);
}

} // verus!
