use vstd::prelude::*;

use crate::game::{
    board::{Grid, COLUMNS, ROWS},
    evaluation::{
        BLOCK_THREE_SCORE, CENTER_SCORE, THREE_SCORE, TWO_SCORE, WIN_SCORE, center_cell_score, center_score, count_in, diagonal_down_score, diagonal_up_score, horizontal_score, line, lines_score,
        row_lines_score, spec_evaluate, vertical_score, window_score,
    },
    player::Player,
    rules::{
        four_in_line, has_diagonal_down, has_diagonal_up, has_four, has_horizontal, has_vertical, spec_winner,
    },
};

verus! {

/// `b` is `a` seen in a mirror: every row read from right to left.
pub open spec fn mirrored(a: Grid, b: Grid) -> bool {
    forall|r: int, c: int| 0 <= r < ROWS && 0 <= c < COLUMNS ==> #[trigger] b[r][c] == a[r][COLUMNS - 1 - c]
}

/// Seeing a mirrored grid in the mirror gives the grid back.
pub proof fn lemma_mirrored_symmetric(a: Grid, b: Grid)
    requires
        mirrored(a, b),
    ensures
        mirrored(b, a),
{
    assert forall|r: int, c: int| 0 <= r < ROWS && 0 <= c < COLUMNS implies #[trigger] a[r][c] == b[r][COLUMNS - 1 - c] by {
        assert(b[r][COLUMNS - 1 - c] == a[r][COLUMNS - 1 - (COLUMNS - 1 - c)]);
    }
}

/// A window read backwards scores the same.
proof fn lemma_window_reversed(w: [Option<Player>; 4], v: [Option<Player>; 4])
    requires
        v[0] == w[3],
        v[1] == w[2],
        v[2] == w[1],
        v[3] == w[0],
    ensures
        window_score(v) == window_score(w),
{
    reveal_with_fuel(count_in, 5);
}

/// A window with the same cells scores the same.
proof fn lemma_window_same(w: [Option<Player>; 4], v: [Option<Player>; 4])
    requires
        v[0] == w[0],
        v[1] == w[1],
        v[2] == w[2],
        v[3] == w[3],
    ensures
        window_score(v) == window_score(w),
{
    reveal_with_fuel(count_in, 5);
}

proof fn lemma_row_horizontal(a: Grid, b: Grid, r: int)
    requires
        mirrored(a, b),
        0 <= r < ROWS,
    ensures
        row_lines_score(b, r, 4, 0, 1) == row_lines_score(a, r, 4, 0, 1),
{
    assert forall|c: int| 0 <= c < 4 implies window_score(#[trigger] line(b, r, c, 0, 1)) == window_score(
        line(a, r, 3 - c, 0, 1),
    ) by {
        let w = line(a, r, 3 - c, 0, 1);
        let v = line(b, r, c, 0, 1);
        assert(b[r][c] == a[r][COLUMNS - 1 - c]);
        assert(b[r][c + 1] == a[r][COLUMNS - 1 - (c + 1)]);
        assert(b[r][c + 2] == a[r][COLUMNS - 1 - (c + 2)]);
        assert(b[r][c + 3] == a[r][COLUMNS - 1 - (c + 3)]);
        lemma_window_reversed(w, v);
    }
    reveal_with_fuel(row_lines_score, 5);
    assert(window_score(line(b, r, 0, 0, 1)) == window_score(line(a, r, 3, 0, 1)));
    assert(window_score(line(b, r, 1, 0, 1)) == window_score(line(a, r, 2, 0, 1)));
    assert(window_score(line(b, r, 2, 0, 1)) == window_score(line(a, r, 1, 0, 1)));
    assert(window_score(line(b, r, 3, 0, 1)) == window_score(line(a, r, 0, 0, 1)));
}

proof fn lemma_row_vertical(a: Grid, b: Grid, r: int)
    requires
        mirrored(a, b),
        0 <= r < ROWS - 3,
    ensures
        row_lines_score(b, r, COLUMNS as int, 1, 0) == row_lines_score(a, r, COLUMNS as int, 1, 0),
{
    assert forall|c: int| 0 <= c < COLUMNS implies window_score(#[trigger] line(b, r, c, 1, 0)) == window_score(
        line(a, r, COLUMNS - 1 - c, 1, 0),
    ) by {
        let w = line(a, r, COLUMNS - 1 - c, 1, 0);
        let v = line(b, r, c, 1, 0);
        assert(b[r][c] == a[r][COLUMNS - 1 - c]);
        assert(b[r + 1][c] == a[r + 1][COLUMNS - 1 - c]);
        assert(b[r + 2][c] == a[r + 2][COLUMNS - 1 - c]);
        assert(b[r + 3][c] == a[r + 3][COLUMNS - 1 - c]);
        lemma_window_same(w, v);
    }
    reveal_with_fuel(row_lines_score, 8);
    assert(window_score(line(b, r, 0, 1, 0)) == window_score(line(a, r, 6, 1, 0)));
    assert(window_score(line(b, r, 1, 1, 0)) == window_score(line(a, r, 5, 1, 0)));
    assert(window_score(line(b, r, 2, 1, 0)) == window_score(line(a, r, 4, 1, 0)));
    assert(window_score(line(b, r, 3, 1, 0)) == window_score(line(a, r, 3, 1, 0)));
    assert(window_score(line(b, r, 4, 1, 0)) == window_score(line(a, r, 2, 1, 0)));
    assert(window_score(line(b, r, 5, 1, 0)) == window_score(line(a, r, 1, 1, 0)));
    assert(window_score(line(b, r, 6, 1, 0)) == window_score(line(a, r, 0, 1, 0)));
}

/// A falling diagonal of the mirrored grid is a rising diagonal of the grid.
proof fn lemma_row_falling(a: Grid, b: Grid, r: int)
    requires
        mirrored(a, b),
        0 <= r < ROWS - 3,
    ensures
        row_lines_score(b, r, 4, 1, 1) == row_lines_score(a, r + 3, 4, -1, 1),
{
    assert forall|c: int| 0 <= c < 4 implies window_score(#[trigger] line(b, r, c, 1, 1)) == window_score(
        line(a, r + 3, 3 - c, -1, 1),
    ) by {
        let w = line(a, r + 3, 3 - c, -1, 1);
        let v = line(b, r, c, 1, 1);
        assert(b[r][c] == a[r][COLUMNS - 1 - c]);
        assert(b[r + 1][c + 1] == a[r + 1][COLUMNS - 1 - (c + 1)]);
        assert(b[r + 2][c + 2] == a[r + 2][COLUMNS - 1 - (c + 2)]);
        assert(b[r + 3][c + 3] == a[r + 3][COLUMNS - 1 - (c + 3)]);
        lemma_window_reversed(w, v);
    }
    reveal_with_fuel(row_lines_score, 5);
    assert(window_score(line(b, r, 0, 1, 1)) == window_score(line(a, r + 3, 3, -1, 1)));
    assert(window_score(line(b, r, 1, 1, 1)) == window_score(line(a, r + 3, 2, -1, 1)));
    assert(window_score(line(b, r, 2, 1, 1)) == window_score(line(a, r + 3, 1, -1, 1)));
    assert(window_score(line(b, r, 3, 1, 1)) == window_score(line(a, r + 3, 0, -1, 1)));
}

/// A rising diagonal of the mirrored grid is a falling diagonal of the grid.
proof fn lemma_row_rising(a: Grid, b: Grid, r: int)
    requires
        mirrored(a, b),
        3 <= r < ROWS,
    ensures
        row_lines_score(b, r, 4, -1, 1) == row_lines_score(a, r - 3, 4, 1, 1),
{
    assert forall|c: int| 0 <= c < 4 implies window_score(#[trigger] line(b, r, c, -1, 1)) == window_score(
        line(a, r - 3, 3 - c, 1, 1),
    ) by {
        let w = line(a, r - 3, 3 - c, 1, 1);
        let v = line(b, r, c, -1, 1);
        assert(b[r][c] == a[r][COLUMNS - 1 - c]);
        assert(b[r - 1][c + 1] == a[r - 1][COLUMNS - 1 - (c + 1)]);
        assert(b[r - 2][c + 2] == a[r - 2][COLUMNS - 1 - (c + 2)]);
        assert(b[r - 3][c + 3] == a[r - 3][COLUMNS - 1 - (c + 3)]);
        lemma_window_reversed(w, v);
    }
    reveal_with_fuel(row_lines_score, 5);
    assert(window_score(line(b, r, 0, -1, 1)) == window_score(line(a, r - 3, 3, 1, 1)));
    assert(window_score(line(b, r, 1, -1, 1)) == window_score(line(a, r - 3, 2, 1, 1)));
    assert(window_score(line(b, r, 2, -1, 1)) == window_score(line(a, r - 3, 1, 1, 1)));
    assert(window_score(line(b, r, 3, -1, 1)) == window_score(line(a, r - 3, 0, 1, 1)));
}

/// Four in a row seen in a mirror is still four in a row.
proof fn lemma_has_four_mirrored(a: Grid, b: Grid, player: Player)
    requires
        mirrored(a, b),
        has_four(b, player),
    ensures
        has_four(a, player),
{
    lemma_mirrored_symmetric(a, b);
    if has_horizontal(b, player) {
        let (r, c) = choose|r: int, c: int|
            0 <= r < ROWS && 0 <= c < COLUMNS - 3 && #[trigger] four_in_line(b, r, c, 0, 1, player);
        assert(a[r][3 - c] == b[r][COLUMNS - 1 - (3 - c)]);
        assert(a[r][4 - c] == b[r][COLUMNS - 1 - (4 - c)]);
        assert(a[r][5 - c] == b[r][COLUMNS - 1 - (5 - c)]);
        assert(a[r][6 - c] == b[r][COLUMNS - 1 - (6 - c)]);
        assert(four_in_line(a, r, 3 - c, 0, 1, player));
    } else if has_vertical(b, player) {
        let (r, c) = choose|r: int, c: int|
            0 <= r < ROWS - 3 && 0 <= c < COLUMNS && #[trigger] four_in_line(b, r, c, 1, 0, player);
        assert(a[r][6 - c] == b[r][COLUMNS - 1 - (6 - c)]);
        assert(a[r + 1][6 - c] == b[r + 1][COLUMNS - 1 - (6 - c)]);
        assert(a[r + 2][6 - c] == b[r + 2][COLUMNS - 1 - (6 - c)]);
        assert(a[r + 3][6 - c] == b[r + 3][COLUMNS - 1 - (6 - c)]);
        assert(four_in_line(a, r, 6 - c, 1, 0, player));
    } else if has_diagonal_up(b, player) {
        let (r, c) = choose|r: int, c: int|
            3 <= r < ROWS && 0 <= c < COLUMNS - 3 && #[trigger] four_in_line(b, r, c, -1, 1, player);
        assert(a[r - 3][3 - c] == b[r - 3][COLUMNS - 1 - (3 - c)]);
        assert(a[r - 2][4 - c] == b[r - 2][COLUMNS - 1 - (4 - c)]);
        assert(a[r - 1][5 - c] == b[r - 1][COLUMNS - 1 - (5 - c)]);
        assert(a[r][6 - c] == b[r][COLUMNS - 1 - (6 - c)]);
        assert(four_in_line(a, r - 3, 3 - c, 1, 1, player));
    } else {
        let (r, c) = choose|r: int, c: int|
            0 <= r < ROWS - 3 && 0 <= c < COLUMNS - 3 && #[trigger] four_in_line(b, r, c, 1, 1, player);
        assert(a[r + 3][3 - c] == b[r + 3][COLUMNS - 1 - (3 - c)]);
        assert(a[r + 2][4 - c] == b[r + 2][COLUMNS - 1 - (4 - c)]);
        assert(a[r + 1][5 - c] == b[r + 1][COLUMNS - 1 - (5 - c)]);
        assert(a[r][6 - c] == b[r][COLUMNS - 1 - (6 - c)]);
        assert(four_in_line(a, r + 3, 3 - c, -1, 1, player));
    }
}

/// Law: the winner does not change when the grid is seen in a mirror.
pub proof fn lemma_winner_mirrored(a: Grid, b: Grid)
    requires
        mirrored(a, b),
    ensures
        spec_winner(b) == spec_winner(a),
{
    lemma_mirrored_symmetric(a, b);
    if has_four(b, Player::Red) {
        lemma_has_four_mirrored(a, b, Player::Red);
    }
    if has_four(a, Player::Red) {
        lemma_has_four_mirrored(b, a, Player::Red);
    }
    if has_four(b, Player::Yellow) {
        lemma_has_four_mirrored(a, b, Player::Yellow);
    }
    if has_four(a, Player::Yellow) {
        lemma_has_four_mirrored(b, a, Player::Yellow);
    }
}

/// Law: the evaluation of a position does not change when the grid is seen
/// in a mirror (each row read from right to left). The center column stays
/// in place, rows and columns of four map to rows and columns of four, and
/// a falling diagonal maps to a rising one and back: so an evaluation that
/// counted lines in one diagonal direction only, or weighed the two sides
/// of the board differently, breaks it.
pub proof fn lemma_evaluate_mirrored(a: Grid, b: Grid)
    requires
        mirrored(a, b),
    ensures
        spec_evaluate(b) == spec_evaluate(a),
{
    lemma_winner_mirrored(a, b);
    reveal_with_fuel(center_score, 7);
    assert(b[0][3] == a[0][COLUMNS - 1 - 3]);
    assert(b[1][3] == a[1][COLUMNS - 1 - 3]);
    assert(b[2][3] == a[2][COLUMNS - 1 - 3]);
    assert(b[3][3] == a[3][COLUMNS - 1 - 3]);
    assert(b[4][3] == a[4][COLUMNS - 1 - 3]);
    assert(b[5][3] == a[5][COLUMNS - 1 - 3]);
    assert(center_score(b, ROWS as int) == center_score(a, ROWS as int));
    reveal_with_fuel(lines_score, 7);
    lemma_row_horizontal(a, b, 0);
    lemma_row_horizontal(a, b, 1);
    lemma_row_horizontal(a, b, 2);
    lemma_row_horizontal(a, b, 3);
    lemma_row_horizontal(a, b, 4);
    lemma_row_horizontal(a, b, 5);
    assert(horizontal_score(b) == horizontal_score(a));
    lemma_row_vertical(a, b, 0);
    lemma_row_vertical(a, b, 1);
    lemma_row_vertical(a, b, 2);
    assert(vertical_score(b) == vertical_score(a));
    lemma_row_falling(a, b, 0);
    lemma_row_falling(a, b, 1);
    lemma_row_falling(a, b, 2);
    assert(diagonal_down_score(b) == diagonal_up_score(a));
    lemma_row_rising(a, b, 3);
    lemma_row_rising(a, b, 4);
    lemma_row_rising(a, b, 5);
    assert(diagonal_up_score(b) == diagonal_down_score(a));
}

/// Whether the four cells from `(row, column)` stepping by
/// `(row_step, column_step)` all lie on the board.
pub open spec fn fits(row: int, column: int, row_step: int, column_step: int) -> bool {
    &&& 0 <= row < ROWS
    &&& 0 <= column < COLUMNS
    &&& 0 <= row + 3 * row_step < ROWS
    &&& 0 <= column + 3 * column_step < COLUMNS
}

/// The score of a window that starts at `(row, column)` and goes by
/// `(row_step, column_step)`, or nothing when it leaves the board.
pub open spec fn window_at(grid: Grid, row: int, column: int, row_step: int, column_step: int) -> int {
    if fits(row, column, row_step, column_step) {
        window_score(line(grid, row, column, row_step, column_step))
    } else {
        0
    }
}

/// The scores of the windows that start at a cell, in each of the four
/// directions of a line (to the right, down, down to the right, up to the
/// right) in which four cells fit.
pub open spec fn cell_windows(grid: Grid, row: int, column: int) -> int {
    window_at(grid, row, column, 0, 1) + window_at(grid, row, column, 1, 0) + window_at(grid, row, column, 1, 1)
        + window_at(grid, row, column, -1, 1)
}

/// The windows starting at the first `k` cells of `row`.
pub open spec fn row_windows(grid: Grid, row: int, k: int) -> int
    decreases k,
{
    if k <= 0 {
        0
    } else {
        row_windows(grid, row, k - 1) + cell_windows(grid, row, k - 1)
    }
}

/// The windows starting in the first `n` rows: every line of four cells of
/// the board counted once.
pub open spec fn board_windows(grid: Grid, n: int) -> int
    decreases n,
{
    if n <= 0 {
        0
    } else {
        board_windows(grid, n - 1) + row_windows(grid, n - 1, COLUMNS as int)
    }
}

proof fn lemma_row_windows(grid: Grid, r: int)
    requires
        0 <= r < ROWS,
    ensures
        row_windows(grid, r, COLUMNS as int) == row_lines_score(grid, r, 4, 0, 1) + (if r < 3 {
            row_lines_score(grid, r, COLUMNS as int, 1, 0) + row_lines_score(grid, r, 4, 1, 1)
        } else {
            row_lines_score(grid, r, 4, -1, 1)
        }),
{
    reveal_with_fuel(row_windows, 8);
    reveal_with_fuel(row_lines_score, 8);
}

/// Law: without four in a row for either side, the evaluation is the score
/// of the center column plus the score of every line of four cells of the
/// board, each counted once, in all four directions: rows, columns, and
/// both diagonals (those rising to the right start in the rows 3 to 5).
pub proof fn lemma_evaluate_all_lines(grid: Grid)
    requires
        spec_winner(grid) is None,
    ensures
        spec_evaluate(grid) == center_score(grid, ROWS as int) + board_windows(grid, ROWS as int),
{
    lemma_row_windows(grid, 0);
    lemma_row_windows(grid, 1);
    lemma_row_windows(grid, 2);
    lemma_row_windows(grid, 3);
    lemma_row_windows(grid, 4);
    lemma_row_windows(grid, 5);
    reveal_with_fuel(board_windows, 7);
    reveal_with_fuel(lines_score, 7);
}

/// Law: the center column counts for each piece in it, for its side:
/// `CENTER_SCORE` for each of Red's, `-CENTER_SCORE` for each of Yellow's.
pub proof fn lemma_center_score(grid: Grid)
    ensures
        center_cell_score(Some(Player::Red)) == CENTER_SCORE,
        center_cell_score(Some(Player::Yellow)) == -CENTER_SCORE,
        center_cell_score(None) == 0,
        center_score(grid, ROWS as int) == center_cell_score(grid[0][3]) + center_cell_score(grid[1][3])
            + center_cell_score(grid[2][3]) + center_cell_score(grid[3][3]) + center_cell_score(grid[4][3])
            + center_cell_score(grid[5][3]),
{
    reveal_with_fuel(center_score, 7);
}

/// How many cells of `window` hold `cell`.
pub open spec fn cells_holding(window: [Option<Player>; 4], cell: Option<Player>) -> int {
    (if window[0] == cell { 1int } else { 0int }) + (if window[1] == cell { 1int } else { 0int }) + (if window[2]
        == cell { 1int } else { 0int }) + (if window[3] == cell { 1int } else { 0int })
}

/// Law: what a window of four cells is worth to Red. Four of a side wins
/// for that side; a window holding pieces of both sides is worth nothing;
/// otherwise three of Red's pieces and an empty cell are worth
/// `THREE_SCORE`, two and two empty cells `TWO_SCORE`, three of Yellow's
/// and an empty cell `-BLOCK_THREE_SCORE`, two and two empty `-TWO_SCORE`,
/// and a single piece or an empty window nothing.
pub proof fn lemma_window_score(window: [Option<Player>; 4])
    ensures
        ({
            let red = cells_holding(window, Some(Player::Red));
            let yellow = cells_holding(window, Some(Player::Yellow));
            &&& red == 4 ==> window_score(window) == WIN_SCORE
            &&& yellow == 4 ==> window_score(window) == -WIN_SCORE
            &&& red > 0 && yellow > 0 ==> window_score(window) == 0
            &&& yellow == 0 && red == 3 ==> window_score(window) == THREE_SCORE
            &&& yellow == 0 && red == 2 ==> window_score(window) == TWO_SCORE
            &&& red == 0 && yellow == 3 ==> window_score(window) == -BLOCK_THREE_SCORE
            &&& red == 0 && yellow == 2 ==> window_score(window) == -TWO_SCORE
            &&& red <= 1 && yellow <= 1 && !(red == 1 && yellow == 1) ==> window_score(window) == 0
        }),
{
    reveal_with_fuel(count_in, 5);
    assert(count_in(window, Some(Player::Red), 4) == cells_holding(window, Some(Player::Red)));
    assert(count_in(window, Some(Player::Yellow), 4) == cells_holding(window, Some(Player::Yellow)));
    assert(count_in(window, None, 4) == cells_holding(window, None));
    assert forall|i: int| 0 <= i < 4 implies window[i] == Some(Player::Red) || window[i] == Some(Player::Yellow)
        || window[i] is None by {
        match window[i] {
            Some(Player::Red) => {},
            Some(Player::Yellow) => {},
            None => {},
        }
    }
    assert(cells_holding(window, None) == 4 - cells_holding(window, Some(Player::Red)) - cells_holding(
        window,
        Some(Player::Yellow),
    ));
}

/// Law: a line of four cells is the cell it starts at and the three cells
/// after it, each one step `(row_step, column_step)` further.
pub proof fn lemma_line_cells(grid: Grid, row: int, column: int, row_step: int, column_step: int)
    ensures
        forall|i: int|
            0 <= i < 4 ==> #[trigger] line(grid, row, column, row_step, column_step)[i] == grid[row + i * row_step][column
                + i * column_step],
{
    assert forall|i: int| 0 <= i < 4 implies #[trigger] line(grid, row, column, row_step, column_step)[i] == grid[row + i
        * row_step][column + i * column_step] by {
        if i == 0 {
            assert(i * row_step == 0 && i * column_step == 0);
        } else if i == 1 {
            assert(i * row_step == row_step && i * column_step == column_step);
        } else if i == 2 {
            assert(i * row_step == 2 * row_step && i * column_step == 2 * column_step);
        } else {
            assert(i * row_step == 3 * row_step && i * column_step == 3 * column_step);
        }
    }
}

} // verus!
