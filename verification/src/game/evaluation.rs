use vstd::prelude::*;

use crate::game::{
    board::{Board, Grid, COLUMNS, ROWS},
    player::Player,
    rules::{four_in_line, has_four, spec_winner, winner},
};

verus! {

pub const WIN_SCORE: isize = 1_000_000;

pub const THREE_SCORE: isize = 100;

pub const TWO_SCORE: isize = 10;

pub const BLOCK_THREE_SCORE: isize = 80;

pub const CENTER_SCORE: isize = 6;

/// How many of the first `k` cells of `window` equal `value`.
pub open spec fn count_in(window: [Option<Player>; 4], value: Option<Player>, k: int) -> int
    decreases k,
{
    if k <= 0 {
        0
    } else {
        count_in(window, value, k - 1) + if window[k - 1] == value {
            1int
        } else {
            0int
        }
    }
}

/// Score of four cells in a line, from Red's point of view: four of a side
/// is a win for it; otherwise three of a side with one empty cell, or two
/// with two empty cells, count for or against Red.
pub open spec fn window_score(window: [Option<Player>; 4]) -> int {
    let red = count_in(window, Some(Player::Red), 4);
    let yellow = count_in(window, Some(Player::Yellow), 4);
    let empty = count_in(window, None, 4);
    if red == 4 {
        WIN_SCORE as int
    } else if yellow == 4 {
        -WIN_SCORE
    } else {
        (if red == 3 && empty == 1 { THREE_SCORE as int } else { 0 })
            + (if red == 2 && empty == 2 { TWO_SCORE as int } else { 0 })
            - (if yellow == 3 && empty == 1 { BLOCK_THREE_SCORE as int } else { 0 })
            - (if yellow == 2 && empty == 2 { TWO_SCORE as int } else { 0 })
    }
}

/// The four cells from `(row, column)` stepping by `(row_step, column_step)`.
pub open spec fn line(grid: Grid, row: int, column: int, row_step: int, column_step: int) -> [Option<Player>; 4] {
    [
        grid[row][column],
        grid[row + row_step][column + column_step],
        grid[row + 2 * row_step][column + 2 * column_step],
        grid[row + 3 * row_step][column + 3 * column_step],
    ]
}

/// Sum of the window scores of the lines starting in `row` at the columns
/// `0..k`.
pub open spec fn row_lines_score(grid: Grid, row: int, k: int, row_step: int, column_step: int) -> int
    decreases k,
{
    if k <= 0 {
        0
    } else {
        row_lines_score(grid, row, k - 1, row_step, column_step) + window_score(
            line(grid, row, k - 1, row_step, column_step),
        )
    }
}

/// Sum of the window scores of the lines starting in rows `low..high` at the
/// columns `0..columns`.
pub open spec fn lines_score(grid: Grid, low: int, high: int, columns: int, row_step: int, column_step: int) -> int
    decreases high - low,
{
    if high <= low {
        0
    } else {
        lines_score(grid, low, high - 1, columns, row_step, column_step) + row_lines_score(
            grid,
            high - 1,
            columns,
            row_step,
            column_step,
        )
    }
}

/// Score of a cell of the center column.
pub open spec fn center_cell_score(cell: Option<Player>) -> int {
    match cell {
        Some(Player::Red) => CENTER_SCORE as int,
        Some(Player::Yellow) => -CENTER_SCORE,
        None => 0,
    }
}

/// Sum of the center-cell scores of the rows `0..n`.
pub open spec fn center_score(grid: Grid, n: int) -> int
    decreases n,
{
    if n <= 0 {
        0
    } else {
        center_score(grid, n - 1) + center_cell_score(grid[n - 1][(COLUMNS / 2) as int])
    }
}

pub open spec fn horizontal_score(grid: Grid) -> int {
    lines_score(grid, 0, ROWS as int, COLUMNS - 3, 0, 1)
}

pub open spec fn vertical_score(grid: Grid) -> int {
    lines_score(grid, 0, ROWS - 3, COLUMNS as int, 1, 0)
}

pub open spec fn diagonal_down_score(grid: Grid) -> int {
    lines_score(grid, 0, ROWS - 3, COLUMNS - 3, 1, 1)
}

pub open spec fn diagonal_up_score(grid: Grid) -> int {
    lines_score(grid, 3, ROWS as int, COLUMNS - 3, -1, 1)
}

/// Heuristic value of a position for Red: `WIN_SCORE` when Red has four in
/// a row, `-WIN_SCORE` when Yellow has, else the center-column score plus
/// the window scores of every line of four in the four directions.
pub open spec fn spec_evaluate(grid: Grid) -> int {
    match spec_winner(grid) {
        Some(Player::Red) => WIN_SCORE as int,
        Some(Player::Yellow) => -WIN_SCORE,
        None => center_score(grid, ROWS as int) + horizontal_score(grid) + vertical_score(grid)
            + diagonal_down_score(grid) + diagonal_up_score(grid),
    }
}

/// The largest absolute value that `spec_evaluate` takes.
pub open spec fn evaluation_bound() -> int {
    4 * 42 * WIN_SCORE + 6 * CENTER_SCORE
}

/// The evaluation bound lies strictly inside the range of `isize`.
pub proof fn lemma_evaluation_bound_fits()
    ensures
        0 < evaluation_bound(),
        isize::MIN < -evaluation_bound(),
        evaluation_bound() < isize::MAX,
{
    assert(isize::MIN <= -0x8000_0000);
}

proof fn lemma_count_in_bound(window: [Option<Player>; 4], value: Option<Player>, k: int)
    requires
        0 <= k <= 4,
    ensures
        0 <= count_in(window, value, k) <= k,
    decreases k,
{
    if k > 0 {
        lemma_count_in_bound(window, value, k - 1);
    }
}

/// A window scores at most `WIN_SCORE` either way.
pub proof fn lemma_window_score_bound(window: [Option<Player>; 4])
    ensures
        -WIN_SCORE <= window_score(window) <= WIN_SCORE,
{
}

proof fn lemma_row_lines_score_bound(grid: Grid, row: int, k: int, row_step: int, column_step: int)
    requires
        0 <= k,
    ensures
        -k * WIN_SCORE <= row_lines_score(grid, row, k, row_step, column_step) <= k * WIN_SCORE,
    decreases k,
{
    if k > 0 {
        lemma_row_lines_score_bound(grid, row, k - 1, row_step, column_step);
        lemma_window_score_bound(line(grid, row, k - 1, row_step, column_step));
    }
}

proof fn lemma_lines_score_bound(grid: Grid, low: int, high: int, columns: int, row_step: int, column_step: int)
    requires
        low <= high,
        0 <= columns <= COLUMNS,
    ensures
        -(high - low) * 7 * WIN_SCORE <= lines_score(grid, low, high, columns, row_step, column_step)
            <= (high - low) * 7 * WIN_SCORE,
    decreases high - low,
{
    if high > low {
        lemma_lines_score_bound(grid, low, high - 1, columns, row_step, column_step);
        lemma_row_lines_score_bound(grid, high - 1, columns, row_step, column_step);
        assert(-columns * WIN_SCORE >= -7 * WIN_SCORE) by (nonlinear_arith)
            requires
                0 <= columns <= 7,
        ;
        assert(columns * WIN_SCORE <= 7 * WIN_SCORE) by (nonlinear_arith)
            requires
                0 <= columns <= 7,
        ;
    }
}

proof fn lemma_center_score_bound(grid: Grid, n: int)
    requires
        0 <= n,
    ensures
        -n * CENTER_SCORE <= center_score(grid, n) <= n * CENTER_SCORE,
    decreases n,
{
    if n > 0 {
        lemma_center_score_bound(grid, n - 1);
    }
}

/// Every evaluation lies within `evaluation_bound()` either way.
pub proof fn lemma_evaluate_bound(grid: Grid)
    ensures
        -evaluation_bound() <= spec_evaluate(grid) <= evaluation_bound(),
{
    lemma_center_score_bound(grid, ROWS as int);
    lemma_lines_score_bound(grid, 0, ROWS as int, COLUMNS - 3, 0, 1);
    lemma_lines_score_bound(grid, 0, ROWS - 3, COLUMNS as int, 1, 0);
    lemma_lines_score_bound(grid, 0, ROWS - 3, COLUMNS - 3, 1, 1);
    lemma_lines_score_bound(grid, 3, ROWS as int, COLUMNS - 3, -1, 1);
}

proof fn lemma_count_in_all(window: [Option<Player>; 4], value: Option<Player>, k: int)
    requires
        0 <= k <= 4,
        count_in(window, value, k) == k,
    ensures
        forall|j: int| 0 <= j < k ==> window[j] == value,
    decreases k,
{
    if k > 0 {
        lemma_count_in_bound(window, value, k - 1);
        lemma_count_in_all(window, value, k - 1);
    }
}

/// A window that is not four of one side scores between -100 and 100.
proof fn lemma_window_score_small(window: [Option<Player>; 4])
    requires
        !(forall|k: int| 0 <= k < 4 ==> window[k] == Some(Player::Red)),
        !(forall|k: int| 0 <= k < 4 ==> window[k] == Some(Player::Yellow)),
    ensures
        -100 <= window_score(window) <= 100,
{
    if count_in(window, Some(Player::Red), 4) == 4 {
        lemma_count_in_all(window, Some(Player::Red), 4);
    }
    if count_in(window, Some(Player::Yellow), 4) == 4 {
        lemma_count_in_all(window, Some(Player::Yellow), 4);
    }
}

/// Neither side has four on the line from `(row, column)`.
pub open spec fn no_four_at(grid: Grid, row: int, column: int, row_step: int, column_step: int) -> bool {
    !four_in_line(grid, row, column, row_step, column_step, Player::Red) && !four_in_line(
        grid,
        row,
        column,
        row_step,
        column_step,
        Player::Yellow,
    )
}

proof fn lemma_line_small(grid: Grid, row: int, column: int, row_step: int, column_step: int)
    requires
        no_four_at(grid, row, column, row_step, column_step),
    ensures
        -100 <= window_score(line(grid, row, column, row_step, column_step)) <= 100,
{
    let w = line(grid, row, column, row_step, column_step);
    assert(w[0] == grid[row][column]);
    assert(w[1] == grid[row + row_step][column + column_step]);
    assert(w[2] == grid[row + 2 * row_step][column + 2 * column_step]);
    assert(w[3] == grid[row + 3 * row_step][column + 3 * column_step]);
    lemma_window_score_small(w);
}

proof fn lemma_row_lines_small(grid: Grid, row: int, k: int, row_step: int, column_step: int)
    requires
        0 <= k,
        forall|c: int| 0 <= c < k ==> #[trigger] no_four_at(grid, row, c, row_step, column_step),
    ensures
        -100 * k <= row_lines_score(grid, row, k, row_step, column_step) <= 100 * k,
    decreases k,
{
    if k > 0 {
        lemma_row_lines_small(grid, row, k - 1, row_step, column_step);
        assert(no_four_at(grid, row, k - 1, row_step, column_step));
        lemma_line_small(grid, row, k - 1, row_step, column_step);
    }
}

proof fn lemma_lines_small(grid: Grid, low: int, high: int, columns: int, row_step: int, column_step: int)
    requires
        low <= high,
        0 <= columns <= COLUMNS,
        forall|r: int, c: int| low <= r < high && 0 <= c < columns ==> #[trigger] no_four_at(grid, r, c, row_step, column_step),
    ensures
        -700 * (high - low) <= lines_score(grid, low, high, columns, row_step, column_step) <= 700 * (high - low),
    decreases high - low,
{
    if high > low {
        lemma_lines_small(grid, low, high - 1, columns, row_step, column_step);
        lemma_row_lines_small(grid, high - 1, columns, row_step, column_step);
    }
}

/// Without four in a row for either side, the evaluation is far below the
/// win score either way.
pub proof fn lemma_evaluate_without_four(grid: Grid)
    requires
        !has_four(grid, Player::Red),
        !has_four(grid, Player::Yellow),
    ensures
        -WIN_SCORE < spec_evaluate(grid) < WIN_SCORE,
{
    lemma_center_score_bound(grid, ROWS as int);
    assert forall|r: int, c: int| 0 <= r < ROWS && 0 <= c < COLUMNS - 3 implies #[trigger] no_four_at(grid, r, c, 0, 1) by {
        if four_in_line(grid, r, c, 0, 1, Player::Red) {
            assert(crate::game::rules::has_horizontal(grid, Player::Red));
        }
        if four_in_line(grid, r, c, 0, 1, Player::Yellow) {
            assert(crate::game::rules::has_horizontal(grid, Player::Yellow));
        }
    }
    assert forall|r: int, c: int| 0 <= r < ROWS - 3 && 0 <= c < COLUMNS implies #[trigger] no_four_at(grid, r, c, 1, 0) by {
        if four_in_line(grid, r, c, 1, 0, Player::Red) {
            assert(crate::game::rules::has_vertical(grid, Player::Red));
        }
        if four_in_line(grid, r, c, 1, 0, Player::Yellow) {
            assert(crate::game::rules::has_vertical(grid, Player::Yellow));
        }
    }
    assert forall|r: int, c: int| 0 <= r < ROWS - 3 && 0 <= c < COLUMNS - 3 implies #[trigger] no_four_at(grid, r, c, 1, 1) by {
        if four_in_line(grid, r, c, 1, 1, Player::Red) {
            assert(crate::game::rules::has_diagonal_down(grid, Player::Red));
        }
        if four_in_line(grid, r, c, 1, 1, Player::Yellow) {
            assert(crate::game::rules::has_diagonal_down(grid, Player::Yellow));
        }
    }
    assert forall|r: int, c: int| 3 <= r < ROWS && 0 <= c < COLUMNS - 3 implies #[trigger] no_four_at(grid, r, c, -1, 1) by {
        if four_in_line(grid, r, c, -1, 1, Player::Red) {
            assert(crate::game::rules::has_diagonal_up(grid, Player::Red));
        }
        if four_in_line(grid, r, c, -1, 1, Player::Yellow) {
            assert(crate::game::rules::has_diagonal_up(grid, Player::Yellow));
        }
    }
    lemma_lines_small(grid, 0, ROWS as int, COLUMNS - 3, 0, 1);
    lemma_lines_small(grid, 0, ROWS - 3, COLUMNS as int, 1, 0);
    lemma_lines_small(grid, 0, ROWS - 3, COLUMNS - 3, 1, 1);
    lemma_lines_small(grid, 3, ROWS as int, COLUMNS - 3, -1, 1);
}

/// The evaluation never goes past the win score either way, and reaches it
/// exactly when a side has four in a row.
pub proof fn lemma_evaluate_within_win(grid: Grid)
    ensures
        -WIN_SCORE <= spec_evaluate(grid) <= WIN_SCORE,
        spec_winner(grid) == Some(Player::Red) <==> spec_evaluate(grid) == WIN_SCORE,
        spec_winner(grid) == Some(Player::Yellow) <==> spec_evaluate(grid) == -WIN_SCORE,
{
    if spec_winner(grid) is None {
        lemma_evaluate_without_four(grid);
    }
}

/// Heuristic value of `board` for Red (see `spec_evaluate`).
pub fn evaluate(board: &Board) -> (score: isize)
    ensures
        score == spec_evaluate(board.spec_grid()),
{
    match winner(board) {
        Some(Player::Red) => return WIN_SCORE,
        Some(Player::Yellow) => return -WIN_SCORE,
        None => {},
    }
    let grid = board.grid();
    proof {
        lemma_center_score_bound(grid, ROWS as int);
        lemma_lines_score_bound(grid, 0, ROWS as int, COLUMNS - 3, 0, 1);
        lemma_lines_score_bound(grid, 0, ROWS - 3, COLUMNS as int, 1, 0);
        lemma_lines_score_bound(grid, 0, ROWS - 3, COLUMNS - 3, 1, 1);
        lemma_lines_score_bound(grid, 3, ROWS as int, COLUMNS - 3, -1, 1);
    }

    let mut score: isize = 0;

    score += evaluate_center(board);

    score += evaluate_horizontal(board);
    score += evaluate_vertical(board);

    score += evaluate_diagonal_down(board);
    score += evaluate_diagonal_up(board);

    score
}

fn evaluate_center(board: &Board) -> (score: isize)
    ensures
        score == center_score(board.spec_grid(), ROWS as int),
{
    let grid = board.grid();
    let center_column = COLUMNS / 2;
    let mut score: isize = 0;
    let mut row: usize = 0;
    while row < ROWS
        invariant
            row <= ROWS,
            center_column == COLUMNS / 2,
            grid == board.spec_grid(),
            score == center_score(grid, row as int),
            -(row as int) * CENTER_SCORE <= score <= row * CENTER_SCORE,
        decreases ROWS - row,
    {
        match grid[row][center_column] {
            Some(Player::Red) => {
                score += CENTER_SCORE;
            },
            Some(Player::Yellow) => {
                score -= CENTER_SCORE;
            },
            None => {},
        }
        row += 1;
    }
    score
}

fn evaluate_window(window: [Option<Player>; 4]) -> (score: isize)
    ensures
        score == window_score(window),
{
    let mut red: usize = 0;
    let mut yellow: usize = 0;
    let mut empty: usize = 0;

    let mut k: usize = 0;
    while k < 4
        invariant
            k <= 4,
            red == count_in(window, Some(Player::Red), k as int),
            yellow == count_in(window, Some(Player::Yellow), k as int),
            empty == count_in(window, None, k as int),
            red + yellow + empty == k,
        decreases 4 - k,
    {
        match window[k] {
            Some(Player::Red) => red += 1,
            Some(Player::Yellow) => yellow += 1,
            None => empty += 1,
        }
        k += 1;
    }

    if red == 4 {
        return WIN_SCORE;
    }

    if yellow == 4 {
        return -WIN_SCORE;
    }

    let mut score: isize = 0;

    if red == 3 && empty == 1 {
        score += THREE_SCORE;
    }

    if red == 2 && empty == 2 {
        score += TWO_SCORE;
    }

    if yellow == 3 && empty == 1 {
        score -= BLOCK_THREE_SCORE;
    }

    if yellow == 2 && empty == 2 {
        score -= TWO_SCORE;
    }

    score
}

/// Sums the window scores of the lines starting in the rows `low..high` and
/// the columns `0..columns`, stepping by `(row_step, column_step)` with
/// `row_up` telling a negative row step.
fn evaluate_lines(grid: &Grid, low: usize, high: usize, columns: usize, row_up: bool, row_step: usize, column_step: usize) -> (score: isize)
    requires
        low <= high <= ROWS,
        columns <= COLUMNS,
        row_step <= 1,
        column_step <= 1,
        row_up ==> low >= 3 * row_step,
        !row_up ==> high + 3 * row_step <= ROWS,
        columns + 3 * column_step <= COLUMNS,
    ensures
        score == lines_score(*grid, low as int, high as int, columns as int, if row_up { -(row_step as int) } else { row_step as int }, column_step as int),
{
    let ghost dr: int = if row_up { -(row_step as int) } else { row_step as int };
    let ghost dc: int = column_step as int;
    let mut score: isize = 0;
    let mut row: usize = low;
    while row < high
        invariant
            low <= row <= high <= ROWS,
            columns <= COLUMNS,
            row_step <= 1,
            column_step <= 1,
            row_up ==> low >= 3 * row_step,
            !row_up ==> high + 3 * row_step <= ROWS,
            columns + 3 * column_step <= COLUMNS,
            dr == if row_up { -(row_step as int) } else { row_step as int },
            dc == column_step,
            score == lines_score(*grid, low as int, row as int, columns as int, dr, dc),
            -(row - low) * 7 * WIN_SCORE <= score <= (row - low) * 7 * WIN_SCORE,
        decreases high - row,
    {
        let mut column: usize = 0;
        let ghost before = score;
        while column < columns
            invariant
                low <= row < high <= ROWS,
                column <= columns <= COLUMNS,
                row_step <= 1,
                column_step <= 1,
                row_up ==> low >= 3 * row_step,
                !row_up ==> high + 3 * row_step <= ROWS,
                columns + 3 * column_step <= COLUMNS,
                dr == if row_up { -(row_step as int) } else { row_step as int },
                dc == column_step,
                before == lines_score(*grid, low as int, row as int, columns as int, dr, dc),
                -(row - low) * 7 * WIN_SCORE <= before <= (row - low) * 7 * WIN_SCORE,
                score == before + row_lines_score(*grid, row as int, column as int, dr, dc),
                -(column as int) * WIN_SCORE <= score - before <= column * WIN_SCORE,
            decreases columns - column,
        {
            let (r1, r2, r3) = if row_up {
                (row - row_step, row - 2 * row_step, row - 3 * row_step)
            } else {
                (row + row_step, row + 2 * row_step, row + 3 * row_step)
            };
            let window = [
                grid[row][column],
                grid[r1][column + column_step],
                grid[r2][column + 2 * column_step],
                grid[r3][column + 3 * column_step],
            ];
            assert(window == line(*grid, row as int, column as int, dr, dc));
            proof {
                lemma_window_score_bound(window);
            }
            score += evaluate_window(window);
            column += 1;
        }
        row += 1;
    }
    score
}

fn evaluate_horizontal(board: &Board) -> (score: isize)
    ensures
        score == horizontal_score(board.spec_grid()),
{
    let grid = board.grid();
    evaluate_lines(&grid, 0, ROWS, COLUMNS - 3, false, 0, 1)
}

fn evaluate_vertical(board: &Board) -> (score: isize)
    ensures
        score == vertical_score(board.spec_grid()),
{
    let grid = board.grid();
    evaluate_lines(&grid, 0, ROWS - 3, COLUMNS, false, 1, 0)
}

fn evaluate_diagonal_down(board: &Board) -> (score: isize)
    ensures
        score == diagonal_down_score(board.spec_grid()),
{
    let grid = board.grid();
    evaluate_lines(&grid, 0, ROWS - 3, COLUMNS - 3, false, 1, 1)
}

fn evaluate_diagonal_up(board: &Board) -> (score: isize)
    ensures
        score == diagonal_up_score(board.spec_grid()),
{
    let grid = board.grid();
    evaluate_lines(&grid, 3, ROWS, COLUMNS - 3, true, 1, 1)
}

} // verus!
