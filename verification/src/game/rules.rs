use vstd::prelude::*;

use crate::game::{board::{Board, Grid, COLUMNS, ROWS}, player::Player};

verus! {

/// The four cells starting at `(row, column)` and stepping by
/// `(row_step, column_step)` all hold a piece of `player`.
pub open spec fn four_in_line(grid: Grid, row: int, column: int, row_step: int, column_step: int, player: Player) -> bool {
    &&& grid[row][column] == Some(player)
    &&& grid[row + row_step][column + column_step] == Some(player)
    &&& grid[row + 2 * row_step][column + 2 * column_step] == Some(player)
    &&& grid[row + 3 * row_step][column + 3 * column_step] == Some(player)
}

/// Four pieces of `player` side by side in a row.
pub open spec fn has_horizontal(grid: Grid, player: Player) -> bool {
    exists|row: int, column: int|
        0 <= row < ROWS && 0 <= column < COLUMNS - 3 && #[trigger] four_in_line(grid, row, column, 0, 1, player)
}

/// Four pieces of `player` on top of each other in a column.
pub open spec fn has_vertical(grid: Grid, player: Player) -> bool {
    exists|row: int, column: int|
        0 <= row < ROWS - 3 && 0 <= column < COLUMNS && #[trigger] four_in_line(grid, row, column, 1, 0, player)
}

/// Four pieces of `player` on a diagonal rising to the right.
pub open spec fn has_diagonal_up(grid: Grid, player: Player) -> bool {
    exists|row: int, column: int|
        3 <= row < ROWS && 0 <= column < COLUMNS - 3 && #[trigger] four_in_line(grid, row, column, -1, 1, player)
}

/// Four pieces of `player` on a diagonal falling to the right.
pub open spec fn has_diagonal_down(grid: Grid, player: Player) -> bool {
    exists|row: int, column: int|
        0 <= row < ROWS - 3 && 0 <= column < COLUMNS - 3 && #[trigger] four_in_line(grid, row, column, 1, 1, player)
}

/// `player` has four in a row in some direction.
pub open spec fn has_four(grid: Grid, player: Player) -> bool {
    has_horizontal(grid, player) || has_vertical(grid, player) || has_diagonal_up(grid, player)
        || has_diagonal_down(grid, player)
}

/// Red when Red has four in a row, else Yellow when Yellow has, else nobody.
pub open spec fn spec_winner(grid: Grid) -> Option<Player> {
    if has_four(grid, Player::Red) {
        Some(Player::Red)
    } else if has_four(grid, Player::Yellow) {
        Some(Player::Yellow)
    } else {
        None
    }
}

fn holds(cell: Option<Player>, player: Player) -> (b: bool)
    ensures
        b == (cell == Some(player)),
{
    match cell {
        Some(p) => p == player,
        None => false,
    }
}

/// Counts how many of the four cells of a line hold `player`, and answers
/// whether all four do.
fn all_hold(line: [Option<Player>; 4], player: Player) -> (all: bool)
    ensures
        all == (forall|k: int| 0 <= k < 4 ==> #[trigger] line[k] == Some(player)),
{
    let mut count: usize = 0;
    let mut k: usize = 0;
    assert(line@.len() == 4);
    while k < 4
        invariant
            k <= 4,
            count <= k,
            count == k <==> forall|j: int| 0 <= j < k ==> #[trigger] line[j] == Some(player),
        decreases 4 - k,
    {
        if holds(line[k], player) {
            count += 1;
        }
        k += 1;
    }
    count == 4
}

fn horizontal(board: &Board, player: Player) -> (found: bool)
    ensures
        found == has_horizontal(board.spec_grid(), player),
{
    let grid = board.grid();
    let mut row: usize = 0;
    while row < ROWS
        invariant
            row <= ROWS,
            grid == board.spec_grid(),
            forall|r: int, c: int| 0 <= r < row && 0 <= c < COLUMNS - 3 ==> !#[trigger] four_in_line(grid, r, c, 0, 1, player),
        decreases ROWS - row,
    {
        let mut column: usize = 0;
        while column < COLUMNS - 3
            invariant
                row < ROWS,
                column <= COLUMNS - 3,
                grid == board.spec_grid(),
                forall|r: int, c: int| 0 <= r < row && 0 <= c < COLUMNS - 3 ==> !#[trigger] four_in_line(grid, r, c, 0, 1, player),
                forall|c: int| 0 <= c < column ==> !#[trigger] four_in_line(grid, row as int, c, 0, 1, player),
            decreases COLUMNS - 3 - column,
        {
            if all_hold([grid[row][column], grid[row][column + 1], grid[row][column + 2], grid[row][column + 3]], player) {
                assert(four_in_line(grid, row as int, column as int, 0, 1, player));
                return true;
            }
            column += 1;
        }
        row += 1;
    }
    false
}

fn vertical(board: &Board, player: Player) -> (found: bool)
    ensures
        found == has_vertical(board.spec_grid(), player),
{
    let grid = board.grid();
    let mut column: usize = 0;
    while column < COLUMNS
        invariant
            column <= COLUMNS,
            grid == board.spec_grid(),
            forall|r: int, c: int| 0 <= r < ROWS - 3 && 0 <= c < column ==> !#[trigger] four_in_line(grid, r, c, 1, 0, player),
        decreases COLUMNS - column,
    {
        let mut row: usize = 0;
        while row < ROWS - 3
            invariant
                column < COLUMNS,
                row <= ROWS - 3,
                grid == board.spec_grid(),
                forall|r: int, c: int| 0 <= r < ROWS - 3 && 0 <= c < column ==> !#[trigger] four_in_line(grid, r, c, 1, 0, player),
                forall|r: int| 0 <= r < row ==> !#[trigger] four_in_line(grid, r, column as int, 1, 0, player),
            decreases ROWS - 3 - row,
        {
            if all_hold([grid[row][column], grid[row + 1][column], grid[row + 2][column], grid[row + 3][column]], player) {
                assert(four_in_line(grid, row as int, column as int, 1, 0, player));
                return true;
            }
            row += 1;
        }
        column += 1;
    }
    false
}

fn diagonal_up(board: &Board, player: Player) -> (found: bool)
    ensures
        found == has_diagonal_up(board.spec_grid(), player),
{
    let grid = board.grid();
    let mut row: usize = 3;
    while row < ROWS
        invariant
            3 <= row <= ROWS,
            grid == board.spec_grid(),
            forall|r: int, c: int| 3 <= r < row && 0 <= c < COLUMNS - 3 ==> !#[trigger] four_in_line(grid, r, c, -1, 1, player),
        decreases ROWS - row,
    {
        let mut column: usize = 0;
        while column < COLUMNS - 3
            invariant
                3 <= row < ROWS,
                column <= COLUMNS - 3,
                grid == board.spec_grid(),
                forall|r: int, c: int| 3 <= r < row && 0 <= c < COLUMNS - 3 ==> !#[trigger] four_in_line(grid, r, c, -1, 1, player),
                forall|c: int| 0 <= c < column ==> !#[trigger] four_in_line(grid, row as int, c, -1, 1, player),
            decreases COLUMNS - 3 - column,
        {
            if all_hold([grid[row][column], grid[row - 1][column + 1], grid[row - 2][column + 2], grid[row - 3][column + 3]], player) {
                assert(four_in_line(grid, row as int, column as int, -1, 1, player));
                return true;
            }
            column += 1;
        }
        row += 1;
    }
    false
}

fn diagonal_down(board: &Board, player: Player) -> (found: bool)
    ensures
        found == has_diagonal_down(board.spec_grid(), player),
{
    let grid = board.grid();
    let mut row: usize = 0;
    while row < ROWS - 3
        invariant
            row <= ROWS - 3,
            grid == board.spec_grid(),
            forall|r: int, c: int| 0 <= r < row && 0 <= c < COLUMNS - 3 ==> !#[trigger] four_in_line(grid, r, c, 1, 1, player),
        decreases ROWS - 3 - row,
    {
        let mut column: usize = 0;
        while column < COLUMNS - 3
            invariant
                row < ROWS - 3,
                column <= COLUMNS - 3,
                grid == board.spec_grid(),
                forall|r: int, c: int| 0 <= r < row && 0 <= c < COLUMNS - 3 ==> !#[trigger] four_in_line(grid, r, c, 1, 1, player),
                forall|c: int| 0 <= c < column ==> !#[trigger] four_in_line(grid, row as int, c, 1, 1, player),
            decreases COLUMNS - 3 - column,
        {
            if all_hold([grid[row][column], grid[row + 1][column + 1], grid[row + 2][column + 2], grid[row + 3][column + 3]], player) {
                assert(four_in_line(grid, row as int, column as int, 1, 1, player));
                return true;
            }
            column += 1;
        }
        row += 1;
    }
    false
}

/// The side with four in a row; Red is checked first.
pub fn winner(board: &Board) -> (w: Option<Player>)
    ensures
        w == spec_winner(board.spec_grid()),
{
    if horizontal(board, Player::Red) || vertical(board, Player::Red) || diagonal_up(board, Player::Red)
        || diagonal_down(board, Player::Red)
    {
        return Some(Player::Red);
    }
    if horizontal(board, Player::Yellow) || vertical(board, Player::Yellow) || diagonal_up(
        board,
        Player::Yellow,
    ) || diagonal_down(board, Player::Yellow) {
        return Some(Player::Yellow);
    }
    None
}

} // verus!
