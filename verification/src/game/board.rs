use vstd::prelude::*;

use crate::game::{
    evaluation::{self, spec_evaluate},
    game_state::GameState, movement::Movement, player::Player, rules::{spec_winner, winner},
    zobrist::ZobristTable,
};

verus! {

pub const ROWS: usize = 6;
pub const COLUMNS: usize = 7;
pub const BOARD_SIZE: usize = ROWS * COLUMNS;

/// Cells of the board by row and column; row 0 is the top row.
pub type Grid = [[Option<Player>; COLUMNS]; ROWS];

/// Whether `(row, column)` names a cell of the board.
pub open spec fn in_bounds(row: int, column: int) -> bool {
    0 <= row < ROWS && 0 <= column < COLUMNS
}

/// Pieces rest on the bottom or on another piece: below every occupied cell
/// the cell is occupied too.
pub open spec fn settled(grid: Grid) -> bool {
    forall|row: int, column: int|
        0 <= row < ROWS - 1 && 0 <= column < COLUMNS && (#[trigger] grid[row][column]) is Some
            ==> grid[row + 1][column] is Some
}

/// Number of occupied cells among the first `k` cells of `row`.
pub open spec fn row_count(grid: Grid, row: int, k: int) -> nat
    decreases k,
{
    if k <= 0 {
        0
    } else {
        row_count(grid, row, k - 1) + if grid[row][k - 1] is Some {
            1nat
        } else {
            0nat
        }
    }
}

/// Number of occupied cells among the first `n` rows.
pub open spec fn rows_count(grid: Grid, n: int) -> nat
    decreases n,
{
    if n <= 0 {
        0
    } else {
        rows_count(grid, n - 1) + row_count(grid, n - 1, COLUMNS as int)
    }
}

/// Number of occupied cells of the board.
pub open spec fn occupied(grid: Grid) -> nat {
    rows_count(grid, ROWS as int)
}

/// The side whose turn it is after `played` movements: Red moves first.
pub open spec fn player_to_move(played: nat) -> Player {
    if played % 2 == 0 {
        Player::Red
    } else {
        Player::Yellow
    }
}

/// The lowest empty cell among the rows `0..k` of `column`, if any.
pub open spec fn lowest_empty(grid: Grid, column: int, k: int) -> Option<int>
    decreases k,
{
    if k <= 0 {
        None
    } else if grid[k - 1][column] is None {
        Some(k - 1)
    } else {
        lowest_empty(grid, column, k - 1)
    }
}

/// The columns `0..k` that still take a piece, in increasing order.
pub open spec fn open_columns(grid: Grid, k: int) -> Seq<usize>
    decreases k,
{
    if k <= 0 {
        Seq::empty()
    } else if grid[0][k - 1] is None {
        open_columns(grid, k - 1).push((k - 1) as usize)
    } else {
        open_columns(grid, k - 1)
    }
}

/// `grid` with the cell `(row, column)` set to `value`.
pub open spec fn grid_set(grid: Grid, row: int, column: int, value: Option<Player>) -> Grid {
    vstd::array::spec_array_update(grid, row, vstd::array::spec_array_update(grid[row], column, value))
}

/// The Zobrist hash after `player` drops a piece into `(row, column)`.
pub open spec fn hash_step(hash: u64, row: int, column: int, player: Player, zobrist: ZobristTable) -> u64 {
    hash ^ zobrist.pieces[column][row][player.index()] ^ zobrist.side_to_move
}

/// A Connect Four position: the grid, the side to move, the number of
/// movements played and the Zobrist hash accumulated so far.
#[derive(Clone, Copy)]
pub struct Board {
    grid: Grid,
    current_player: Player,
    movements_played: usize,
    zobrist_hash: u64,
}

impl Board {
    pub closed spec fn spec_grid(self) -> Grid {
        self.grid
    }

    pub closed spec fn spec_current_player(self) -> Player {
        self.current_player
    }

    pub closed spec fn spec_movements_played(self) -> nat {
        self.movements_played as nat
    }

    pub closed spec fn spec_zobrist_hash(self) -> u64 {
        self.zobrist_hash
    }

    /// The piece in `(row, column)`, if any.
    pub open spec fn cell(self, row: int, column: int) -> Option<Player> {
        self.spec_grid()[row][column]
    }

    /// A reachable position: pieces are settled, the movement count is the
    /// number of pieces, and the side to move follows from it.
    pub open spec fn wf(self) -> bool {
        &&& settled(self.spec_grid())
        &&& self.spec_movements_played() == occupied(self.spec_grid())
        &&& self.spec_current_player() == player_to_move(self.spec_movements_played())
    }

    #[verifier::type_invariant]
    pub open spec fn inv(self) -> bool {
        self.wf()
    }

    /// Whether `column` still takes a piece.
    pub open spec fn spec_is_legal(self, column: int) -> bool {
        0 <= column < COLUMNS && self.cell(0, column) is None
    }

    /// The columns that still take a piece, in increasing order.
    pub open spec fn spec_legal_columns(self) -> Seq<usize> {
        open_columns(self.spec_grid(), COLUMNS as int)
    }

    /// The position after the side to move drops a piece into `column`, or
    /// `None` when the column has no empty cell; the hash changes only when a
    /// Zobrist table is given.
    pub closed spec fn spec_apply(self, column: int, zobrist: Option<ZobristTable>) -> Option<Board> {
        match lowest_empty(self.grid, column, ROWS as int) {
            None => None,
            Some(row) => Some(
                Board {
                    grid: grid_set(self.grid, row, column, Some(self.current_player)),
                    current_player: self.current_player.spec_opponent(),
                    movements_played: (self.movements_played + 1) as usize,
                    zobrist_hash: match zobrist {
                        Some(z) => hash_step(self.zobrist_hash, row, column, self.current_player, z),
                        None => self.zobrist_hash,
                    },
                },
            ),
        }
    }

    /// What `spec_apply` gives, field by field.
    pub proof fn lemma_apply(self, column: int, zobrist: Option<ZobristTable>)
        requires
            0 <= column < COLUMNS,
        ensures
            match lowest_empty(self.spec_grid(), column, ROWS as int) {
                None => self.spec_apply(column, zobrist) is None,
                Some(row) => {
                    let next = self.spec_apply(column, zobrist)->0;
                    &&& self.spec_apply(column, zobrist) is Some
                    &&& next.spec_grid() == grid_set(
                        self.spec_grid(),
                        row,
                        column,
                        Some(self.spec_current_player()),
                    )
                    &&& next.spec_current_player() == self.spec_current_player().spec_opponent()
                    &&& next.spec_zobrist_hash() == match zobrist {
                        Some(z) => hash_step(self.spec_zobrist_hash(), row, column, self.spec_current_player(), z),
                        None => self.spec_zobrist_hash(),
                    }
                    &&& self.wf() ==> next.spec_movements_played() == self.spec_movements_played() + 1
                    &&& self.wf() ==> next.wf()
                }
            },
    {
        if self.wf() {
            lemma_occupied_bound(self.grid);
            lemma_lowest_empty(self.grid, column, ROWS as int);
            if let Some(row) = lowest_empty(self.grid, column, ROWS as int) {
                lemma_fill_lowest(self.grid, row, column, self.current_player);
            }
        }
    }

    /// The empty board, Red to move, hash zero.
    pub closed spec fn spec_new() -> Board {
        Board {
            grid: [[None; COLUMNS]; ROWS],
            current_player: Player::Red,
            movements_played: 0,
            zobrist_hash: 0,
        }
    }

    /// The spec empty board has no piece, Red to move, no movement played.
    pub proof fn lemma_new()
        ensures
            Board::spec_new().spec_movements_played() == 0,
            Board::spec_new().spec_current_player() == Player::Red,
            Board::spec_new().spec_zobrist_hash() == 0,
            Board::spec_new().wf(),
            forall|row: int, column: int| in_bounds(row, column) ==> Board::spec_new().cell(row, column) is None,
    {
        lemma_empty_grid(Board::spec_new().grid);
    }

    fn empty() -> (board: Self)
        ensures
            board == Board::spec_new(),
            board.spec_movements_played() == 0,
            board.spec_current_player() == Player::Red,
            board.spec_zobrist_hash() == 0,
            forall|row: int, column: int| in_bounds(row, column) ==> board.cell(row, column) is None,
    {
        let grid: Grid = [[None; COLUMNS]; ROWS];
        proof {
            lemma_empty_grid(grid);
        }
        Self { grid, current_player: Player::Red, movements_played: 0, zobrist_hash: 0 }
    }

    /// The empty board, Red to move.
    pub fn new() -> (board: Self)
        ensures
            board == Board::spec_new(),
            board.spec_movements_played() == 0,
            board.spec_current_player() == Player::Red,
            board.spec_zobrist_hash() == 0,
            forall|row: int, column: int| in_bounds(row, column) ==> board.cell(row, column) is None,
    {
        Self::empty()
    }

    pub fn grid(&self) -> (grid: Grid)
        ensures
            grid == self.spec_grid(),
    {
        self.grid
    }

    pub fn current_player(&self) -> (player: Player)
        ensures
            player == self.spec_current_player(),
    {
        self.current_player
    }

    pub fn movements_played(&self) -> (played: usize)
        ensures
            played == self.spec_movements_played(),
    {
        self.movements_played
    }

    pub fn zobrist_hash(&self) -> (hash: u64)
        ensures
            hash == self.spec_zobrist_hash(),
    {
        self.zobrist_hash
    }

    /// Whether the top cell of `column` is occupied.
    pub fn is_column_full(&self, column: usize) -> (full: bool)
        requires
            column < COLUMNS,
        ensures
            full == (self.cell(0, column as int) is Some),
    {
        self.grid[0][column].is_some()
    }

    /// One movement per column that still takes a piece, in increasing order
    /// of column.
    pub fn legal_movements(&self) -> (movements: Vec<Movement>)
        ensures
            movements@.len() == self.spec_legal_columns().len(),
            forall|i: int|
                0 <= i < movements@.len() ==> (#[trigger] movements@[i]).column
                    == self.spec_legal_columns()[i],
    {
        let mut movements: Vec<Movement> = Vec::new();
        let mut column: usize = 0;
        while column < COLUMNS
            invariant
                column <= COLUMNS,
                movements@.len() == open_columns(self.spec_grid(), column as int).len(),
                forall|i: int|
                    0 <= i < movements@.len() ==> (#[trigger] movements@[i]).column
                        == open_columns(self.spec_grid(), column as int)[i],
            decreases COLUMNS - column,
        {
            if !self.is_column_full(column) {
                movements.push(Movement::new(column));
            }
            column += 1;
        }
        movements
    }

    fn next_free_row(&self, column: usize) -> (row: Option<usize>)
        requires
            column < COLUMNS,
        ensures
            match lowest_empty(self.spec_grid(), column as int, ROWS as int) {
                None => row is None,
                Some(r) => row == Some(r as usize),
            },
    {
        let mut k: usize = ROWS;
        while k > 0
            invariant
                k <= ROWS,
                column < COLUMNS,
                lowest_empty(self.spec_grid(), column as int, ROWS as int) == lowest_empty(
                    self.spec_grid(),
                    column as int,
                    k as int,
                ),
            decreases k,
        {
            if self.grid[k - 1][column].is_none() {
                return Some(k - 1);
            }
            k -= 1;
        }
        None
    }

    fn update_hash(hash: u64, row: usize, column: usize, player: Player, zobrist: &ZobristTable) -> (next: u64)
        requires
            row < ROWS,
            column < COLUMNS,
        ensures
            next == hash_step(hash, row as int, column as int, player, *zobrist),
    {
        let player_index: usize = match player {
            Player::Red => 0,
            Player::Yellow => 1,
        };
        let mut next = hash;
        next ^= zobrist.pieces[column][row][player_index];
        next ^= zobrist.side_to_move;
        next
    }

    /// The position after the side to move drops a piece into
    /// `movement.column`, or `None` when that column is full. With a Zobrist
    /// table the hash is updated by the piece's key and the side-to-move key.
    pub fn apply_movement(&self, movement: Movement, zobrist: Option<&ZobristTable>) -> (next: Option<Self>)
        requires
            movement.column < COLUMNS,
        ensures
            next == self.spec_apply(
                movement.column as int,
                match zobrist {
                    Some(z) => Some(*z),
                    None => None,
                },
            ),
            next is Some <==> self.spec_is_legal(movement.column as int),
    {
        proof {
            use_type_invariant(self);
            lemma_lowest_empty_some(self.grid, movement.column as int);
            lemma_lowest_empty(self.grid, movement.column as int, ROWS as int);
        }
        let column = movement.column;
        let row = match self.next_free_row(column) {
            Some(row) => row,
            None => return None,
        };
        let mut grid = self.grid;
        grid[row][column] = Some(self.current_player);
        let zobrist_hash = match zobrist {
            Some(z) => Self::update_hash(self.zobrist_hash, row, column, self.current_player, z),
            None => self.zobrist_hash,
        };
        proof {
            assert(grid == grid_set(self.grid, row as int, column as int, Some(self.current_player)));
            lemma_occupied_bound(self.grid);
            lemma_fill_lowest(self.grid, row as int, column as int, self.current_player);
        }
        Some(
            Board {
                grid,
                current_player: self.current_player.opponent(),
                movements_played: self.movements_played + 1,
                zobrist_hash,
            },
        )
    }

    /// The outcome so far: a win for the side with four in a row (Red is
    /// checked first), else a draw once all cells are played, else in
    /// progress.
    pub open spec fn spec_game_state(self) -> GameState {
        match spec_winner(self.spec_grid()) {
            Some(player) => GameState::Win(player),
            None => if self.spec_movements_played() == BOARD_SIZE {
                GameState::Draw
            } else {
                GameState::InProgress
            },
        }
    }

    /// Heuristic value of the position for Red (see `spec_evaluate`).
    pub fn evaluate(&self) -> (score: isize)
        ensures
            score == spec_evaluate(self.spec_grid()),
    {
        evaluation::evaluate(self)
    }

    pub fn game_state(&self) -> (state: GameState)
        ensures
            state == self.spec_game_state(),
    {
        match winner(self) {
            Some(winner) => GameState::Win(winner),
            None => {
                if self.movements_played == BOARD_SIZE {
                    GameState::Draw
                } else {
                    GameState::InProgress
                }
            },
        }
    }
}

// ---------------------------------------------------------------------------
// Lemmas about grids.

/// Every cell of the empty grid is empty, so it is settled and holds no piece.
pub proof fn lemma_empty_grid(grid: Grid)
    requires
        forall|row: int, column: int| in_bounds(row, column) ==> grid[row][column] is None,
    ensures
        settled(grid),
        occupied(grid) == 0,
{
    assert forall|n: int| 0 <= n <= ROWS implies rows_count(grid, n) == 0 by {
        lemma_rows_count_empty(grid, n);
    }
    assert forall|row: int, column: int|
        0 <= row < ROWS - 1 && 0 <= column < COLUMNS && (#[trigger] grid[row][column]) is Some implies grid[row + 1][column] is Some by {
        assert(in_bounds(row, column));
    }
}

proof fn lemma_rows_count_empty(grid: Grid, n: int)
    requires
        0 <= n <= ROWS,
        forall|row: int, column: int| in_bounds(row, column) ==> grid[row][column] is None,
    ensures
        rows_count(grid, n) == 0,
    decreases n,
{
    if n > 0 {
        lemma_rows_count_empty(grid, n - 1);
        lemma_row_count_empty(grid, n - 1, COLUMNS as int);
    }
}

proof fn lemma_row_count_empty(grid: Grid, row: int, k: int)
    requires
        0 <= row < ROWS,
        0 <= k <= COLUMNS,
        forall|row: int, column: int| in_bounds(row, column) ==> grid[row][column] is None,
    ensures
        row_count(grid, row, k) == 0,
    decreases k,
{
    if k > 0 {
        lemma_row_count_empty(grid, row, k - 1);
        assert(in_bounds(row, k - 1));
        assert(grid[row][k - 1] is None);
    }
}

proof fn lemma_row_count_bound(grid: Grid, row: int, k: int)
    requires
        0 <= k,
    ensures
        row_count(grid, row, k) <= k,
    decreases k,
{
    if k > 0 {
        lemma_row_count_bound(grid, row, k - 1);
    }
}

proof fn lemma_rows_count_bound(grid: Grid, n: int)
    requires
        0 <= n,
    ensures
        rows_count(grid, n) <= n * COLUMNS,
    decreases n,
{
    if n > 0 {
        lemma_rows_count_bound(grid, n - 1);
        lemma_row_count_bound(grid, n - 1, COLUMNS as int);
    }
}

/// A grid holds at most `BOARD_SIZE` pieces.
pub proof fn lemma_occupied_bound(grid: Grid)
    ensures
        occupied(grid) <= BOARD_SIZE,
{
    lemma_rows_count_bound(grid, ROWS as int);
}

proof fn lemma_row_count_set(grid: Grid, row: int, column: int, value: Option<Player>, k: int)
    requires
        in_bounds(row, column),
        0 <= k <= COLUMNS,
    ensures
        row_count(grid_set(grid, row, column, value), row, k) == row_count(grid, row, k)
            - (if k > column && grid[row][column] is Some { 1int } else { 0int })
            + (if k > column && value is Some { 1int } else { 0int }),
    decreases k,
{
    if k > 0 {
        lemma_row_count_set(grid, row, column, value, k - 1);
    }
}

proof fn lemma_row_count_other(grid: Grid, row: int, column: int, value: Option<Player>, other: int, k: int)
    requires
        in_bounds(row, column),
        0 <= other < ROWS,
        other != row,
        0 <= k <= COLUMNS,
    ensures
        row_count(grid_set(grid, row, column, value), other, k) == row_count(grid, other, k),
    decreases k,
{
    if k > 0 {
        lemma_row_count_other(grid, row, column, value, other, k - 1);
    }
}

proof fn lemma_rows_count_set(grid: Grid, row: int, column: int, player: Player, n: int)
    requires
        in_bounds(row, column),
        grid[row][column] is None,
        0 <= n <= ROWS,
    ensures
        rows_count(grid_set(grid, row, column, Some(player)), n) == rows_count(grid, n) + (if n > row { 1int } else { 0int }),
    decreases n,
{
    if n > 0 {
        lemma_rows_count_set(grid, row, column, player, n - 1);
        if n - 1 == row {
            lemma_row_count_set(grid, row, column, Some(player), COLUMNS as int);
        } else {
            lemma_row_count_other(grid, row, column, Some(player), n - 1, COLUMNS as int);
        }
    }
}

/// The lowest empty cell is empty, and every cell below it is occupied.
pub proof fn lemma_lowest_empty(grid: Grid, column: int, k: int)
    requires
        0 <= column < COLUMNS,
        0 <= k <= ROWS,
    ensures
        match lowest_empty(grid, column, k) {
            None => forall|row: int| 0 <= row < k ==> grid[row][column] is Some,
            Some(row) => 0 <= row < k && grid[row][column] is None && forall|below: int|
                row < below < k ==> grid[below][column] is Some,
        },
    decreases k,
{
    if k > 0 {
        lemma_lowest_empty(grid, column, k - 1);
    }
}

/// On a settled grid a column has an empty cell exactly when its top cell is
/// empty.
pub proof fn lemma_lowest_empty_some(grid: Grid, column: int)
    requires
        0 <= column < COLUMNS,
        settled(grid),
    ensures
        lowest_empty(grid, column, ROWS as int) is Some <==> grid[0][column] is None,
{
    lemma_lowest_empty(grid, column, ROWS as int);
    if lowest_empty(grid, column, ROWS as int) is Some && grid[0][column] is Some {
        let row = lowest_empty(grid, column, ROWS as int)->0;
        lemma_settled_column(grid, column, 0, row);
    }
}

/// On a settled grid, occupied cells stay occupied going down a column.
pub proof fn lemma_settled_column(grid: Grid, column: int, top: int, bottom: int)
    requires
        settled(grid),
        0 <= column < COLUMNS,
        0 <= top <= bottom < ROWS,
        grid[top][column] is Some,
    ensures
        grid[bottom][column] is Some,
    decreases bottom - top,
{
    if top < bottom {
        assert(grid[top + 1][column] is Some);
        lemma_settled_column(grid, column, top + 1, bottom);
    }
}

/// Dropping a piece into the lowest empty cell of a column keeps the grid
/// settled and adds one to the number of pieces.
pub proof fn lemma_fill_lowest(grid: Grid, row: int, column: int, player: Player)
    requires
        settled(grid),
        0 <= column < COLUMNS,
        lowest_empty(grid, column, ROWS as int) == Some(row),
    ensures
        settled(grid_set(grid, row, column, Some(player))),
        occupied(grid_set(grid, row, column, Some(player))) == occupied(grid) + 1,
{
    lemma_lowest_empty(grid, column, ROWS as int);
    lemma_rows_count_set(grid, row, column, player, ROWS as int);
    let next = grid_set(grid, row, column, Some(player));
    assert forall|r: int, c: int|
        0 <= r < ROWS - 1 && 0 <= c < COLUMNS && (#[trigger] next[r][c]) is Some implies next[r + 1][c] is Some by {
        if c == column && r == row {
            assert(grid[r + 1][c] is Some);
        }
        if !(c == column && r == row) {
            assert(grid[r][c] is Some);
        }
    }
}

/// The open columns are exactly the columns `0..k` whose top cell is empty,
/// listed in increasing order.
pub proof fn lemma_open_columns(grid: Grid, k: int)
    requires
        0 <= k <= COLUMNS,
    ensures
        open_columns(grid, k).len() <= k,
        forall|i: int|
            0 <= i < open_columns(grid, k).len() ==> 0 <= #[trigger] open_columns(grid, k)[i] < k
                && grid[0][open_columns(grid, k)[i] as int] is None,
        forall|i: int, j: int|
            0 <= i < j < open_columns(grid, k).len() ==> open_columns(grid, k)[i] < open_columns(
                grid,
                k,
            )[j],
        forall|column: int|
            0 <= column < k && grid[0][column] is None ==> open_columns(grid, k).contains(
                column as usize,
            ),
    decreases k,
{
    if k > 0 {
        lemma_open_columns(grid, k - 1);
        let prev = open_columns(grid, k - 1);
        if grid[0][k - 1] is None {
            assert forall|column: int|
                0 <= column < k && grid[0][column] is None implies open_columns(grid, k).contains(
                column as usize,
            ) by {
                if column == k - 1 {
                    assert(open_columns(grid, k)[prev.len() as int] == column as usize);
                } else {
                    let i = choose|i: int| 0 <= i < prev.len() && prev[i] == column as usize;
                    assert(open_columns(grid, k)[i] == column as usize);
                }
            }
        }
    }
}

proof fn lemma_row_count_full(grid: Grid, row: int, k: int)
    requires
        0 <= row < ROWS,
        0 <= k <= COLUMNS,
        forall|c: int| 0 <= c < COLUMNS ==> grid[row][c] is Some,
    ensures
        row_count(grid, row, k) == k,
    decreases k,
{
    if k > 0 {
        lemma_row_count_full(grid, row, k - 1);
    }
}

proof fn lemma_rows_count_full(grid: Grid, n: int)
    requires
        0 <= n <= ROWS,
        forall|r: int, c: int| in_bounds(r, c) ==> grid[r][c] is Some,
    ensures
        rows_count(grid, n) == n * COLUMNS,
    decreases n,
{
    if n > 0 {
        lemma_rows_count_full(grid, n - 1);
        assert forall|c: int| 0 <= c < COLUMNS implies #[trigger] grid[n - 1][c] is Some by {
            assert(in_bounds(n - 1, c));
        }
        lemma_row_count_full(grid, n - 1, COLUMNS as int);
    }
}

/// A reachable position that is still in progress has a legal movement.
pub proof fn lemma_in_progress_has_move(board: Board)
    requires
        board.wf(),
        board.spec_game_state() is InProgress,
    ensures
        board.spec_legal_columns().len() > 0,
{
    let grid = board.spec_grid();
    lemma_open_columns(grid, COLUMNS as int);
    if board.spec_legal_columns().len() == 0 {
        assert forall|r: int, c: int| in_bounds(r, c) implies grid[r][c] is Some by {
            if grid[0][c] is None {
                assert(open_columns(grid, COLUMNS as int).contains(c as usize));
            }
            lemma_settled_column(grid, c, 0, r);
        }
        lemma_rows_count_full(grid, ROWS as int);
    }
}

/// Every legal column is a column whose top cell is empty.
pub proof fn lemma_legal_columns(board: Board)
    ensures
        board.spec_legal_columns().len() <= COLUMNS,
        forall|i: int|
            0 <= i < board.spec_legal_columns().len() ==> board.spec_is_legal(
                #[trigger] board.spec_legal_columns()[i] as int,
            ),
        forall|i: int, j: int|
            0 <= i < j < board.spec_legal_columns().len() ==> board.spec_legal_columns()[i]
                < board.spec_legal_columns()[j],
        forall|column: int| #[trigger] board.spec_is_legal(column) ==> board.spec_legal_columns().contains(column as usize),
{
    lemma_open_columns(board.spec_grid(), COLUMNS as int);
}

} // verus!
