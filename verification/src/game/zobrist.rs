use vstd::prelude::*;

use crate::game::{
    board::{grid_set, hash_step, in_bounds, Board, Grid, COLUMNS, ROWS},
    player::Player,
};
use rand::{RngExt, SeedableRng};
use rand_chacha::ChaCha8Rng;

verus! {

/// Seed of the generator that draws the Zobrist keys.
pub const ZOBRIST_SEED: u64 = 42;

/// The `u64` that `ChaCha8Rng::seed_from_u64(seed)` yields from `random()`
/// after its stream has been positioned at the 32-bit word `word_pos`.
pub uninterp spec fn chacha8_u64_at(seed: u64, word_pos: u128) -> u64;

/// Draws the `u64` at word position `word_pos` of the ChaCha8 stream seeded
/// from `seed` (`rand_chacha::ChaCha8Rng::seed_from_u64`, `set_word_pos`,
/// then `rand::RngExt::random`). The generator is deterministic, so the value
/// is a function of the two arguments; which value it is is left to the name.
/// A `u64` takes two words, so the draws that a fresh generator makes one
/// after another sit at the word positions 0, 2, 4, ...
#[verifier::external_body]
fn chacha8_u64_at_word(seed: u64, word_pos: u128) -> (value: u64)
    ensures
        value == chacha8_u64_at(seed, word_pos),
{
    let mut rng = ChaCha8Rng::seed_from_u64(seed);
    rng.set_word_pos(word_pos);
    rng.random()
}

/// Position in the key stream of the key for a piece of the player with
/// index `player` in `(row, column)`: the keys are drawn column by column,
/// row by row, Red before Yellow, and each key takes two words.
pub open spec fn piece_word_pos(column: int, row: int, player: int) -> int {
    2 * (column * 12 + row * 2 + player)
}

/// Position in the key stream of the side-to-move key, drawn after all the
/// piece keys.
pub open spec fn side_word_pos() -> int {
    2 * (COLUMNS * ROWS * 2)
}

/// Random keys for Zobrist hashing of Connect Four positions: one key per
/// (column, row, player) and one for the side to move.
#[derive(Clone, Copy)]
pub struct ZobristTable {
    pub pieces: [[[u64; 2]; ROWS]; COLUMNS],
    pub side_to_move: u64,
}

impl ZobristTable {
    /// The keys drawn in order from ChaCha8 seeded with `ZOBRIST_SEED`.
    pub fn new() -> (table: Self)
        ensures
            forall|column: int, row: int, player: int|
                0 <= column < COLUMNS && 0 <= row < ROWS && 0 <= player < 2 ==> #[trigger] table.pieces[column][row][player]
                    == chacha8_u64_at(ZOBRIST_SEED, piece_word_pos(column, row, player) as u128),
            table.side_to_move == chacha8_u64_at(ZOBRIST_SEED, side_word_pos() as u128),
    {
        let mut pieces = [[[0u64; 2]; ROWS]; COLUMNS];

        let mut column: usize = 0;
        while column < COLUMNS
            invariant
                column <= COLUMNS,
                forall|c: int, r: int, p: int|
                    0 <= c < column && 0 <= r < ROWS && 0 <= p < 2 ==> #[trigger] pieces[c][r][p]
                        == chacha8_u64_at(ZOBRIST_SEED, piece_word_pos(c, r, p) as u128),
            decreases COLUMNS - column,
        {
            let mut row: usize = 0;
            while row < ROWS
                invariant
                    column < COLUMNS,
                    row <= ROWS,
                    forall|c: int, r: int, p: int|
                        0 <= c < column && 0 <= r < ROWS && 0 <= p < 2 ==> #[trigger] pieces[c][r][p]
                            == chacha8_u64_at(ZOBRIST_SEED, piece_word_pos(c, r, p) as u128),
                    forall|r: int, p: int|
                        0 <= r < row && 0 <= p < 2 ==> #[trigger] pieces[column as int][r][p]
                            == chacha8_u64_at(ZOBRIST_SEED, piece_word_pos(column as int, r, p) as u128),
                decreases ROWS - row,
            {
                let mut player: usize = 0;
                while player < 2
                    invariant
                        column < COLUMNS,
                        row < ROWS,
                        player <= 2,
                        forall|c: int, r: int, p: int|
                            0 <= c < column && 0 <= r < ROWS && 0 <= p < 2 ==> #[trigger] pieces[c][r][p]
                                == chacha8_u64_at(ZOBRIST_SEED, piece_word_pos(c, r, p) as u128),
                        forall|r: int, p: int|
                            0 <= r < row && 0 <= p < 2 ==> #[trigger] pieces[column as int][r][p]
                                == chacha8_u64_at(ZOBRIST_SEED, piece_word_pos(column as int, r, p) as u128),
                        forall|p: int|
                            0 <= p < player ==> #[trigger] pieces[column as int][row as int][p]
                                == chacha8_u64_at(ZOBRIST_SEED, piece_word_pos(column as int, row as int, p) as u128),
                    decreases 2 - player,
                {
                    let word_pos: u128 = (2 * (column * 12 + row * 2 + player)) as u128;
                    pieces[column][row][player] = chacha8_u64_at_word(ZOBRIST_SEED, word_pos);
                    player += 1;
                }
                row += 1;
            }
            column += 1;
        }

        let side_to_move = chacha8_u64_at_word(ZOBRIST_SEED, (2 * (COLUMNS * ROWS * 2)) as u128);

        Self { pieces, side_to_move }
    }
}

/// The key of a cell: the key of its piece, or zero when it is empty.
pub open spec fn cell_key(zobrist: ZobristTable, row: int, column: int, cell: Option<Player>) -> u64 {
    match cell {
        Some(player) => zobrist.pieces[column][row][player.index()],
        None => 0,
    }
}

/// XOR of the keys of the first `k` cells of `row`.
pub open spec fn row_key(zobrist: ZobristTable, grid: Grid, row: int, k: int) -> u64
    decreases k,
{
    if k <= 0 {
        0
    } else {
        row_key(zobrist, grid, row, k - 1) ^ cell_key(zobrist, row, k - 1, grid[row][k - 1])
    }
}

/// XOR of the keys of the cells of the first `n` rows.
pub open spec fn rows_key(zobrist: ZobristTable, grid: Grid, n: int) -> u64
    decreases n,
{
    if n <= 0 {
        0
    } else {
        rows_key(zobrist, grid, n - 1) ^ row_key(zobrist, grid, n - 1, COLUMNS as int)
    }
}

/// The Zobrist hash of a position: the XOR of the keys of its pieces, and of
/// the side-to-move key when Yellow is to move.
pub open spec fn position_hash(zobrist: ZobristTable, grid: Grid, played: nat) -> u64 {
    rows_key(zobrist, grid, ROWS as int) ^ (if played % 2 == 1 {
        zobrist.side_to_move
    } else {
        0u64
    })
}

/// The board's hash is the Zobrist hash of its position.
pub open spec fn hash_matches(zobrist: ZobristTable, board: Board) -> bool {
    board.spec_zobrist_hash() == position_hash(zobrist, board.spec_grid(), board.spec_movements_played())
}

proof fn lemma_xor_swap(a: u64, b: u64, c: u64)
    by (bit_vector)
    ensures
        (a ^ b) ^ c == (a ^ c) ^ b,
        a ^ 0u64 == a,
{
}

proof fn lemma_xor_step(x: u64, s: u64, p: u64, t: u64)
    by (bit_vector)
    ensures
        ((x ^ s) ^ p) ^ t == (x ^ p) ^ (s ^ t),
        0u64 ^ t == t,
        t ^ t == 0u64,
{
}

proof fn lemma_row_key_set(zobrist: ZobristTable, grid: Grid, row: int, column: int, player: Player, k: int)
    requires
        in_bounds(row, column),
        grid[row][column] is None,
        0 <= k <= COLUMNS,
    ensures
        row_key(zobrist, grid_set(grid, row, column, Some(player)), row, k) == if k > column {
            row_key(zobrist, grid, row, k) ^ zobrist.pieces[column][row][player.index()]
        } else {
            row_key(zobrist, grid, row, k)
        },
    decreases k,
{
    if k > 0 {
        lemma_row_key_set(zobrist, grid, row, column, player, k - 1);
        let prev = row_key(zobrist, grid, row, k - 1);
        let key = cell_key(zobrist, row, k - 1, grid[row][k - 1]);
        let piece = zobrist.pieces[column][row][player.index()];
        lemma_xor_swap(prev, piece, key);
        lemma_xor_swap(prev, key, piece);
        lemma_xor_swap(prev, 0u64, piece);
    }
}

proof fn lemma_row_key_other(zobrist: ZobristTable, grid: Grid, row: int, column: int, player: Player, other: int, k: int)
    requires
        in_bounds(row, column),
        0 <= other < ROWS,
        other != row,
        0 <= k <= COLUMNS,
    ensures
        row_key(zobrist, grid_set(grid, row, column, Some(player)), other, k) == row_key(zobrist, grid, other, k),
    decreases k,
{
    if k > 0 {
        lemma_row_key_other(zobrist, grid, row, column, player, other, k - 1);
    }
}

proof fn lemma_rows_key_set(zobrist: ZobristTable, grid: Grid, row: int, column: int, player: Player, n: int)
    requires
        in_bounds(row, column),
        grid[row][column] is None,
        0 <= n <= ROWS,
    ensures
        rows_key(zobrist, grid_set(grid, row, column, Some(player)), n) == if n > row {
            rows_key(zobrist, grid, n) ^ zobrist.pieces[column][row][player.index()]
        } else {
            rows_key(zobrist, grid, n)
        },
    decreases n,
{
    if n > 0 {
        lemma_rows_key_set(zobrist, grid, row, column, player, n - 1);
        let prev = rows_key(zobrist, grid, n - 1);
        let piece = zobrist.pieces[column][row][player.index()];
        let rk = row_key(zobrist, grid, n - 1, COLUMNS as int);
        if n - 1 == row {
            lemma_row_key_set(zobrist, grid, row, column, player, COLUMNS as int);
            lemma_xor_swap(prev, rk, piece);
            assert((prev ^ rk) ^ piece == prev ^ (rk ^ piece)) by (bit_vector);
        } else {
            lemma_row_key_other(zobrist, grid, row, column, player, n - 1, COLUMNS as int);
            lemma_xor_swap(prev, piece, rk);
        }
    }
}

/// Hash law: dropping a piece with the hash updated from `zobrist` keeps the
/// hash equal to the Zobrist hash of the position, so the incrementally
/// kept hash depends on the position alone.
pub proof fn lemma_apply_keeps_hash(zobrist: ZobristTable, board: Board, column: int)
    requires
        board.wf(),
        0 <= column < COLUMNS,
        hash_matches(zobrist, board),
        board.spec_apply(column, Some(zobrist)) is Some,
    ensures
        hash_matches(zobrist, board.spec_apply(column, Some(zobrist))->0),
{
    board.lemma_apply(column, Some(zobrist));
    crate::game::board::lemma_lowest_empty(board.spec_grid(), column, ROWS as int);
    let row = crate::game::board::lowest_empty(board.spec_grid(), column, ROWS as int)->0;
    let player = board.spec_current_player();
    let grid = board.spec_grid();
    let played = board.spec_movements_played();
    lemma_rows_key_set(zobrist, grid, row, column, player, ROWS as int);
    let x = rows_key(zobrist, grid, ROWS as int);
    let p = zobrist.pieces[column][row][player.index()];
    let t = zobrist.side_to_move;
    let s: u64 = if played % 2 == 1 { t } else { 0u64 };
    lemma_xor_step(x, s, p, t);
    lemma_xor_swap(x ^ p, 0u64, 0u64);
    assert((x ^ p) ^ (0u64 ^ t) == (x ^ p) ^ t);
    assert((x ^ p) ^ (t ^ t) == (x ^ p) ^ 0u64);
}

/// Law: two boards whose hashes were kept with the same keys, and that hold
/// the same pieces after the same number of movements, have the same hash,
/// however they were reached.
pub proof fn lemma_same_position_same_hash(zobrist: ZobristTable, a: Board, b: Board)
    requires
        hash_matches(zobrist, a),
        hash_matches(zobrist, b),
        a.spec_grid() == b.spec_grid(),
        a.spec_movements_played() == b.spec_movements_played(),
    ensures
        a.spec_zobrist_hash() == b.spec_zobrist_hash(),
{
}

/// The hash of the empty board is the Zobrist hash of the empty position.
pub proof fn lemma_new_hash(zobrist: ZobristTable)
    ensures
        hash_matches(zobrist, Board::spec_new()),
{
    Board::lemma_new();
    let grid = Board::spec_new().spec_grid();
    assert forall|n: int| 0 <= n <= ROWS implies rows_key(zobrist, grid, n) == 0u64 by {
        lemma_rows_key_empty(zobrist, grid, n);
    }
    lemma_xor_swap(0u64, 0u64, 0u64);
}

proof fn lemma_rows_key_empty(zobrist: ZobristTable, grid: Grid, n: int)
    requires
        0 <= n <= ROWS,
        forall|row: int, column: int| in_bounds(row, column) ==> grid[row][column] is None,
    ensures
        rows_key(zobrist, grid, n) == 0u64,
    decreases n,
{
    if n > 0 {
        lemma_rows_key_empty(zobrist, grid, n - 1);
        lemma_row_key_empty(zobrist, grid, n - 1, COLUMNS as int);
        lemma_xor_swap(0u64, 0u64, 0u64);
    }
}

proof fn lemma_row_key_empty(zobrist: ZobristTable, grid: Grid, row: int, k: int)
    requires
        0 <= row < ROWS,
        0 <= k <= COLUMNS,
        forall|row: int, column: int| in_bounds(row, column) ==> grid[row][column] is None,
    ensures
        row_key(zobrist, grid, row, k) == 0u64,
    decreases k,
{
    if k > 0 {
        lemma_row_key_empty(zobrist, grid, row, k - 1);
        assert(in_bounds(row, k - 1));
        lemma_xor_swap(0u64, 0u64, 0u64);
    }
}

} // verus!
