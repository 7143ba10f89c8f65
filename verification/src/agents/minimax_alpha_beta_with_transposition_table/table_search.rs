use vstd::prelude::*;

use crate::{
    agents::minimax_alpha_beta_with_transposition_table::transposition_table::{
        stored, NodeType, TranspositionTableEntry,
    },
    game::{board::Board, evaluation::spec_evaluate, player::Player, zobrist::ZobristTable},
};

verus! {

/// What the search reads back from an entry: its value, depth and kind (the
/// tree node that stored it is forgotten).
pub open spec fn stripped(entry: TranspositionTableEntry) -> TranspositionTableEntry {
    TranspositionTableEntry {
        value: entry.value,
        depth: entry.depth,
        node_type: entry.node_type,
        source_node_id: None,
    }
}

/// The table with every entry stripped of its tree node.
pub open spec fn stripped_table(table: Map<u64, TranspositionTableEntry>) -> Map<u64, TranspositionTableEntry> {
    Map::new(|hash: u64| table.contains_key(hash), |hash: u64| stripped(table[hash]))
}

/// The position after the `index`-th legal movement of `board`, with its
/// hash kept up to date by `zobrist`.
pub open spec fn table_child(zobrist: ZobristTable, board: Board, index: int) -> Board {
    board.spec_apply(board.spec_legal_columns()[index] as int, Some(zobrist))->0
}

/// Whether `table` holds an entry for `hash` searched at least `remaining`
/// movements deep, so that the search may use it.
pub open spec fn usable(table: Map<u64, TranspositionTableEntry>, hash: u64, remaining: nat) -> bool {
    table.contains_key(hash) && table[hash].depth >= remaining
}

/// How a searched value relates to the window it was searched with: at or
/// below `alpha` it is an upper bound, at or above `beta` a lower bound,
/// strictly inside it exact.
pub open spec fn bound_kind(value: int, alpha: int, beta: int) -> NodeType {
    if value <= alpha {
        NodeType::UpperBound
    } else if value >= beta {
        NodeType::LowerBound
    } else {
        NodeType::Exact
    }
}

/// The value that alpha-beta search with a transposition table gives `board`
/// (for Red, `maximizing` when Red chooses) searched `remaining` movements
/// deep with the window `(alpha, beta)`, starting from `table`, and the
/// table it leaves behind (entries stripped of their tree nodes).
///
/// A usable entry for the board's hash answers at once when it is exact;
/// a bound from it narrows the window, and answers at once when the window
/// closes. Otherwise the position is evaluated at the depth horizon or when
/// the match is over, or else its movements are searched in column order
/// until the window closes; the result is stored with its depth and its
/// kind relative to the (narrowed) window.
///
/// With no hash collision among the positions it reaches, this is the
/// fail-soft alpha-beta value of depth-limited minimax
/// (`lemma_cached_value_sound`).
pub open spec fn cached_value(
    zobrist: ZobristTable,
    board: Board,
    remaining: nat,
    alpha: int,
    beta: int,
    maximizing: bool,
    table: Map<u64, TranspositionTableEntry>,
) -> (int, Map<u64, TranspositionTableEntry>)
    decreases remaining, 1nat, 0nat,
{
    let hash = board.spec_zobrist_hash();
    let hit = usable(table, hash, remaining);
    let entry = table[hash];
    let alpha = if hit && entry.node_type == NodeType::LowerBound && entry.value > alpha {
        entry.value as int
    } else {
        alpha
    };
    let beta = if hit && entry.node_type == NodeType::UpperBound && entry.value < beta {
        entry.value as int
    } else {
        beta
    };
    if hit && (entry.node_type == NodeType::Exact || alpha >= beta) {
        (entry.value as int, table)
    } else if remaining == 0 || !(board.spec_game_state() is InProgress) {
        let value = spec_evaluate(board.spec_grid());
        (
            value,
            stored(
                table,
                hash,
                TranspositionTableEntry {
                    value: value as isize,
                    depth: remaining as usize,
                    node_type: NodeType::Exact,
                    source_node_id: None,
                },
            ),
        )
    } else {
        let start = if maximizing {
            isize::MIN as int
        } else {
            isize::MAX as int
        };
        let searched = cached_children(zobrist, board, remaining, alpha, beta, maximizing, start, 0, table);
        let value = searched.0;
        (
            value,
            stored(
                searched.1,
                hash,
                TranspositionTableEntry {
                    value: value as isize,
                    depth: remaining as usize,
                    node_type: bound_kind(value, alpha, beta),
                    source_node_id: None,
                },
            ),
        )
    }
}

/// The search of the legal movements of `board` from the `k`-th on, with
/// the best value `value` so far, the window `(alpha, beta)` and `table`:
/// each movement's position is searched one movement less deep by the other
/// side; the best value and the window follow it, and the search stops once
/// the window closes. Gives the best value and the table left behind.
pub open spec fn cached_children(
    zobrist: ZobristTable,
    board: Board,
    remaining: nat,
    alpha: int,
    beta: int,
    maximizing: bool,
    value: int,
    k: nat,
    table: Map<u64, TranspositionTableEntry>,
) -> (int, Map<u64, TranspositionTableEntry>)
    decreases remaining, 0nat, board.spec_legal_columns().len() - k,
{
    let columns = board.spec_legal_columns();
    if remaining == 0 || k >= columns.len() {
        (value, table)
    } else {
        let searched = cached_value(zobrist, table_child(zobrist, board, k as int), (remaining - 1) as nat, alpha, beta, !maximizing, table);
        let v = searched.0;
        let best = if (maximizing && v > value) || (!maximizing && v < value) {
            v
        } else {
            value
        };
        let alpha = if maximizing && best > alpha {
            best
        } else {
            alpha
        };
        let beta = if !maximizing && best < beta {
            best
        } else {
            beta
        };
        if alpha >= beta {
            (best, searched.1)
        } else {
            cached_children(zobrist, board, remaining, alpha, beta, maximizing, best, k + 1, searched.1)
        }
    }
}

/// The choice at the root of the search: each legal movement of `board`
/// from the `k`-th on, in column order, is searched one movement less deep
/// by the other side, with the window narrowed to the best value so far; a
/// movement replaces the best only when its value is strictly better. Gives
/// the best value and the index (into the legal columns) of its movement.
pub open spec fn cached_choice(
    zobrist: ZobristTable,
    board: Board,
    remaining: nat,
    maximizing: bool,
    alpha: int,
    beta: int,
    best: int,
    index: int,
    k: nat,
    table: Map<u64, TranspositionTableEntry>,
) -> (int, int)
    decreases board.spec_legal_columns().len() - k,
{
    if remaining == 0 || k >= board.spec_legal_columns().len() {
        (best, index)
    } else {
        let searched = cached_value(zobrist, table_child(zobrist, board, k as int), (remaining - 1) as nat, alpha, beta, !maximizing, table);
        let better = (maximizing && searched.0 > best) || (!maximizing && searched.0 < best);
        let best = if better {
            searched.0
        } else {
            best
        };
        let index = if better {
            k as int
        } else {
            index
        };
        let alpha = if maximizing && best > alpha {
            best
        } else {
            alpha
        };
        let beta = if !maximizing && best < beta {
            best
        } else {
            beta
        };
        cached_choice(zobrist, board, remaining, maximizing, alpha, beta, best, index, k + 1, searched.1)
    }
}

/// The column that the search with a transposition table picks for
/// `board`, searching `depth` movements ahead from an empty table with the
/// widest window (Red maximizes).
pub open spec fn table_search_choice(zobrist: ZobristTable, board: Board, depth: nat) -> usize {
    let maximizing = board.spec_current_player() == Player::Red;
    let start = if maximizing {
        isize::MIN as int
    } else {
        isize::MAX as int
    };
    let empty = Map::<u64, TranspositionTableEntry>::empty();
    board.spec_legal_columns()[cached_choice(zobrist, board, depth, maximizing, isize::MIN as int, isize::MAX as int, start, 0, 0, empty).1]
}

/// The best value that the search with a transposition table finds at the
/// root of `board`, searching `depth` movements ahead from an empty table
/// with the widest window.
pub open spec fn table_search_value(zobrist: ZobristTable, board: Board, depth: nat) -> int {
    let maximizing = board.spec_current_player() == Player::Red;
    let start = if maximizing {
        isize::MIN as int
    } else {
        isize::MAX as int
    };
    let empty = Map::<u64, TranspositionTableEntry>::empty();
    cached_choice(zobrist, board, depth, maximizing, isize::MIN as int, isize::MAX as int, start, 0, 0, empty).0
}

/// Stripping the empty table leaves it empty.
pub proof fn lemma_stripped_empty()
    ensures
        stripped_table(Map::<u64, TranspositionTableEntry>::empty()) == Map::<u64, TranspositionTableEntry>::empty(),
{
    assert(stripped_table(Map::<u64, TranspositionTableEntry>::empty()) =~= Map::<u64, TranspositionTableEntry>::empty());
}

/// Stripping commutes with storing.
pub proof fn lemma_stripped_stored(table: Map<u64, TranspositionTableEntry>, hash: u64, entry: TranspositionTableEntry)
    ensures
        stripped_table(stored(table, hash, entry)) == stored(stripped_table(table), hash, stripped(entry)),
{
    assert(stripped_table(stored(table, hash, entry)) =~= stored(stripped_table(table), hash, stripped(entry)));
}

} // verus!
