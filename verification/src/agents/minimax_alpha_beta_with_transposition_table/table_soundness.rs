use vstd::prelude::*;

use crate::{
    agents::{
        game_tree::{
            alpha_beta_sound, best_choice, child_position, child_value, children_value, lemma_child_wf,
            lemma_children_value_monotone, minimax_choice, minimax_value,
        },
        minimax_alpha_beta_with_transposition_table::{
            table_bounded,
            table_search::{
                bound_kind, cached_children, cached_choice, cached_value, table_child, table_search_choice, table_search_value, usable,
            },
            transposition_table::{stored, NodeType, TranspositionTableEntry},
        },
    },
    game::{
        board::{lemma_in_progress_has_move, lemma_legal_columns, lemma_lowest_empty_some, Board},
        evaluation::{evaluation_bound, lemma_evaluate_bound, lemma_evaluation_bound_fits, spec_evaluate},
        player::Player,
        zobrist::ZobristTable,
    },
};

verus! {

/// Whether `a` and `b` hold the same position (grid, side to move and
/// movement count), whatever their hashes.
pub open spec fn same_position(a: Board, b: Board) -> bool {
    &&& a.spec_grid() == b.spec_grid()
    &&& a.spec_current_player() == b.spec_current_player()
    &&& a.spec_movements_played() == b.spec_movements_played()
}

/// The position that the movements `path` (each an index into the legal
/// columns of the position it is played in) lead to from `root`, the hash
/// kept up to date by `zobrist`; `None` when an index is out of range.
pub open spec fn follow(zobrist: ZobristTable, root: Board, path: Seq<int>) -> Option<Board>
    decreases path.len(),
{
    if path.len() == 0 {
        Some(root)
    } else {
        match follow(zobrist, root, path.drop_last()) {
            Some(previous) => if 0 <= path.last() < previous.spec_legal_columns().len() {
                Some(table_child(zobrist, previous, path.last()))
            } else {
                None
            },
            None => None,
        }
    }
}

/// Whether `board` is reached from `root` by `plies` legal movements, the
/// hash kept up to date by `zobrist`.
pub open spec fn reached(zobrist: ZobristTable, root: Board, board: Board, plies: nat) -> bool {
    exists|path: Seq<int>| path.len() == plies && #[trigger] follow(zobrist, root, path) == Some(board)
}

/// Whether the positions reached from `root` within `depth` movements have
/// pairwise distinct hashes (no Zobrist collision among them).
pub open spec fn distinct_hashes(zobrist: ZobristTable, root: Board, depth: nat) -> bool {
    forall|a: Board, b: Board, i: nat, j: nat|
        #![trigger reached(zobrist, root, a, i), reached(zobrist, root, b, j)]
        i <= depth && j <= depth && reached(zobrist, root, a, i) && reached(zobrist, root, b, j)
            && a.spec_zobrist_hash() == b.spec_zobrist_hash() ==> a == b
}

/// Whether the side that chooses `plies` movements below the root
/// maximizes, when the root's chooser maximizes exactly when `root_max`
/// holds: the choosers alternate.
pub open spec fn turn(root_max: bool, plies: nat) -> bool {
    if plies % 2 == 0 {
        root_max
    } else {
        !root_max
    }
}

/// Whether `entry` tells the truth about `board` searched `remaining`
/// movements deep: it was searched that deep, and its value is the minimax
/// value, a lower bound of it or an upper bound of it, as its kind says.
pub open spec fn sound_entry(entry: TranspositionTableEntry, board: Board, remaining: nat, maximizing: bool) -> bool {
    let exact = minimax_value(board, remaining, maximizing);
    &&& entry.depth == remaining
    &&& match entry.node_type {
        NodeType::Exact => entry.value == exact,
        NodeType::LowerBound => entry.value <= exact,
        NodeType::UpperBound => entry.value >= exact,
    }
}

/// Whether every entry that a position reached from `root` finds under its
/// hash tells the truth about it, searched to the depth left of `depth` by
/// the chooser of its turn.
pub open spec fn sound_table(
    zobrist: ZobristTable,
    root: Board,
    depth: nat,
    root_max: bool,
    table: Map<u64, TranspositionTableEntry>,
) -> bool {
    forall|board: Board, plies: nat|
        #![trigger reached(zobrist, root, board, plies)]
        plies <= depth && reached(zobrist, root, board, plies) && table.contains_key(board.spec_zobrist_hash())
            ==> sound_entry(table[board.spec_zobrist_hash()], board, (depth - plies) as nat, turn(root_max, plies))
}

/// The position after a legal movement, with or without the hash kept,
/// is reachable and is the same position either way.
pub proof fn lemma_table_child(zobrist: ZobristTable, board: Board, index: int)
    requires
        board.wf(),
        0 <= index < board.spec_legal_columns().len(),
    ensures
        ({
            let column = board.spec_legal_columns()[index];
            let child = table_child(zobrist, board, index);
            &&& board.spec_apply(column as int, Some(zobrist)) is Some
            &&& child.wf()
            &&& child_position(board, column).wf()
            &&& child.spec_movements_played() == board.spec_movements_played() + 1
            &&& child.spec_current_player() == board.spec_current_player().spec_opponent()
            &&& same_position(child, child_position(board, column))
        }),
{
    lemma_legal_columns(board);
    let column = board.spec_legal_columns()[index];
    lemma_lowest_empty_some(board.spec_grid(), column as int);
    board.lemma_apply(column as int, Some(zobrist));
    board.lemma_apply(column as int, None);
    lemma_child_wf(board, column);
}

/// The position a path leads to from a reachable root is reachable, and
/// has as many more movements played as the path is long.
proof fn lemma_follow(zobrist: ZobristTable, root: Board, path: Seq<int>)
    requires
        root.wf(),
        follow(zobrist, root, path) is Some,
    ensures
        follow(zobrist, root, path)->0.wf(),
        follow(zobrist, root, path)->0.spec_movements_played() == root.spec_movements_played() + path.len(),
    decreases path.len(),
{
    if path.len() > 0 {
        lemma_follow(zobrist, root, path.drop_last());
        lemma_table_child(zobrist, follow(zobrist, root, path.drop_last())->0, path.last());
    }
}

/// A position reached from a reachable root is reachable, and has as many
/// more movements played as it took to reach it.
pub proof fn lemma_reached(zobrist: ZobristTable, root: Board, board: Board, plies: nat)
    requires
        root.wf(),
        reached(zobrist, root, board, plies),
    ensures
        board.wf(),
        board.spec_movements_played() == root.spec_movements_played() + plies,
{
    let path = choose|path: Seq<int>| path.len() == plies && #[trigger] follow(zobrist, root, path) == Some(board);
    lemma_follow(zobrist, root, path);
}

/// The root is reached by no movement.
pub proof fn lemma_reached_root(zobrist: ZobristTable, root: Board)
    ensures
        reached(zobrist, root, root, 0),
{
    assert(follow(zobrist, root, Seq::<int>::empty()) == Some(root));
}

/// A legal movement from a reached position reaches one more movement deep.
pub proof fn lemma_reached_child(zobrist: ZobristTable, root: Board, board: Board, plies: nat, index: int)
    requires
        reached(zobrist, root, board, plies),
        0 <= index < board.spec_legal_columns().len(),
    ensures
        reached(zobrist, root, table_child(zobrist, board, index), plies + 1),
{
    let path = choose|path: Seq<int>| path.len() == plies && #[trigger] follow(zobrist, root, path) == Some(board);
    let longer = path.push(index);
    assert(longer.drop_last() =~= path);
    assert(follow(zobrist, root, longer) == Some(table_child(zobrist, board, index)));
}

/// The minimax value depends on the position only, not on the hash.
pub proof fn lemma_minimax_same_position(a: Board, b: Board, depth: nat, maximizing: bool)
    requires
        a.wf(),
        b.wf(),
        same_position(a, b),
    ensures
        minimax_value(a, depth, maximizing) == minimax_value(b, depth, maximizing),
    decreases depth, 2nat, 0nat,
{
    if depth > 0 && a.spec_game_state() is InProgress {
        lemma_children_same_position(a, b, depth, maximizing, a.spec_legal_columns().len());
    }
}

proof fn lemma_children_same_position(a: Board, b: Board, depth: nat, maximizing: bool, k: nat)
    requires
        a.wf(),
        b.wf(),
        same_position(a, b),
        depth > 0,
        k <= a.spec_legal_columns().len(),
    ensures
        children_value(a, depth, maximizing, k) == children_value(b, depth, maximizing, k),
    decreases depth, 1nat, k,
{
    if k > 0 {
        lemma_children_same_position(a, b, depth, maximizing, (k - 1) as nat);
        lemma_legal_columns(a);
        let column = a.spec_legal_columns()[k - 1];
        lemma_child_wf(a, column);
        lemma_child_wf(b, column);
        lemma_lowest_empty_some(a.spec_grid(), column as int);
        a.lemma_apply(column as int, None);
        b.lemma_apply(column as int, None);
        lemma_minimax_same_position(
            child_position(a, column),
            child_position(b, column),
            (depth - 1) as nat,
            !maximizing,
        );
        assert(child_value(a, depth, maximizing, k - 1) == child_value(b, depth, maximizing, k - 1));
    }
}

/// Storing an entry that tells the truth about a reached position keeps
/// every entry of the table truthful, and the table bounded.
proof fn lemma_store_sound(
    zobrist: ZobristTable,
    root: Board,
    depth: nat,
    root_max: bool,
    table: Map<u64, TranspositionTableEntry>,
    board: Board,
    plies: nat,
    entry: TranspositionTableEntry,
)
    requires
        root.wf(),
        distinct_hashes(zobrist, root, depth),
        plies <= depth,
        reached(zobrist, root, board, plies),
        sound_table(zobrist, root, depth, root_max, table),
        table_bounded(table),
        sound_entry(entry, board, (depth - plies) as nat, turn(root_max, plies)),
        -evaluation_bound() <= entry.value <= evaluation_bound(),
    ensures
        sound_table(zobrist, root, depth, root_max, stored(table, board.spec_zobrist_hash(), entry)),
        table_bounded(stored(table, board.spec_zobrist_hash(), entry)),
{
    let hash = board.spec_zobrist_hash();
    if table.contains_key(hash) {
        assert(sound_entry(table[hash], board, (depth - plies) as nat, turn(root_max, plies)));
    }
    let after = stored(table, hash, entry);
    lemma_reached(zobrist, root, board, plies);
    assert forall|other: Board, other_plies: nat|
        other_plies <= depth && reached(zobrist, root, other, other_plies) && after.contains_key(
            other.spec_zobrist_hash(),
        ) implies sound_entry(
            after[other.spec_zobrist_hash()],
            other,
            (depth - other_plies) as nat,
            turn(root_max, other_plies),
        ) by {
        if other.spec_zobrist_hash() == hash {
            assert(other == board);
            lemma_reached(zobrist, root, other, other_plies);
        }
    }
}

/// Law: with no hash collision among the positions reached from `root`, the
/// search with a transposition table gives every reached position the value
/// that alpha-beta promises for depth-limited minimax (exact inside the
/// window, a bound outside it), whichever side the root's chooser is, and
/// leaves only truthful entries behind.
pub proof fn lemma_cached_value_sound(
    zobrist: ZobristTable,
    root: Board,
    depth: nat,
    root_max: bool,
    board: Board,
    plies: nat,
    alpha: int,
    beta: int,
    table: Map<u64, TranspositionTableEntry>,
)
    requires
        root.wf(),
        depth <= usize::MAX,
        distinct_hashes(zobrist, root, depth),
        plies <= depth,
        reached(zobrist, root, board, plies),
        isize::MIN <= alpha < beta <= isize::MAX,
        sound_table(zobrist, root, depth, root_max, table),
        table_bounded(table),
    ensures
        ({
            let remaining = (depth - plies) as nat;
            let maximizing = turn(root_max, plies);
            let result = cached_value(zobrist, board, remaining, alpha, beta, maximizing, table);
            &&& alpha_beta_sound(board, remaining, maximizing, alpha, beta, result.0)
            &&& -evaluation_bound() <= result.0 <= evaluation_bound()
            &&& sound_table(zobrist, root, depth, root_max, result.1)
            &&& table_bounded(result.1)
        }),
    decreases depth - plies, 1nat, 0nat,
{
    let remaining = (depth - plies) as nat;
    let maximizing = turn(root_max, plies);
    let hash = board.spec_zobrist_hash();
    lemma_reached(zobrist, root, board, plies);
    lemma_evaluate_bound(board.spec_grid());
    lemma_evaluation_bound_fits();
    if table.contains_key(hash) {
        assert(sound_entry(table[hash], board, remaining, maximizing));
    }
    let hit = usable(table, hash, remaining);
    let entry = table[hash];
    let a = if hit && entry.node_type == NodeType::LowerBound && entry.value > alpha {
        entry.value as int
    } else {
        alpha
    };
    let b = if hit && entry.node_type == NodeType::UpperBound && entry.value < beta {
        entry.value as int
    } else {
        beta
    };
    if hit && (entry.node_type == NodeType::Exact || a >= b) {
    } else if remaining == 0 || !(board.spec_game_state() is InProgress) {
        let value = spec_evaluate(board.spec_grid());
        let new_entry = TranspositionTableEntry {
            value: value as isize,
            depth: remaining as usize,
            node_type: NodeType::Exact,
            source_node_id: None,
        };
        lemma_store_sound(zobrist, root, depth, root_max, table, board, plies, new_entry);
    } else {
        lemma_in_progress_has_move(board);
        let start = if maximizing {
            isize::MIN as int
        } else {
            isize::MAX as int
        };
        lemma_cached_children_sound(zobrist, root, depth, root_max, board, plies, a, b, a, b, start, 0, table);
        let searched = cached_children(zobrist, board, remaining, a, b, maximizing, start, 0, table);
        let new_entry = TranspositionTableEntry {
            value: searched.0 as isize,
            depth: remaining as usize,
            node_type: bound_kind(searched.0, a, b),
            source_node_id: None,
        };
        lemma_store_sound(zobrist, root, depth, root_max, searched.1, board, plies, new_entry);
    }
}

/// The movements of an unfinished reached position, searched in column
/// order from the `k`-th on, keep the fail-soft alpha-beta promise for the
/// window `(alpha0, beta0)` the position was entered with.
#[verifier::rlimit(40)]
pub proof fn lemma_cached_children_sound(
    zobrist: ZobristTable,
    root: Board,
    depth: nat,
    root_max: bool,
    board: Board,
    plies: nat,
    alpha0: int,
    beta0: int,
    alpha: int,
    beta: int,
    value: int,
    k: nat,
    table: Map<u64, TranspositionTableEntry>,
)
    requires
        root.wf(),
        depth <= usize::MAX,
        distinct_hashes(zobrist, root, depth),
        plies < depth,
        reached(zobrist, root, board, plies),
        board.spec_game_state() is InProgress,
        k <= board.spec_legal_columns().len(),
        isize::MIN <= alpha < beta <= isize::MAX,
        isize::MIN <= alpha0 < beta0 <= isize::MAX,
        sound_table(zobrist, root, depth, root_max, table),
        table_bounded(table),
        k == 0 ==> value == if turn(root_max, plies) {
            isize::MIN as int
        } else {
            isize::MAX as int
        },
        k > 0 ==> -evaluation_bound() <= value <= evaluation_bound(),
        turn(root_max, plies) ==> {
            &&& beta == beta0
            &&& alpha == if value > alpha0 {
                value
            } else {
                alpha0
            }
            &&& value > alpha0 ==> children_value(board, (depth - plies) as nat, true, k) == value
            &&& children_value(board, (depth - plies) as nat, true, k) <= value
        },
        !turn(root_max, plies) ==> {
            &&& alpha == alpha0
            &&& beta == if value < beta0 {
                value
            } else {
                beta0
            }
            &&& value < beta0 ==> children_value(board, (depth - plies) as nat, false, k) == value
            &&& children_value(board, (depth - plies) as nat, false, k) >= value
        },
    ensures
        ({
            let remaining = (depth - plies) as nat;
            let maximizing = turn(root_max, plies);
            let exact = children_value(board, remaining, maximizing, board.spec_legal_columns().len());
            let result = cached_children(zobrist, board, remaining, alpha, beta, maximizing, value, k, table);
            &&& result.0 <= alpha0 ==> exact <= result.0
            &&& result.0 >= beta0 ==> exact >= result.0
            &&& alpha0 < result.0 < beta0 ==> exact == result.0
            &&& -evaluation_bound() <= result.0 <= evaluation_bound()
            &&& sound_table(zobrist, root, depth, root_max, result.1)
            &&& table_bounded(result.1)
        }),
    decreases depth - plies, 0nat, board.spec_legal_columns().len() - k,
{
    let remaining = (depth - plies) as nat;
    let maximizing = turn(root_max, plies);
    let n = board.spec_legal_columns().len();
    lemma_reached(zobrist, root, board, plies);
    lemma_in_progress_has_move(board);
    lemma_evaluation_bound_fits();
    if k < n {
        let child = table_child(zobrist, board, k as int);
        let column = board.spec_legal_columns()[k as int];
        lemma_table_child(zobrist, board, k as int);
        lemma_reached_child(zobrist, root, board, plies, k as int);
        lemma_cached_value_sound(zobrist, root, depth, root_max, child, plies + 1, alpha, beta, table);
        assert(turn(root_max, plies + 1) == !maximizing);
        lemma_minimax_same_position(child, child_position(board, column), (remaining - 1) as nat, !maximizing);
        assert(child_value(board, remaining, maximizing, k as int) == minimax_value(
            child,
            (remaining - 1) as nat,
            !maximizing,
        ));
        assert(children_value(board, remaining, maximizing, (k + 1) as nat) == if maximizing {
            if child_value(board, remaining, maximizing, k as int) > children_value(board, remaining, maximizing, k) {
                child_value(board, remaining, maximizing, k as int)
            } else {
                children_value(board, remaining, maximizing, k)
            }
        } else {
            if child_value(board, remaining, maximizing, k as int) < children_value(board, remaining, maximizing, k) {
                child_value(board, remaining, maximizing, k as int)
            } else {
                children_value(board, remaining, maximizing, k)
            }
        });
        let searched = cached_value(zobrist, child, (remaining - 1) as nat, alpha, beta, !maximizing, table);
        let v = searched.0;
        let best = if (maximizing && v > value) || (!maximizing && v < value) {
            v
        } else {
            value
        };
        let alpha2 = if maximizing && best > alpha {
            best
        } else {
            alpha
        };
        let beta2 = if !maximizing && best < beta {
            best
        } else {
            beta
        };
        if alpha2 >= beta2 {
            lemma_children_value_monotone(board, remaining, maximizing, (k + 1) as nat, n);
        } else {
            lemma_cached_children_sound(
                zobrist,
                root,
                depth,
                root_max,
                board,
                plies,
                alpha0,
                beta0,
                alpha2,
                beta2,
                best,
                (k + 1) as nat,
                searched.1,
            );
        }
    }
}

/// At the root, with no hash collision, the search keeps the best value
/// and the first best movement of plain minimax over the movements seen.
proof fn lemma_cached_choice_sound(
    zobrist: ZobristTable,
    root: Board,
    depth: nat,
    alpha: int,
    beta: int,
    best: int,
    index: int,
    k: nat,
    table: Map<u64, TranspositionTableEntry>,
)
    requires
        root.wf(),
        1 <= depth <= usize::MAX,
        distinct_hashes(zobrist, root, depth),
        k <= root.spec_legal_columns().len(),
        best == best_choice(root, depth, root.spec_current_player() == Player::Red, k).0,
        index == best_choice(root, depth, root.spec_current_player() == Player::Red, k).1,
        root.spec_current_player() == Player::Red ==> beta == isize::MAX && alpha == best,
        root.spec_current_player() != Player::Red ==> alpha == isize::MIN && beta == best,
        k > 0 ==> -evaluation_bound() <= best <= evaluation_bound(),
        sound_table(zobrist, root, depth, root.spec_current_player() == Player::Red, table),
        table_bounded(table),
    ensures
        cached_choice(
            zobrist,
            root,
            depth,
            root.spec_current_player() == Player::Red,
            alpha,
            beta,
            best,
            index,
            k,
            table,
        ).0 == best_choice(
            root,
            depth,
            root.spec_current_player() == Player::Red,
            root.spec_legal_columns().len(),
        ).0,
        cached_choice(
            zobrist,
            root,
            depth,
            root.spec_current_player() == Player::Red,
            alpha,
            beta,
            best,
            index,
            k,
            table,
        ).1 == best_choice(
            root,
            depth,
            root.spec_current_player() == Player::Red,
            root.spec_legal_columns().len(),
        ).1,
    decreases root.spec_legal_columns().len() - k,
{
    let maximizing = root.spec_current_player() == Player::Red;
    let n = root.spec_legal_columns().len();
    lemma_evaluation_bound_fits();
    if k < n {
        let child = table_child(zobrist, root, k as int);
        let column = root.spec_legal_columns()[k as int];
        lemma_reached_root(zobrist, root);
        lemma_reached_child(zobrist, root, root, 0, k as int);
        lemma_table_child(zobrist, root, k as int);
        lemma_cached_value_sound(zobrist, root, depth, maximizing, child, 1, alpha, beta, table);
        assert(turn(maximizing, 1) == !maximizing);
        lemma_minimax_same_position(child, child_position(root, column), (depth - 1) as nat, !maximizing);
        assert(child_value(root, depth, maximizing, k as int) == minimax_value(child, (depth - 1) as nat, !maximizing));
        let searched = cached_value(zobrist, child, (depth - 1) as nat, alpha, beta, !maximizing, table);
        let better = (maximizing && searched.0 > best) || (!maximizing && searched.0 < best);
        let best2 = if better {
            searched.0
        } else {
            best
        };
        let index2 = if better {
            k as int
        } else {
            index
        };
        let alpha2 = if maximizing && best2 > alpha {
            best2
        } else {
            alpha
        };
        let beta2 = if !maximizing && best2 < beta {
            best2
        } else {
            beta
        };
        assert(best_choice(root, depth, maximizing, (k + 1) as nat) == (best2, index2));
        lemma_cached_choice_sound(zobrist, root, depth, alpha2, beta2, best2, index2, (k + 1) as nat, searched.1);
    }
}

/// Law: with no hash collision among the positions reached from `root`
/// within `depth` movements, the search with a transposition table picks
/// the movement of plain depth-limited minimax (the first legal movement
/// whose value is best for the side to move), and finds its value.
pub proof fn lemma_table_search_choice(zobrist: ZobristTable, root: Board, depth: nat)
    requires
        root.wf(),
        1 <= depth <= usize::MAX,
        distinct_hashes(zobrist, root, depth),
    ensures
        table_search_choice(zobrist, root, depth) == minimax_choice(root, depth),
        table_search_value(zobrist, root, depth) == best_choice(
            root,
            depth,
            root.spec_current_player() == Player::Red,
            root.spec_legal_columns().len(),
        ).0,
{
    let empty = Map::<u64, TranspositionTableEntry>::empty();
    let maximizing = root.spec_current_player() == Player::Red;
    assert(sound_table(zobrist, root, depth, maximizing, empty));
    assert(table_bounded(empty));
    assert(best_choice(root, depth, maximizing, 0) == (if maximizing {
        isize::MIN as int
    } else {
        isize::MAX as int
    }, 0int));
    lemma_cached_choice_sound(
        zobrist,
        root,
        depth,
        isize::MIN as int,
        isize::MAX as int,
        if maximizing {
            isize::MIN as int
        } else {
            isize::MAX as int
        },
        0,
        0,
        empty,
    );
}

} // verus!
