use vstd::prelude::*;

use crate::{
    agents::{
        minimax_alpha_beta::{capped_product, lemma_stack_estimate_of_max, level, saturating_product, stack_estimate},
        minimax_alpha_beta_with_transposition_table::table_search::{
            cached_children, cached_choice, cached_value, lemma_stripped_empty, lemma_stripped_stored, stripped_table,
            table_child, table_search_choice, usable,
        },
        minimax_alpha_beta_with_transposition_table::table_search::table_search_value,
        minimax_alpha_beta_with_transposition_table::table_soundness::{
            distinct_hashes, lemma_cached_value_sound, lemma_reached_root, lemma_table_search_choice, sound_table,
        },
        game_tree::{alpha_beta_sound, best_choice, minimax_choice},
        minimax_alpha_beta_with_transposition_table::transposition_table::{
            stored, NodeType, TranspositionTable, TranspositionTableEntry,
        },
        search_metrics::{clock_now, nanos_since, SearchMetrics},
        Agent,
    },
    experiment::graphviz::{
        board_text,
        minimax_alpha_beta_with_transposition_table::{
            MinimaxAlphaBetaWithTranspositionTableGraph, MinimaxAlphaBetaWithTranspositionTableGraphEdge,
            MinimaxAlphaBetaWithTranspositionTableGraphNode,
        },
    },
    game::{
        board::{lemma_in_progress_has_move, lemma_legal_columns, Board, COLUMNS, ROWS},
        evaluation::{evaluation_bound, lemma_evaluate_bound, lemma_evaluation_bound_fits},
        game_state::GameState,
        match_context::MatchContext,
        movement::Movement,
        player::Player,
    },
};

pub mod table_search;
pub mod table_soundness;
pub mod transposition_table;

verus! {

/// Every value in the table lies within the evaluation bound.
pub open spec fn table_bounded(table: Map<u64, TranspositionTableEntry>) -> bool {
    forall|hash: u64|
        #[trigger] table.contains_key(hash) ==> -evaluation_bound() <= table[hash].value <= evaluation_bound()
}

/// The counters that a search with a transposition table leaves agree with
/// each other: each leaf is evaluated once, a cutoff from the table follows a
/// hit, and the table never held more entries than were stored. While the
/// expanded count stays below its maximum (the counters saturate there),
/// every position searched below the root makes exactly one lookup, which
/// hits or misses, and at most one store.
pub open spec fn table_search_counts(metrics: SearchMetrics) -> bool {
    &&& metrics.leaf_nodes == metrics.nodes_evaluated
    &&& metrics.tt_cutoffs <= metrics.tt_hits
    &&& metrics.peak_tt_entries <= metrics.tt_stores
    &&& metrics.nodes_expanded < usize::MAX ==> {
        &&& metrics.nodes_expanded == metrics.tt_lookups + 1
        &&& metrics.tt_lookups == metrics.tt_hits + metrics.tt_misses
        &&& metrics.tt_stores <= metrics.tt_lookups
    }
}

/// Whether a position that the search enters with the tree `graph` gets a
/// node: recording is on and the tree is not full.
pub open spec fn records_node(graph: MinimaxAlphaBetaWithTranspositionTableGraph) -> bool {
    graph.config.enabled && graph.nodes@.len() < graph.config.max_nodes
}

/// `after` keeps what `before` recorded: the same configuration, every
/// earlier node (but `own`, when given) and every earlier edge, in place;
/// and when `before` records no node, no node or edge is added.
pub open spec fn graph_frame(
    before: MinimaxAlphaBetaWithTranspositionTableGraph,
    after: MinimaxAlphaBetaWithTranspositionTableGraph,
    own: Option<usize>,
) -> bool {
    &&& after.config == before.config
    &&& after.nodes@.len() >= before.nodes@.len()
    &&& forall|i: int|
        0 <= i < before.nodes@.len() && (own is None || i != own->0) ==> #[trigger] after.nodes@[i]
            == before.nodes@[i]
    &&& after.edges@.len() >= before.edges@.len()
    &&& forall|i: int| 0 <= i < before.edges@.len() ==> #[trigger] after.edges@[i] == before.edges@[i]
    &&& !records_node(before) ==> after.nodes@.len() == before.nodes@.len() && after.edges@ == before.edges@
}

/// `a` is `b` but for the cutoff mark.
pub open spec fn same_but_cutoff(
    a: MinimaxAlphaBetaWithTranspositionTableGraphNode,
    b: MinimaxAlphaBetaWithTranspositionTableGraphNode,
) -> bool {
    a == (MinimaxAlphaBetaWithTranspositionTableGraphNode { cutoff_occurred: a.cutoff_occurred, ..b })
}

/// Whether the table settles a position with hash `hash` searched
/// `remaining` movements deep with the window `(alpha, beta)`: an entry
/// searched at least as deep is exact, or its bound closes the window.
pub open spec fn answered_by_table(
    table: Map<u64, TranspositionTableEntry>,
    hash: u64,
    remaining: nat,
    alpha: int,
    beta: int,
) -> bool {
    let entry = table[hash];
    let alpha = if entry.node_type == NodeType::LowerBound && entry.value > alpha {
        entry.value as int
    } else {
        alpha
    };
    let beta = if entry.node_type == NodeType::UpperBound && entry.value < beta {
        entry.value as int
    } else {
        beta
    };
    usable(table, hash, remaining) && (entry.node_type == NodeType::Exact || alpha >= beta)
}

/// None of the counters that the search counts with has reached its
/// maximum (they saturate there).
pub open spec fn counters_below_max(metrics: SearchMetrics) -> bool {
    &&& metrics.nodes_expanded < usize::MAX
    &&& metrics.tt_lookups < usize::MAX
    &&& metrics.tt_hits < usize::MAX
    &&& metrics.tt_misses < usize::MAX
    &&& metrics.tt_cutoffs < usize::MAX
    &&& metrics.tt_stores < usize::MAX
    &&& metrics.leaf_nodes < usize::MAX
    &&& metrics.nodes_evaluated < usize::MAX
}

/// Each of those counters is at least as large in `after` as in `before`.
pub open spec fn counters_grow(before: SearchMetrics, after: SearchMetrics) -> bool {
    &&& before.nodes_expanded <= after.nodes_expanded
    &&& before.tt_lookups <= after.tt_lookups
    &&& before.tt_hits <= after.tt_hits
    &&& before.tt_misses <= after.tt_misses
    &&& before.tt_cutoffs <= after.tt_cutoffs
    &&& before.tt_stores <= after.tt_stores
    &&& before.leaf_nodes <= after.leaf_nodes
    &&& before.nodes_evaluated <= after.nodes_evaluated
}

/// What searching positions adds to the counters, from `before` to `after`,
/// when none of them saturates: one lookup per position expanded, which
/// hits or misses; one evaluation per leaf; at most one cutoff from the
/// table per hit, and at most one store per lookup.
pub open spec fn table_search_steps(before: SearchMetrics, after: SearchMetrics) -> bool {
    counters_below_max(after) ==> {
        &&& after.nodes_expanded - before.nodes_expanded == after.tt_lookups - before.tt_lookups
        &&& after.tt_lookups - before.tt_lookups == (after.tt_hits - before.tt_hits) + (after.tt_misses
            - before.tt_misses)
        &&& after.leaf_nodes - before.leaf_nodes == after.nodes_evaluated - before.nodes_evaluated
        &&& after.tt_cutoffs - before.tt_cutoffs <= after.tt_hits - before.tt_hits
        &&& after.tt_stores - before.tt_stores <= after.tt_lookups - before.tt_lookups
    }
}

/// What the counters keep while a search runs, `entries` being the number
/// of entries in the table.
spec fn counts_kept(metrics: SearchMetrics, entries: nat) -> bool {
    &&& metrics.leaf_nodes == metrics.nodes_evaluated
    &&& metrics.tt_cutoffs <= metrics.tt_hits
    &&& metrics.peak_tt_entries <= metrics.tt_stores
    &&& metrics.tt_stores < usize::MAX ==> entries <= metrics.tt_stores
    &&& metrics.nodes_expanded < usize::MAX ==> {
        &&& metrics.nodes_expanded == metrics.tt_lookups + 1
        &&& metrics.tt_lookups == metrics.tt_hits + metrics.tt_misses
    }
}

/// Minimax search with alpha-beta pruning that stores search results in a
/// transposition table keyed by Zobrist hash, optionally recording the tree.
pub struct MinimaxAlphaBetaWithTranspositionTable {
    depth_limit: usize,
    metrics: SearchMetrics,
    table: TranspositionTable,
    pub graph: MinimaxAlphaBetaWithTranspositionTableGraph,
}

impl MinimaxAlphaBetaWithTranspositionTable {
    pub closed spec fn spec_depth_limit(self) -> nat {
        self.depth_limit as nat
    }

    pub closed spec fn spec_table(self) -> Map<u64, TranspositionTableEntry> {
        self.table@
    }

    pub closed spec fn spec_graph(self) -> MinimaxAlphaBetaWithTranspositionTableGraph {
        self.graph
    }

    /// A searcher that looks `depth_limit` movements ahead with an empty
    /// table, and records at most `max_nodes` nodes of its tree (nodes below
    /// the root only when `generate_graph` is set).
    pub fn new(depth_limit: usize, max_nodes: usize, generate_graph: bool) -> (agent: Self)
        ensures
            agent.spec_depth_limit() == depth_limit,
            agent.spec_metrics() == SearchMetrics::zero(),
            agent.spec_table() == Map::<u64, TranspositionTableEntry>::empty(),
            agent.spec_graph().config.max_nodes == max_nodes,
            agent.spec_graph().config.enabled == generate_graph,
            agent.spec_graph().nodes@.len() == 0,
            agent.spec_graph().edges@.len() == 0,
    {
        Self {
            depth_limit,
            metrics: SearchMetrics::default(),
            table: TranspositionTable::new(),
            graph: MinimaxAlphaBetaWithTranspositionTableGraph::new(max_nodes, generate_graph),
        }
    }

    fn store(&mut self, hash: u64, entry: TranspositionTableEntry)
        requires
            table_bounded(old(self).table@),
            -evaluation_bound() <= entry.value <= evaluation_bound(),
        ensures
            table_bounded(final(self).table@),
            final(self).table@ == stored(old(self).table@, hash, entry),
            old(self).table@.len() <= final(self).table@.len() <= old(self).table@.len() + 1,
            final(self).depth_limit == old(self).depth_limit,
            final(self).graph == old(self).graph,
            final(self).metrics.tt_stores == if old(self).metrics.tt_stores == usize::MAX {
                usize::MAX as int
            } else {
                old(self).metrics.tt_stores + 1
            },
            final(self).metrics.nodes_expanded == old(self).metrics.nodes_expanded,
            final(self).metrics.tt_lookups == old(self).metrics.tt_lookups,
            final(self).metrics.tt_hits == old(self).metrics.tt_hits,
            final(self).metrics.tt_misses == old(self).metrics.tt_misses,
            final(self).metrics.tt_cutoffs == old(self).metrics.tt_cutoffs,
            final(self).metrics.leaf_nodes == old(self).metrics.leaf_nodes,
            final(self).metrics.nodes_evaluated == old(self).metrics.nodes_evaluated,
            final(self).metrics.peak_tt_entries == old(self).metrics.peak_tt_entries,
            final(self).metrics.max_depth_reached == old(self).metrics.max_depth_reached,
            final(self).metrics.peak_frontier_size == old(self).metrics.peak_frontier_size,
            final(self).metrics.peak_nodes_in_memory == old(self).metrics.peak_nodes_in_memory,
            final(self).metrics.estimated_stack_memory_bytes == old(self).metrics.estimated_stack_memory_bytes,
    {
        self.table.insert(hash, entry);
        self.metrics.tt_stores = self.metrics.tt_stores.saturating_add(1);
    }

    fn search(&mut self, match_context: &MatchContext) -> (movement: Movement)
        requires
            match_context.wf(),
            old(self).spec_depth_limit() >= 1,
            match_context.spec_board().spec_legal_columns().len() > 0,
        ensures
            match_context.spec_board().spec_is_legal(movement.column as int),
            movement.column == table_search_choice(
                match_context.spec_zobrist(),
                match_context.spec_board(),
                old(self).spec_depth_limit(),
            ),
            distinct_hashes(match_context.spec_zobrist(), match_context.spec_board(), old(self).spec_depth_limit())
                ==> movement.column == minimax_choice(match_context.spec_board(), old(self).spec_depth_limit()),
            table_search_counts(final(self).spec_metrics()),
            1 <= final(self).spec_metrics().max_depth_reached <= old(self).spec_depth_limit(),
            final(self).spec_metrics().peak_nodes_in_memory == final(self).spec_metrics().max_depth_reached,
            final(self).spec_metrics().estimated_stack_memory_bytes == stack_estimate(
                final(self).spec_metrics().max_depth_reached as int,
            ),
            final(self).spec_metrics().peak_frontier_size <= COLUMNS,
            final(self).spec_metrics().peak_structure_memory_bytes == capped_product(
                final(self).spec_metrics().peak_tt_entries as int,
                vstd::layout::size_of::<TranspositionTableEntry>() as int,
            ),
            old(self).spec_graph().nodes@.len() < old(self).spec_graph().config.max_nodes ==> {
                let id = old(self).spec_graph().nodes@.len();
                let root = final(self).spec_graph().nodes@[id as int];
                let board = match_context.spec_board();
                let depth = old(self).spec_depth_limit();
                &&& root.id == id
                &&& root.value is Some
                &&& root.value->0 == table_search_value(match_context.spec_zobrist(), board, depth)
                &&& distinct_hashes(match_context.spec_zobrist(), board, depth) ==> root.value->0 == best_choice(
                    board,
                    depth,
                    board.spec_current_player() == Player::Red,
                    board.spec_legal_columns().len(),
                ).0
                &&& root.player == board.spec_current_player()
                &&& root.board@ == board_text(board.spec_grid(), ROWS as int)
                &&& root.depth == 0
                &&& root.alpha_in == isize::MIN
                &&& root.beta_in == isize::MAX
                &&& !root.resolved_by_tt
            },
            final(self).spec_depth_limit() == old(self).spec_depth_limit(),
    {
        self.reset_metrics();
        self.table.clear();

        let start = clock_now();

        let mut alpha = isize::MIN;
        let mut beta = isize::MAX;

        let board = match_context.board();
        proof {
            use_type_invariant(board);
            lemma_legal_columns(*board);
            lemma_evaluation_bound_fits();
        }
        let root = self.graph.create_node(board, 0, alpha, beta);
        let ghost root_node = self.graph.nodes@[old(self).graph.nodes@.len() as int];
        self.metrics.nodes_expanded = 1;

        let maximizing = board.current_player() == Player::Red;

        let legal_movements = board.legal_movements();

        let mut best_movement = legal_movements[0];

        let mut best_score = if maximizing {
            isize::MIN
        } else {
            isize::MAX
        };

        let ghost b = *board;
        let ghost n = legal_movements@.len();
        let ghost bound = evaluation_bound();
        let ghost depth_limit = self.depth_limit;
        let ghost z = match_context.spec_zobrist();
        let ghost start_score: int = if maximizing {
            isize::MIN as int
        } else {
            isize::MAX as int
        };
        let ghost empty = Map::<u64, TranspositionTableEntry>::empty();
        let ghost target = cached_choice(
            z,
            b,
            depth_limit as nat,
            maximizing,
            isize::MIN as int,
            isize::MAX as int,
            start_score,
            0,
            0,
            empty,
        );
        let ghost mut best_index: int = 0;
        proof {
            lemma_stripped_empty();
        }

        proof {
            assert(self.table@.len() == 0);
        }

        let mut k: usize = 0;
        while k < legal_movements.len()
            invariant
                k <= n,
                z == match_context.spec_zobrist(),
                maximizing == (b.spec_current_player() == Player::Red),
                cached_choice(
                    z,
                    b,
                    depth_limit as nat,
                    maximizing,
                    alpha as int,
                    beta as int,
                    best_score as int,
                    best_index,
                    k as nat,
                    stripped_table(self.table@),
                ) == target,
                0 <= best_index < n,
                best_movement.column == b.spec_legal_columns()[best_index],
                n == legal_movements@.len(),
                n == b.spec_legal_columns().len(),
                bound == evaluation_bound(),
                isize::MIN < -bound,
                bound < isize::MAX,
                b == *board,
                self.depth_limit >= 1,
                self.depth_limit == depth_limit,
                table_bounded(self.table@),
                forall|i: int| 0 <= i < n ==> (#[trigger] legal_movements@[i]).column == b.spec_legal_columns()[i],
                forall|i: int| 0 <= i < n ==> b.spec_is_legal(#[trigger] b.spec_legal_columns()[i] as int),
                b.spec_is_legal(best_movement.column as int),
                k == 0 ==> best_score == if maximizing { isize::MIN } else { isize::MAX },
                k > 0 ==> -bound <= best_score <= bound,
                maximizing ==> beta == isize::MAX && alpha == best_score,
                !maximizing ==> alpha == isize::MIN && beta == best_score,
                root is Some ==> root->0 < self.graph.nodes@.len(),
                root is Some ==> root->0 == old(self).graph.nodes@.len() && self.graph.nodes@[root->0 as int] == root_node,
                counts_kept(self.metrics, self.table@.len()),
                self.metrics.nodes_expanded < usize::MAX ==> self.metrics.tt_stores <= self.metrics.tt_lookups,
                self.metrics.max_depth_reached <= depth_limit,
                k > 0 ==> self.metrics.max_depth_reached >= 1,
                self.metrics.peak_nodes_in_memory == self.metrics.max_depth_reached,
                self.metrics.estimated_stack_memory_bytes == stack_estimate(self.metrics.max_depth_reached as int),
                self.metrics.peak_frontier_size <= COLUMNS,
            ensures
                1 <= self.metrics.max_depth_reached <= depth_limit,
                self.metrics.peak_nodes_in_memory == self.metrics.max_depth_reached,
                self.metrics.estimated_stack_memory_bytes == stack_estimate(self.metrics.max_depth_reached as int),
                self.metrics.peak_frontier_size <= COLUMNS,
                counts_kept(self.metrics, self.table@.len()),
                self.metrics.nodes_expanded < usize::MAX ==> self.metrics.tt_stores <= self.metrics.tt_lookups,
                b.spec_is_legal(best_movement.column as int),
                best_movement.column == b.spec_legal_columns()[target.1],
                best_score as int == target.0,
                root is Some ==> root->0 < self.graph.nodes@.len(),
                root is Some ==> self.graph.nodes@[root->0 as int] == root_node,
                self.depth_limit == depth_limit,
            decreases n - k,
        {
            let movement = legal_movements[k];
            let child = board.apply_movement(movement, Some(match_context.zobrist())).unwrap();
            let ghost before = (alpha as int, beta as int, best_score as int, best_index, stripped_table(self.table@));
            proof {
                assert(child == table_child(z, b, k as int));
            }

            let score = self.minimax(
                &child,
                self.depth_limit - 1,
                alpha,
                beta,
                !maximizing,
                root,
                Some(movement),
                match_context,
            );

            if maximizing {
                if score > best_score {
                    best_score = score;
                    best_movement = movement;
                    proof {
                        best_index = k as int;
                    }
                }

                if best_score > alpha {
                    alpha = best_score;
                }
                if alpha >= beta {
                    // Unreachable: the best score stays within the evaluation
                    // bound, below `isize::MAX`, so the window stays open.
                    proof {
                        assert(false);
                    }
                    break;
                }
            } else {
                if score < best_score {
                    best_score = score;
                    best_movement = movement;
                    proof {
                        best_index = k as int;
                    }
                }

                if best_score < beta {
                    beta = best_score;
                }
                if alpha >= beta {
                    // Unreachable: the best score stays within the evaluation
                    // bound, below `isize::MAX`, so the window stays open.
                    proof {
                        assert(false);
                    }
                    break;
                }
            }
            proof {
                assert(cached_choice(z, b, depth_limit as nat, maximizing, before.0, before.1, before.2, before.3, k as nat, before.4)
                    == cached_choice(
                    z,
                    b,
                    depth_limit as nat,
                    maximizing,
                    alpha as int,
                    beta as int,
                    best_score as int,
                    best_index,
                    (k + 1) as nat,
                    stripped_table(self.table@),
                ));
            }
            k += 1;
        }

        proof {
            if distinct_hashes(z, b, depth_limit as nat) {
                lemma_table_search_choice(z, b, depth_limit as nat);
            }
        }

        match root {
            Some(root_id) => self.graph.record_value(root_id, best_score, alpha, beta, false),
            None => {},
        }

        self.metrics.peak_tt_entries = self.table.len();
        self.metrics.peak_structure_memory_bytes = saturating_product(
            self.table.len(),
            std::mem::size_of::<TranspositionTableEntry>(),
        );

        self.metrics.elapsed_time_ns = nanos_since(&start);

        best_movement
    }

    #[verifier::rlimit(100)]
    #[verifier::spinoff_prover]
    fn minimax(
        &mut self,
        board: &Board,
        remaining_depth: usize,
        alpha: isize,
        beta: isize,
        maximizing: bool,
        parent_id: Option<usize>,
        incoming_movement: Option<Movement>,
        match_context: &MatchContext,
    ) -> (value: isize)
        requires
            alpha < beta,
            table_bounded(old(self).table@),
        ensures
            counters_grow(old(self).metrics, final(self).metrics),
            final(self).metrics.max_depth_reached >= old(self).metrics.max_depth_reached,
            final(self).metrics.max_depth_reached >= old(self).depth_limit - remaining_depth,
            final(self).metrics.peak_frontier_size >= old(self).metrics.peak_frontier_size,
            final(self).metrics.peak_frontier_size >= board.spec_legal_columns().len(),
            old(self).metrics.peak_frontier_size <= COLUMNS ==> final(self).metrics.peak_frontier_size <= COLUMNS,
            old(self).metrics.peak_nodes_in_memory == old(self).metrics.max_depth_reached
                ==> final(self).metrics.peak_nodes_in_memory == final(self).metrics.max_depth_reached,
            old(self).metrics.estimated_stack_memory_bytes == stack_estimate(
                old(self).metrics.max_depth_reached as int,
            ) ==> final(self).metrics.estimated_stack_memory_bytes == stack_estimate(
                final(self).metrics.max_depth_reached as int,
            ),
            old(self).metrics.max_depth_reached <= old(self).depth_limit ==> final(self).metrics.max_depth_reached
                <= old(self).depth_limit,
            table_search_steps(old(self).metrics, final(self).metrics),
            counts_kept(old(self).metrics, old(self).table@.len()) ==> {
                &&& counts_kept(final(self).metrics, final(self).table@.len())
                &&& final(self).metrics.nodes_expanded < usize::MAX ==> final(self).metrics.tt_stores
                    - old(self).metrics.tt_stores <= final(self).metrics.tt_lookups - old(self).metrics.tt_lookups
            },
            graph_frame(old(self).graph, final(self).graph, None),
            old(self).table@ == Map::<u64, TranspositionTableEntry>::empty() && distinct_hashes(
                match_context.spec_zobrist(),
                *board,
                remaining_depth as nat,
            ) ==> alpha_beta_sound(*board, remaining_depth as nat, maximizing, alpha as int, beta as int, value as int),
            -evaluation_bound() <= value <= evaluation_bound(),
            table_bounded(final(self).table@),
            final(self).depth_limit == old(self).depth_limit,
            final(self).graph.nodes@.len() >= old(self).graph.nodes@.len(),
            final(self).graph.config == old(self).graph.config,
            value as int == cached_value(
                match_context.spec_zobrist(),
                *board,
                remaining_depth as nat,
                alpha as int,
                beta as int,
                maximizing,
                stripped_table(old(self).table@),
            ).0,
            stripped_table(final(self).table@) == cached_value(
                match_context.spec_zobrist(),
                *board,
                remaining_depth as nat,
                alpha as int,
                beta as int,
                maximizing,
                stripped_table(old(self).table@),
            ).1,
        decreases remaining_depth,
    {
        proof {
            use_type_invariant(board);
            lemma_legal_columns(*board);
            lemma_evaluate_bound(board.spec_grid());
            lemma_evaluation_bound_fits();
            if old(self).table@ == Map::<u64, TranspositionTableEntry>::empty() {
                lemma_stripped_empty();
                lemma_reached_root(match_context.spec_zobrist(), *board);
                assert(sound_table(
                    match_context.spec_zobrist(),
                    *board,
                    remaining_depth as nat,
                    maximizing,
                    Map::<u64, TranspositionTableEntry>::empty(),
                ));
                if distinct_hashes(match_context.spec_zobrist(), *board, remaining_depth as nat) {
                    lemma_cached_value_sound(
                        match_context.spec_zobrist(),
                        *board,
                        remaining_depth as nat,
                        maximizing,
                        *board,
                        0,
                        alpha as int,
                        beta as int,
                        Map::<u64, TranspositionTableEntry>::empty(),
                    );
                }
            }
        }
        let ghost kept = counts_kept(old(self).metrics, old(self).table@.len());
        let current_depth = self.depth_limit.saturating_sub(remaining_depth);

        let node_id = if self.graph.config.enabled {
            let node_id = self.graph.create_node(board, current_depth, alpha, beta);

            match (node_id, parent_id, incoming_movement) {
                (Some(child_id), Some(parent_id), Some(movement)) => {
                    self.graph.connect(parent_id, child_id, movement);
                },
                _ => {},
            }

            node_id
        } else {
            None
        };

        //
        // VISITED NODE
        //
        self.metrics.nodes_expanded = self.metrics.nodes_expanded.saturating_add(1);
        self.metrics.max_depth_reached = self.metrics.max_depth_reached.max(current_depth);

        //
        // FRONTIER
        //
        let legal_movements = board.legal_movements();
        self.metrics.peak_frontier_size = self.metrics.peak_frontier_size.max(legal_movements.len());

        //
        // STACK (approximation)
        //
        self.metrics.peak_nodes_in_memory = self.metrics.peak_nodes_in_memory.max(current_depth);
        proof {
            lemma_stack_estimate_of_max(old(self).metrics.max_depth_reached as int, current_depth as int);
        }
        self.metrics.estimated_stack_memory_bytes = self.metrics.estimated_stack_memory_bytes.max(
            saturating_product(current_depth, std::mem::size_of::<Board>()),
        );

        let mut alpha = alpha;
        let mut beta = beta;

        //
        // TT LOOKUP
        //
        self.metrics.tt_lookups = self.metrics.tt_lookups.saturating_add(1);
        let hash = board.zobrist_hash();
        let ghost z = match_context.spec_zobrist();
        let ghost t0 = stripped_table(self.table@);

        match self.table.get(hash) {
            Some(found) => {
                let entry = *found;
                self.metrics.tt_hits = self.metrics.tt_hits.saturating_add(1);

                match node_id {
                    Some(node_id) => self.graph.record_tt_hit(node_id, &entry),
                    None => {},
                }

                if entry.depth >= remaining_depth {
                    match entry.node_type {
                        NodeType::Exact => {
                            match node_id {
                                Some(node_id) => self.graph.record_value(node_id, entry.value, alpha, beta, true),
                                None => {},
                            }

                            return entry.value;
                        },
                        NodeType::LowerBound => {
                            alpha = alpha.max(entry.value);
                        },
                        NodeType::UpperBound => {
                            beta = beta.min(entry.value);
                        },
                    }

                    if alpha >= beta {
                        self.metrics.tt_cutoffs = self.metrics.tt_cutoffs.saturating_add(1);

                        match node_id {
                            Some(node_id) => {
                                self.graph.mark_cutoff(node_id);
                                self.graph.record_value(node_id, entry.value, alpha, beta, true);
                            },
                            None => {},
                        }

                        return entry.value;
                    }
                }
            },
            None => {
                self.metrics.tt_misses = self.metrics.tt_misses.saturating_add(1);
            },
        }

        let entry_alpha = alpha;
        let entry_beta = beta;

        //
        // DEPTH CUTOFF
        //
        if remaining_depth == 0 {
            self.metrics.leaf_nodes = self.metrics.leaf_nodes.saturating_add(1);

            let value = board.evaluate();
            self.metrics.nodes_evaluated = self.metrics.nodes_evaluated.saturating_add(1);

            let entry = TranspositionTableEntry {
                value,
                depth: remaining_depth,
                node_type: NodeType::Exact,
                source_node_id: node_id,
            };
            proof {
                lemma_stripped_stored(self.table@, hash, entry);
            }
            self.store(hash, entry);

            match node_id {
                Some(node_id) => self.graph.record_value(node_id, value, alpha, beta, false),
                None => {},
            }

            return value;
        }

        //
        // TERMINAL NODE
        //
        match board.game_state() {
            GameState::InProgress => {},
            _ => {
                self.metrics.leaf_nodes = self.metrics.leaf_nodes.saturating_add(1);

                let value = board.evaluate();
                self.metrics.nodes_evaluated = self.metrics.nodes_evaluated.saturating_add(1);

                let entry = TranspositionTableEntry {
                    value,
                    depth: remaining_depth,
                    node_type: NodeType::Exact,
                    source_node_id: node_id,
                };
                proof {
                    lemma_stripped_stored(self.table@, hash, entry);
                }
                self.store(hash, entry);

                match node_id {
                    Some(node_id) => self.graph.record_value(node_id, value, alpha, beta, false),
                    None => {},
                }

                return value;
            },
        }

        let ghost b = *board;
        let ghost n = legal_movements@.len();
        let ghost bound = evaluation_bound();
        let ghost start_len = old(self).graph.nodes@.len();
        let ghost depth_limit = self.depth_limit;
        let ghost config = self.graph.config;
        let ghost counts_mid = self.metrics;
        let ghost graph_mid = self.graph;
        proof {
            lemma_in_progress_has_move(b);
        }

        //
        // SEARCH
        //
        let value = if maximizing {
            let mut value = isize::MIN;

            let mut k: usize = 0;
            while k < legal_movements.len()
                invariant_except_break
                    alpha < beta,
                    k == 0 ==> value == isize::MIN,
                    graph_frame(graph_mid, self.graph, None),
                    cached_children(z, b, remaining_depth as nat, alpha as int, beta as int, true, value as int, k as nat, stripped_table(self.table@))
                        == cached_children(z, b, remaining_depth as nat, entry_alpha as int, entry_beta as int, true, isize::MIN as int, 0, t0),
                    k > 0 ==> -bound <= value <= bound,
                invariant
                    k <= n,
                    n > 0,
                    n == legal_movements@.len(),
                    n == b.spec_legal_columns().len(),
                    bound == evaluation_bound(),
                    isize::MIN < -bound,
                    bound < isize::MAX,
                    b == *board,
                    z == match_context.spec_zobrist(),
                    remaining_depth > 0,
                    forall|i: int| 0 <= i < n ==> (#[trigger] legal_movements@[i]).column == b.spec_legal_columns()[i],
                    forall|i: int| 0 <= i < n ==> b.spec_is_legal(#[trigger] b.spec_legal_columns()[i] as int),
                    node_id is Some ==> node_id->0 < self.graph.nodes@.len(),
                    self.graph.nodes@.len() >= start_len,
                    graph_frame(graph_mid, self.graph, node_id),
                    node_id is Some ==> node_id->0 < graph_mid.nodes@.len() && same_but_cutoff(
                        self.graph.nodes@[node_id->0 as int],
                        graph_mid.nodes@[node_id->0 as int],
                    ),
                    self.depth_limit == depth_limit,
                    self.graph.config == config,
                    table_bounded(self.table@),
                    counters_grow(counts_mid, self.metrics),
                    table_search_steps(counts_mid, self.metrics),
                    self.metrics.max_depth_reached >= counts_mid.max_depth_reached,
                    counts_mid.max_depth_reached <= depth_limit ==> self.metrics.max_depth_reached <= depth_limit,
                    self.metrics.peak_frontier_size >= counts_mid.peak_frontier_size,
                    counts_mid.peak_frontier_size <= COLUMNS ==> self.metrics.peak_frontier_size <= COLUMNS,
                    counts_mid.peak_nodes_in_memory == counts_mid.max_depth_reached
                        ==> self.metrics.peak_nodes_in_memory == self.metrics.max_depth_reached,
                    counts_mid.estimated_stack_memory_bytes == stack_estimate(counts_mid.max_depth_reached as int)
                        ==> self.metrics.estimated_stack_memory_bytes == stack_estimate(
                        self.metrics.max_depth_reached as int,
                    ),
                    kept ==> counts_kept(self.metrics, self.table@.len()),
                    kept ==> (self.metrics.nodes_expanded < usize::MAX ==> self.metrics.tt_stores - counts_mid.tt_stores
                        <= self.metrics.tt_lookups - counts_mid.tt_lookups),
                ensures
                    counters_grow(counts_mid, self.metrics),
                    table_search_steps(counts_mid, self.metrics),
                    self.metrics.max_depth_reached >= counts_mid.max_depth_reached,
                    counts_mid.max_depth_reached <= depth_limit ==> self.metrics.max_depth_reached <= depth_limit,
                    self.metrics.peak_frontier_size >= counts_mid.peak_frontier_size,
                    counts_mid.peak_frontier_size <= COLUMNS ==> self.metrics.peak_frontier_size <= COLUMNS,
                    counts_mid.peak_nodes_in_memory == counts_mid.max_depth_reached
                        ==> self.metrics.peak_nodes_in_memory == self.metrics.max_depth_reached,
                    counts_mid.estimated_stack_memory_bytes == stack_estimate(counts_mid.max_depth_reached as int)
                        ==> self.metrics.estimated_stack_memory_bytes == stack_estimate(
                        self.metrics.max_depth_reached as int,
                    ),
                    kept ==> counts_kept(self.metrics, self.table@.len()),
                    kept ==> (self.metrics.nodes_expanded < usize::MAX ==> self.metrics.tt_stores - counts_mid.tt_stores
                        <= self.metrics.tt_lookups - counts_mid.tt_lookups),
                    -bound <= value <= bound,
                    (value as int, stripped_table(self.table@))
                        == cached_children(z, b, remaining_depth as nat, entry_alpha as int, entry_beta as int, true, isize::MIN as int, 0, t0),
                    node_id is Some ==> node_id->0 < self.graph.nodes@.len(),
                    self.graph.nodes@.len() >= start_len,
                    graph_frame(graph_mid, self.graph, node_id),
                    node_id is Some ==> node_id->0 < graph_mid.nodes@.len() && same_but_cutoff(
                        self.graph.nodes@[node_id->0 as int],
                        graph_mid.nodes@[node_id->0 as int],
                    ),
                    self.depth_limit == depth_limit,
                    self.graph.config == config,
                    table_bounded(self.table@),
                decreases n - k,
            {
                let movement = legal_movements[k];
                let child = board.apply_movement(movement, Some(match_context.zobrist())).unwrap();
                let ghost before = (alpha as int, beta as int, value as int, stripped_table(self.table@));

                let v = self.minimax(
                    &child,
                    remaining_depth - 1,
                    alpha,
                    beta,
                    false,
                    node_id,
                    Some(movement),
                    match_context,
                );
                if v > value {
                    value = v;
                }

                if value > alpha {
                    alpha = value;
                }
                proof {
                    let step = cached_children(z, b, remaining_depth as nat, before.0, before.1, !false, before.2, k as nat, before.3);
                    assert(child == b.spec_apply(b.spec_legal_columns()[k as int] as int, Some(z))->0);
                    if alpha >= beta {
                        assert(step == (value as int, stripped_table(self.table@)));
                    } else {
                        assert(step == cached_children(z, b, remaining_depth as nat, alpha as int, beta as int, !false, value as int, (k + 1) as nat, stripped_table(self.table@)));
                    }
                }

                if alpha >= beta {
                    self.metrics.alpha_cutoffs = self.metrics.alpha_cutoffs.saturating_add(1);

                    match node_id {
                        Some(node_id) => self.graph.mark_cutoff(node_id),
                        None => {},
                    }

                    break;
                }
                k += 1;
            }

            value
        } else {
            let mut value = isize::MAX;

            let mut k: usize = 0;
            while k < legal_movements.len()
                invariant_except_break
                    alpha < beta,
                    k == 0 ==> value == isize::MAX,
                    graph_frame(graph_mid, self.graph, None),
                    cached_children(z, b, remaining_depth as nat, alpha as int, beta as int, false, value as int, k as nat, stripped_table(self.table@))
                        == cached_children(z, b, remaining_depth as nat, entry_alpha as int, entry_beta as int, false, isize::MAX as int, 0, t0),
                    k > 0 ==> -bound <= value <= bound,
                invariant
                    k <= n,
                    n > 0,
                    n == legal_movements@.len(),
                    n == b.spec_legal_columns().len(),
                    bound == evaluation_bound(),
                    isize::MIN < -bound,
                    bound < isize::MAX,
                    b == *board,
                    z == match_context.spec_zobrist(),
                    remaining_depth > 0,
                    forall|i: int| 0 <= i < n ==> (#[trigger] legal_movements@[i]).column == b.spec_legal_columns()[i],
                    forall|i: int| 0 <= i < n ==> b.spec_is_legal(#[trigger] b.spec_legal_columns()[i] as int),
                    node_id is Some ==> node_id->0 < self.graph.nodes@.len(),
                    self.graph.nodes@.len() >= start_len,
                    graph_frame(graph_mid, self.graph, node_id),
                    node_id is Some ==> node_id->0 < graph_mid.nodes@.len() && same_but_cutoff(
                        self.graph.nodes@[node_id->0 as int],
                        graph_mid.nodes@[node_id->0 as int],
                    ),
                    self.depth_limit == depth_limit,
                    self.graph.config == config,
                    table_bounded(self.table@),
                    counters_grow(counts_mid, self.metrics),
                    table_search_steps(counts_mid, self.metrics),
                    self.metrics.max_depth_reached >= counts_mid.max_depth_reached,
                    counts_mid.max_depth_reached <= depth_limit ==> self.metrics.max_depth_reached <= depth_limit,
                    self.metrics.peak_frontier_size >= counts_mid.peak_frontier_size,
                    counts_mid.peak_frontier_size <= COLUMNS ==> self.metrics.peak_frontier_size <= COLUMNS,
                    counts_mid.peak_nodes_in_memory == counts_mid.max_depth_reached
                        ==> self.metrics.peak_nodes_in_memory == self.metrics.max_depth_reached,
                    counts_mid.estimated_stack_memory_bytes == stack_estimate(counts_mid.max_depth_reached as int)
                        ==> self.metrics.estimated_stack_memory_bytes == stack_estimate(
                        self.metrics.max_depth_reached as int,
                    ),
                    kept ==> counts_kept(self.metrics, self.table@.len()),
                    kept ==> (self.metrics.nodes_expanded < usize::MAX ==> self.metrics.tt_stores - counts_mid.tt_stores
                        <= self.metrics.tt_lookups - counts_mid.tt_lookups),
                ensures
                    counters_grow(counts_mid, self.metrics),
                    table_search_steps(counts_mid, self.metrics),
                    self.metrics.max_depth_reached >= counts_mid.max_depth_reached,
                    counts_mid.max_depth_reached <= depth_limit ==> self.metrics.max_depth_reached <= depth_limit,
                    self.metrics.peak_frontier_size >= counts_mid.peak_frontier_size,
                    counts_mid.peak_frontier_size <= COLUMNS ==> self.metrics.peak_frontier_size <= COLUMNS,
                    counts_mid.peak_nodes_in_memory == counts_mid.max_depth_reached
                        ==> self.metrics.peak_nodes_in_memory == self.metrics.max_depth_reached,
                    counts_mid.estimated_stack_memory_bytes == stack_estimate(counts_mid.max_depth_reached as int)
                        ==> self.metrics.estimated_stack_memory_bytes == stack_estimate(
                        self.metrics.max_depth_reached as int,
                    ),
                    kept ==> counts_kept(self.metrics, self.table@.len()),
                    kept ==> (self.metrics.nodes_expanded < usize::MAX ==> self.metrics.tt_stores - counts_mid.tt_stores
                        <= self.metrics.tt_lookups - counts_mid.tt_lookups),
                    -bound <= value <= bound,
                    (value as int, stripped_table(self.table@))
                        == cached_children(z, b, remaining_depth as nat, entry_alpha as int, entry_beta as int, false, isize::MAX as int, 0, t0),
                    node_id is Some ==> node_id->0 < self.graph.nodes@.len(),
                    self.graph.nodes@.len() >= start_len,
                    graph_frame(graph_mid, self.graph, node_id),
                    node_id is Some ==> node_id->0 < graph_mid.nodes@.len() && same_but_cutoff(
                        self.graph.nodes@[node_id->0 as int],
                        graph_mid.nodes@[node_id->0 as int],
                    ),
                    self.depth_limit == depth_limit,
                    self.graph.config == config,
                    table_bounded(self.table@),
                decreases n - k,
            {
                let movement = legal_movements[k];
                let child = board.apply_movement(movement, Some(match_context.zobrist())).unwrap();
                let ghost before = (alpha as int, beta as int, value as int, stripped_table(self.table@));

                let v = self.minimax(
                    &child,
                    remaining_depth - 1,
                    alpha,
                    beta,
                    true,
                    node_id,
                    Some(movement),
                    match_context,
                );
                if v < value {
                    value = v;
                }

                if value < beta {
                    beta = value;
                }
                proof {
                    let step = cached_children(z, b, remaining_depth as nat, before.0, before.1, !true, before.2, k as nat, before.3);
                    assert(child == b.spec_apply(b.spec_legal_columns()[k as int] as int, Some(z))->0);
                    if alpha >= beta {
                        assert(step == (value as int, stripped_table(self.table@)));
                    } else {
                        assert(step == cached_children(z, b, remaining_depth as nat, alpha as int, beta as int, !true, value as int, (k + 1) as nat, stripped_table(self.table@)));
                    }
                }

                if alpha >= beta {
                    self.metrics.beta_cutoffs = self.metrics.beta_cutoffs.saturating_add(1);

                    match node_id {
                        Some(node_id) => self.graph.mark_cutoff(node_id),
                        None => {},
                    }

                    break;
                }
                k += 1;
            }

            value
        };

        //
        // STORE IN TT
        //
        let node_type = if value <= entry_alpha {
            NodeType::UpperBound
        } else if value >= entry_beta {
            NodeType::LowerBound
        } else {
            NodeType::Exact
        };

        self.store(hash, TranspositionTableEntry { value, depth: remaining_depth, node_type, source_node_id: node_id });

        self.metrics.peak_tt_entries = self.metrics.peak_tt_entries.max(self.table.len());

        self.metrics.peak_structure_memory_bytes = saturating_product(
            self.table.len(),
            std::mem::size_of::<TranspositionTableEntry>(),
        );

        match node_id {
            Some(node_id) => self.graph.record_value(node_id, value, alpha, beta, false),
            None => {},
        }

        value
    }
}

impl Agent for MinimaxAlphaBetaWithTranspositionTable {
    open spec fn can_choose(&self, game: &MatchContext) -> bool {
        self.spec_depth_limit() >= 1 && game.spec_board().spec_legal_columns().len() > 0
    }

    closed spec fn spec_metrics(&self) -> SearchMetrics {
        self.metrics
    }

    fn name(&self) -> (name: &'static str)
        ensures
            name@ == "Minimax Alpha-Beta + Transposition Table"@,
    {
        "Minimax Alpha-Beta + Transposition Table"
    }

    fn metrics(&self) -> (metrics: &SearchMetrics) {
        &self.metrics
    }

    fn reset_metrics(&mut self)
        ensures
            final(self).spec_depth_limit() == old(self).spec_depth_limit(),
            final(self).spec_table() == old(self).spec_table(),
            final(self).spec_graph() == old(self).spec_graph(),
    {
        self.metrics = SearchMetrics::default();
    }

    /// The first legal movement whose searched score is best for the side to
    /// move, searching with a transposition table that starts empty; with no
    /// hash collision among the positions searched, the movement of plain
    /// depth-limited minimax.
    fn choose_movement(&mut self, match_context: &MatchContext) -> (movement: Movement)
        ensures
            movement.column == table_search_choice(
                match_context.spec_zobrist(),
                match_context.spec_board(),
                old(self).spec_depth_limit(),
            ),
            distinct_hashes(match_context.spec_zobrist(), match_context.spec_board(), old(self).spec_depth_limit())
                ==> movement.column == minimax_choice(match_context.spec_board(), old(self).spec_depth_limit()),
            table_search_counts(final(self).spec_metrics()),
            1 <= final(self).spec_metrics().max_depth_reached <= old(self).spec_depth_limit(),
            final(self).spec_metrics().peak_nodes_in_memory == final(self).spec_metrics().max_depth_reached,
            final(self).spec_metrics().estimated_stack_memory_bytes == stack_estimate(
                final(self).spec_metrics().max_depth_reached as int,
            ),
            final(self).spec_metrics().peak_frontier_size <= COLUMNS,
            final(self).spec_metrics().peak_structure_memory_bytes == capped_product(
                final(self).spec_metrics().peak_tt_entries as int,
                vstd::layout::size_of::<TranspositionTableEntry>() as int,
            ),
            old(self).spec_graph().nodes@.len() < old(self).spec_graph().config.max_nodes ==> {
                let id = old(self).spec_graph().nodes@.len();
                let root = final(self).spec_graph().nodes@[id as int];
                let board = match_context.spec_board();
                let depth = old(self).spec_depth_limit();
                &&& root.id == id
                &&& root.value is Some
                &&& root.value->0 == table_search_value(match_context.spec_zobrist(), board, depth)
                &&& distinct_hashes(match_context.spec_zobrist(), board, depth) ==> root.value->0 == best_choice(
                    board,
                    depth,
                    board.spec_current_player() == Player::Red,
                    board.spec_legal_columns().len(),
                ).0
                &&& root.player == board.spec_current_player()
                &&& root.board@ == board_text(board.spec_grid(), ROWS as int)
                &&& root.depth == 0
                &&& root.alpha_in == isize::MIN
                &&& root.beta_in == isize::MAX
                &&& !root.resolved_by_tt
            },
            final(self).spec_depth_limit() == old(self).spec_depth_limit(),
    {
        self.search(match_context)
    }
}

} // verus!
