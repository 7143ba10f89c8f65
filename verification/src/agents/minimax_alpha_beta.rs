use vstd::prelude::*;

use crate::{
    agents::{
        game_tree::{
            alpha_beta_sound, best_choice, child_position, child_value, children_value, lemma_best_choice,
            lemma_children_value_monotone, minimax_choice, minimax_value,
        },
        search_metrics::{clock_now, nanos_since, SearchMetrics},
        Agent,
    },
    experiment::graphviz::{
        board_text,
        minimax_alpha_beta::{MinimaxAlphaBetaGraph, MinimaxAlphaBetaGraphEdge, MinimaxAlphaBetaGraphNode},
    },
    game::{
        board::{lemma_in_progress_has_move, lemma_legal_columns, Board, COLUMNS, ROWS},
        evaluation::{evaluation_bound, lemma_evaluate_bound, lemma_evaluation_bound_fits},
        game_state::GameState,
        match_context::MatchContext,
        movement::Movement,
        player::Player,
    },
};

verus! {

/// `a * b`, or `usize::MAX` when the product does not fit.
pub open spec fn capped_product(a: int, b: int) -> int {
    if a * b > usize::MAX {
        usize::MAX as int
    } else {
        a * b
    }
}

/// The capped product grows with its first factor.
pub proof fn lemma_capped_product_monotone(a1: int, a2: int, b: int)
    requires
        0 <= a1 <= a2,
        0 <= b,
    ensures
        capped_product(a1, b) <= capped_product(a2, b),
{
    assert(a1 * b <= a2 * b) by (nonlinear_arith)
        requires
            0 <= a1 <= a2,
            0 <= b,
    ;
}

/// The stack estimate of a search that reached `depth` movements below the
/// root: one board per level (capped at `usize::MAX`).
pub open spec fn stack_estimate(depth: int) -> int {
    capped_product(depth, vstd::layout::size_of::<Board>() as int)
}

/// The stack estimate of the deeper of two depths is the larger estimate.
pub proof fn lemma_stack_estimate_of_max(a: int, b: int)
    requires
        0 <= a,
        0 <= b,
    ensures
        stack_estimate(if a >= b {
            a
        } else {
            b
        }) == if stack_estimate(a) >= stack_estimate(b) {
            stack_estimate(a)
        } else {
            stack_estimate(b)
        },
{
    let size = vstd::layout::size_of::<Board>() as int;
    if a <= b {
        lemma_capped_product_monotone(a, b, size);
    } else {
        lemma_capped_product_monotone(b, a, size);
    }
}

/// `a * b`, or `usize::MAX` when the product does not fit.
pub fn saturating_product(a: usize, b: usize) -> (product: usize)
    ensures
        product == capped_product(a as int, b as int),
{
    match a.checked_mul(b) {
        Some(product) => product,
        None => usize::MAX,
    }
}

/// The counters that an alpha-beta search leaves agree with each other:
/// each leaf is evaluated once; while the expanded count stays below its
/// maximum (the counters saturate there), every position searched below the
/// root ends at most once, as a leaf or with one cutoff.
pub open spec fn alpha_beta_counts(metrics: SearchMetrics) -> bool {
    &&& metrics.leaf_nodes == metrics.nodes_evaluated
    &&& metrics.nodes_expanded < usize::MAX ==> metrics.leaf_nodes + metrics.alpha_cutoffs + metrics.beta_cutoffs
        < metrics.nodes_expanded
}

/// The counters that an alpha-beta search adds to are at least as large in
/// `after` as in `before`, and so is the deepest level reached.
pub open spec fn search_counters_grow(before: SearchMetrics, after: SearchMetrics) -> bool {
    &&& before.nodes_expanded <= after.nodes_expanded
    &&& before.leaf_nodes <= after.leaf_nodes
    &&& before.nodes_evaluated <= after.nodes_evaluated
    &&& before.alpha_cutoffs <= after.alpha_cutoffs
    &&& before.beta_cutoffs <= after.beta_cutoffs
    &&& before.max_depth_reached <= after.max_depth_reached
    &&& before.peak_frontier_size <= after.peak_frontier_size
}

/// Each leaf counted from `before` to `after` is evaluated once: the two
/// counts grow together (exactly, while neither saturates).
pub open spec fn leaves_evaluated(before: SearchMetrics, after: SearchMetrics) -> bool {
    &&& before.leaf_nodes == before.nodes_evaluated ==> after.leaf_nodes == after.nodes_evaluated
    &&& after.leaf_nodes < usize::MAX && after.nodes_evaluated < usize::MAX ==> after.leaf_nodes - before.leaf_nodes
        == after.nodes_evaluated - before.nodes_evaluated
}

/// Whether a position that the search enters with the tree `graph` gets a
/// node: recording is on and the tree is not full.
pub open spec fn records_node(graph: MinimaxAlphaBetaGraph) -> bool {
    graph.config.enabled && graph.nodes@.len() < graph.config.max_nodes
}

/// `after` keeps what `before` recorded: the same configuration, every
/// earlier node (but `own`, when given) and every earlier edge, in place;
/// and when `before` records no node, no node or edge is added.
pub open spec fn graph_frame(before: MinimaxAlphaBetaGraph, after: MinimaxAlphaBetaGraph, own: Option<usize>) -> bool {
    &&& after.config == before.config
    &&& after.nodes@.len() >= before.nodes@.len()
    &&& forall|i: int|
        0 <= i < before.nodes@.len() && (own is None || i != own->0) ==> #[trigger] after.nodes@[i]
            == before.nodes@[i]
    &&& after.edges@.len() >= before.edges@.len()
    &&& forall|i: int| 0 <= i < before.edges@.len() ==> #[trigger] after.edges@[i] == before.edges@[i]
    &&& !records_node(before) ==> after.nodes@.len() == before.nodes@.len() && after.edges@ == before.edges@
}

/// The depth below the root of a position searched with `remaining`
/// movements left under `depth_limit`.
pub open spec fn level(depth_limit: usize, remaining: usize) -> usize {
    if depth_limit >= remaining {
        (depth_limit - remaining) as usize
    } else {
        0
    }
}

/// The leaves and cutoffs counted so far.
spec fn endings(metrics: SearchMetrics) -> int {
    metrics.leaf_nodes + metrics.alpha_cutoffs + metrics.beta_cutoffs
}

/// Minimax search with alpha-beta pruning to a fixed depth, optionally
/// recording the searched tree.
pub struct MinimaxAlphaBeta {
    depth_limit: usize,
    metrics: SearchMetrics,
    pub graph: MinimaxAlphaBetaGraph,
}

impl MinimaxAlphaBeta {
    pub closed spec fn spec_depth_limit(self) -> nat {
        self.depth_limit as nat
    }

    pub closed spec fn spec_graph(self) -> MinimaxAlphaBetaGraph {
        self.graph
    }

    /// A searcher that looks `depth_limit` movements ahead and records at
    /// most `max_nodes` nodes of its tree (nodes below the root only when
    /// `generate_graph` is set).
    pub fn new(depth_limit: usize, max_nodes: usize, generate_graph: bool) -> (agent: Self)
        ensures
            agent.spec_depth_limit() == depth_limit,
            agent.spec_metrics() == SearchMetrics::zero(),
            agent.spec_graph().config.max_nodes == max_nodes,
            agent.spec_graph().config.enabled == generate_graph,
            agent.spec_graph().nodes@.len() == 0,
            agent.spec_graph().edges@.len() == 0,
    {
        Self {
            depth_limit,
            metrics: SearchMetrics::default(),
            graph: MinimaxAlphaBetaGraph::new(max_nodes, generate_graph),
        }
    }

    fn search(&mut self, match_context: &MatchContext) -> (movement: Movement)
        requires
            match_context.wf(),
            old(self).spec_depth_limit() >= 1,
            match_context.spec_board().spec_legal_columns().len() > 0,
        ensures
            movement.column == minimax_choice(match_context.spec_board(), old(self).spec_depth_limit()),
            match_context.spec_board().spec_is_legal(movement.column as int),
            alpha_beta_counts(final(self).spec_metrics()),
            1 <= final(self).spec_metrics().max_depth_reached <= old(self).spec_depth_limit(),
            final(self).spec_metrics().estimated_stack_memory_bytes == stack_estimate(
                final(self).spec_metrics().max_depth_reached as int,
            ),
            final(self).spec_metrics().peak_frontier_size <= COLUMNS,
            old(self).spec_graph().config.max_nodes > 0 ==> {
                let root = final(self).spec_graph().nodes@[0];
                let maximizing = match_context.spec_board().spec_current_player() == Player::Red;
                &&& root.id == 0
                &&& root.value is Some
                &&& root.value->0 == best_choice(
                    match_context.spec_board(),
                    old(self).spec_depth_limit(),
                    maximizing,
                    match_context.spec_board().spec_legal_columns().len(),
                ).0
                &&& root.player == match_context.spec_board().spec_current_player()
                &&& root.board@ == board_text(match_context.spec_board().spec_grid(), ROWS as int)
                &&& root.depth == 0
                &&& root.alpha == isize::MIN
                &&& root.beta == isize::MAX
                &&& !root.pruned
            },
            final(self).spec_depth_limit() == old(self).spec_depth_limit(),
    {
        self.reset_metrics();
        self.graph.clear();

        let start = clock_now();

        let mut alpha = isize::MIN;
        let mut beta = isize::MAX;

        let board = match_context.board();
        proof {
            use_type_invariant(board);
            lemma_legal_columns(*board);
            lemma_evaluation_bound_fits();
        }
        let root = self.graph.create_node(board, 0, alpha, beta);
        let ghost root_node = self.graph.nodes@[0];
        self.metrics.nodes_expanded = 1;

        let maximizing = board.current_player() == Player::Red;

        let legal_movements = board.legal_movements();

        let mut best_movement = legal_movements[0];

        let mut best_score = if maximizing {
            isize::MIN
        } else {
            isize::MAX
        };

        let ghost b = *board;
        let ghost depth = self.depth_limit as nat;
        let ghost n = legal_movements@.len();
        let ghost bound = evaluation_bound();

        let mut k: usize = 0;
        while k < legal_movements.len()
            invariant
                k <= n,
                n == legal_movements@.len(),
                n == b.spec_legal_columns().len(),
                bound == evaluation_bound(),
                isize::MIN < -bound,
                bound < isize::MAX,
                b == *board,
                b.wf(),
                depth == self.depth_limit,
                depth >= 1,
                maximizing == (b.spec_current_player() == Player::Red),
                forall|i: int| 0 <= i < n ==> (#[trigger] legal_movements@[i]).column == b.spec_legal_columns()[i],
                forall|i: int| 0 <= i < n ==> b.spec_is_legal(#[trigger] b.spec_legal_columns()[i] as int),
                best_score == best_choice(b, depth, maximizing, k as nat).0,
                k > 0 ==> best_movement.column == b.spec_legal_columns()[best_choice(b, depth, maximizing, k as nat).1],
                k == 0 ==> best_movement.column == b.spec_legal_columns()[0],
                k > 0 ==> -bound <= best_score <= bound,
                maximizing ==> beta == isize::MAX && alpha == best_score,
                !maximizing ==> alpha == isize::MIN && beta == best_score,
                root is Some ==> root->0 < self.graph.nodes@.len(),
                root is Some ==> root->0 == 0 && self.graph.nodes@[0] == root_node,
                alpha_beta_counts(self.metrics),
                self.metrics.max_depth_reached <= depth,
                k > 0 ==> self.metrics.max_depth_reached >= 1,
                self.metrics.estimated_stack_memory_bytes == stack_estimate(self.metrics.max_depth_reached as int),
                self.metrics.peak_frontier_size <= COLUMNS,
                n > 0,
            ensures
                k == n,
                root is Some ==> self.graph.nodes@[0] == root_node,
                alpha_beta_counts(self.metrics),
                1 <= self.metrics.max_depth_reached <= depth,
                self.metrics.estimated_stack_memory_bytes == stack_estimate(self.metrics.max_depth_reached as int),
                self.metrics.peak_frontier_size <= COLUMNS,
                best_score == best_choice(b, depth, maximizing, n as nat).0,
                best_movement.column == b.spec_legal_columns()[best_choice(b, depth, maximizing, n as nat).1],
                root is Some ==> root->0 < self.graph.nodes@.len(),
            decreases n - k,
        {
            let movement = legal_movements[k];
            proof {
                lemma_best_choice(b, depth, maximizing, k as nat);
            }
            let child = board.apply_movement(movement, None).unwrap();

            let score = self.minimax(&child, self.depth_limit - 1, alpha, beta, !maximizing, root, Some(movement));

            proof {
                assert(child == child_position(b, b.spec_legal_columns()[k as int]));
                assert(child_value(b, depth, maximizing, k as int) == minimax_value(child, (depth - 1) as nat, !maximizing));
            }

            if maximizing {
                if score > best_score {
                    best_score = score;
                    best_movement = movement;
                }

                if best_score > alpha {
                    alpha = best_score;
                }
                if alpha >= beta {
                    // Unreachable: the best score stays within the evaluation
                    // bound, below `isize::MAX`, so the window stays open.
                    proof {
                        assert(false);
                    }
                    break;
                }
            } else {
                if score < best_score {
                    best_score = score;
                    best_movement = movement;
                }

                if best_score < beta {
                    beta = best_score;
                }
                if alpha >= beta {
                    // Unreachable: the best score stays within the evaluation
                    // bound, below `isize::MAX`, so the window stays open.
                    proof {
                        assert(false);
                    }
                    break;
                }
            }
            k += 1;
        }

        match root {
            Some(root_id) => {
                self.graph.set_value(root_id, best_score);
            },
            None => {},
        }

        self.metrics.elapsed_time_ns = nanos_since(&start);

        proof {
            lemma_best_choice(b, depth, maximizing, n as nat);
        }
        best_movement
    }

    fn minimax(
        &mut self,
        board: &Board,
        remaining_depth: usize,
        alpha: isize,
        beta: isize,
        maximizing: bool,
        parent_id: Option<usize>,
        incoming_movement: Option<Movement>,
    ) -> (value: isize)
        requires
            alpha < beta,
        ensures
            search_counters_grow(old(self).metrics, final(self).metrics),
            leaves_evaluated(old(self).metrics, final(self).metrics),
            final(self).metrics.peak_frontier_size >= board.spec_legal_columns().len(),
            old(self).metrics.peak_frontier_size <= COLUMNS ==> final(self).metrics.peak_frontier_size <= COLUMNS,
            old(self).metrics.estimated_stack_memory_bytes == stack_estimate(
                old(self).metrics.max_depth_reached as int,
            ) ==> final(self).metrics.estimated_stack_memory_bytes == stack_estimate(
                final(self).metrics.max_depth_reached as int,
            ),
            final(self).metrics.max_depth_reached >= old(self).depth_limit - remaining_depth,
            old(self).metrics.max_depth_reached <= old(self).depth_limit ==> final(self).metrics.max_depth_reached
                <= old(self).depth_limit,
            maximizing && remaining_depth > 0 && board.spec_game_state() is InProgress && value >= beta ==> (
            final(self).metrics.alpha_cutoffs > old(self).metrics.alpha_cutoffs || final(self).metrics.alpha_cutoffs
                == usize::MAX),
            !maximizing && remaining_depth > 0 && board.spec_game_state() is InProgress && value <= alpha ==> (
            final(self).metrics.beta_cutoffs > old(self).metrics.beta_cutoffs || final(self).metrics.beta_cutoffs
                == usize::MAX),
            final(self).metrics.nodes_expanded < usize::MAX ==> endings(final(self).metrics) - endings(
                old(self).metrics,
            ) <= final(self).metrics.nodes_expanded - old(self).metrics.nodes_expanded,
            -evaluation_bound() <= value <= evaluation_bound(),
            alpha_beta_sound(*board, remaining_depth as nat, maximizing, alpha as int, beta as int, value as int),
            final(self).depth_limit == old(self).depth_limit,
            final(self).graph.nodes@.len() >= old(self).graph.nodes@.len(),
            final(self).graph.config == old(self).graph.config,
            graph_frame(old(self).graph, final(self).graph, None),
            records_node(old(self).graph) ==> {
                let id = old(self).graph.nodes@.len();
                let node = final(self).graph.nodes@[id as int];
                &&& node.id == id
                &&& node.value == Some(value)
                &&& node.player == board.spec_current_player()
                &&& node.board@ == board_text(board.spec_grid(), ROWS as int)
                &&& node.depth == level(old(self).depth_limit, remaining_depth)
                &&& node.alpha == alpha
                &&& node.beta == beta
                &&& node.pruned == (remaining_depth > 0 && board.spec_game_state() is InProgress && if maximizing {
                    value >= beta
                } else {
                    value <= alpha
                })
                &&& parent_id is Some && incoming_movement is Some ==> final(self).graph.edges@[old(
                    self,
                ).graph.edges@.len() as int] == (MinimaxAlphaBetaGraphEdge {
                    from: parent_id->0,
                    to: id as usize,
                    movement: incoming_movement->0,
                })
            },
        decreases remaining_depth,
    {
        proof {
            use_type_invariant(board);
            lemma_legal_columns(*board);
            lemma_evaluate_bound(board.spec_grid());
            lemma_evaluation_bound_fits();
        }
        let current_depth = self.depth_limit.saturating_sub(remaining_depth);

        let node_id = if self.graph.config.enabled {
            let node_id = self.graph.create_node(board, current_depth, alpha, beta);

            match (node_id, parent_id, incoming_movement) {
                (Some(child_id), Some(parent_id), Some(movement)) => {
                    self.graph.connect(parent_id, child_id, movement);
                },
                _ => {},
            }

            node_id
        } else {
            None
        };

        //
        // VISITED NODE
        //
        self.metrics.nodes_expanded = self.metrics.nodes_expanded.saturating_add(1);
        self.metrics.max_depth_reached = self.metrics.max_depth_reached.max(current_depth);

        //
        // FRONTIER
        //
        let legal_movements = board.legal_movements();
        self.metrics.peak_frontier_size = self.metrics.peak_frontier_size.max(legal_movements.len());

        //
        // STACK (approximation)
        //
        proof {
            lemma_stack_estimate_of_max(old(self).metrics.max_depth_reached as int, current_depth as int);
        }
        self.metrics.estimated_stack_memory_bytes = self.metrics.estimated_stack_memory_bytes.max(
            saturating_product(current_depth, std::mem::size_of::<Board>()),
        );

        //
        // DEPTH CUTOFF
        //
        if remaining_depth == 0 {
            self.metrics.leaf_nodes = self.metrics.leaf_nodes.saturating_add(1);

            let value = board.evaluate();
            self.metrics.nodes_evaluated = self.metrics.nodes_evaluated.saturating_add(1);

            match node_id {
                Some(node_id) => self.graph.set_value(node_id, value),
                None => {},
            }

            return value;
        }

        //
        // TERMINAL NODE
        //
        match board.game_state() {
            GameState::InProgress => {},
            _ => {
                self.metrics.leaf_nodes = self.metrics.leaf_nodes.saturating_add(1);

                let value = board.evaluate();
                self.metrics.nodes_evaluated = self.metrics.nodes_evaluated.saturating_add(1);

                match node_id {
                    Some(node_id) => self.graph.set_value(node_id, value),
                    None => {},
                }
                return value;
            },
        }

        let ghost b = *board;
        let ghost depth = remaining_depth as nat;
        let ghost n = legal_movements@.len();
        let ghost bound = evaluation_bound();
        let ghost alpha0 = alpha as int;
        let ghost beta0 = beta as int;
        let ghost start_len = old(self).graph.nodes@.len();
        let ghost depth_limit = self.depth_limit;
        let ghost config = self.graph.config;
        let ghost graph_mid = self.graph;
        let ghost counts_mid = self.metrics;
        proof {
            lemma_in_progress_has_move(b);
        }

        let mut alpha = alpha;
        let mut beta = beta;

        let value = if maximizing {
            let mut value = isize::MIN;

            let mut k: usize = 0;
            while k < legal_movements.len()
                invariant_except_break
                    value < beta0,
                    alpha < beta,
                    value > alpha0 ==> children_value(b, depth, true, k as nat) == value,
                    children_value(b, depth, true, k as nat) <= value,
                    alpha == if value > alpha0 { value as int } else { alpha0 },
                    k == 0 ==> value == isize::MIN,
                    graph_frame(graph_mid, self.graph, None),
                    self.metrics.nodes_expanded < usize::MAX ==> endings(self.metrics) - endings(counts_mid)
                        <= self.metrics.nodes_expanded - counts_mid.nodes_expanded,
                    k > 0 ==> -bound <= value <= bound,
                invariant
                    k <= n,
                    n > 0,
                    n == legal_movements@.len(),
                    n == b.spec_legal_columns().len(),
                    bound == evaluation_bound(),
                    isize::MIN < -bound,
                    bound < isize::MAX,
                    b == *board,
                    b.wf(),
                    depth == remaining_depth,
                    depth > 0,
                    b.spec_game_state() is InProgress,
                    beta == beta0,
                    alpha0 < beta0,
                    forall|i: int| 0 <= i < n ==> (#[trigger] legal_movements@[i]).column == b.spec_legal_columns()[i],
                    forall|i: int| 0 <= i < n ==> b.spec_is_legal(#[trigger] b.spec_legal_columns()[i] as int),
                    node_id is Some ==> node_id->0 < self.graph.nodes@.len(),
                    self.graph.nodes@.len() >= start_len,
                    self.depth_limit == depth_limit,
                    self.graph.config == config,
                    node_id is Some ==> node_id->0 < graph_mid.nodes@.len(),
                    graph_frame(graph_mid, self.graph, node_id),
                    search_counters_grow(counts_mid, self.metrics),
                    leaves_evaluated(counts_mid, self.metrics),
                    counts_mid.max_depth_reached <= depth_limit ==> self.metrics.max_depth_reached <= depth_limit,
                    counts_mid.peak_frontier_size <= COLUMNS ==> self.metrics.peak_frontier_size <= COLUMNS,
                    counts_mid.estimated_stack_memory_bytes == stack_estimate(counts_mid.max_depth_reached as int)
                        ==> self.metrics.estimated_stack_memory_bytes == stack_estimate(
                        self.metrics.max_depth_reached as int,
                    ),
                ensures
                    search_counters_grow(counts_mid, self.metrics),
                    leaves_evaluated(counts_mid, self.metrics),
                    counts_mid.max_depth_reached <= depth_limit ==> self.metrics.max_depth_reached <= depth_limit,
                    counts_mid.peak_frontier_size <= COLUMNS ==> self.metrics.peak_frontier_size <= COLUMNS,
                    counts_mid.estimated_stack_memory_bytes == stack_estimate(counts_mid.max_depth_reached as int)
                        ==> self.metrics.estimated_stack_memory_bytes == stack_estimate(
                        self.metrics.max_depth_reached as int,
                    ),
                    value >= beta0 ==> (self.metrics.alpha_cutoffs > counts_mid.alpha_cutoffs || self.metrics.alpha_cutoffs == usize::MAX),
                    self.metrics.nodes_expanded < usize::MAX ==> endings(self.metrics) - endings(counts_mid)
                        <= self.metrics.nodes_expanded - counts_mid.nodes_expanded + 1,
                    -bound <= value <= bound,
                    node_id is Some ==> self.graph.nodes@[node_id->0 as int] == (if value >= beta0 {
                        MinimaxAlphaBetaGraphNode { pruned: true, ..graph_mid.nodes@[node_id->0 as int] }
                    } else {
                        graph_mid.nodes@[node_id->0 as int]
                    }),
                    value <= alpha0 ==> children_value(b, depth, true, n as nat) <= value,
                    value >= beta0 ==> children_value(b, depth, true, n as nat) >= value,
                    alpha0 < value < beta0 ==> children_value(b, depth, true, n as nat) == value,
                decreases n - k,
            {
                let movement = legal_movements[k];
                let child = board.apply_movement(movement, None).unwrap();

                let v = self.minimax(&child, remaining_depth - 1, alpha, beta, false, node_id, Some(movement));
                proof {
                    assert(child == child_position(b, b.spec_legal_columns()[k as int]));
                    assert(child_value(b, depth, true, k as int) == minimax_value(child, (depth - 1) as nat, false));
                    assert(children_value(b, depth, true, (k + 1) as nat) == if child_value(b, depth, true, k as int) > children_value(b, depth, true, k as nat) {
                        child_value(b, depth, true, k as int)
                    } else {
                        children_value(b, depth, true, k as nat)
                    });
                }
                if v > value {
                    value = v;
                }

                if value > alpha {
                    alpha = value;
                }

                if alpha >= beta {
                    self.metrics.alpha_cutoffs = self.metrics.alpha_cutoffs.saturating_add(1);
                    match node_id {
                        Some(node_id) => self.graph.mark_pruned(node_id),
                        None => {},
                    }
                    proof {
                        lemma_children_value_monotone(b, depth, true, (k + 1) as nat, n as nat);
                    }
                    break;
                }
                k += 1;
            }

            match node_id {
                Some(node_id) => self.graph.set_value(node_id, value),
                None => {},
            }

            value
        } else {
            let mut value = isize::MAX;

            let mut k: usize = 0;
            while k < legal_movements.len()
                invariant_except_break
                    value > alpha0,
                    alpha < beta,
                    value < beta0 ==> children_value(b, depth, false, k as nat) == value,
                    children_value(b, depth, false, k as nat) >= value,
                    beta == if value < beta0 { value as int } else { beta0 },
                    k == 0 ==> value == isize::MAX,
                    graph_frame(graph_mid, self.graph, None),
                    self.metrics.nodes_expanded < usize::MAX ==> endings(self.metrics) - endings(counts_mid)
                        <= self.metrics.nodes_expanded - counts_mid.nodes_expanded,
                    k > 0 ==> -bound <= value <= bound,
                invariant
                    k <= n,
                    n > 0,
                    n == legal_movements@.len(),
                    n == b.spec_legal_columns().len(),
                    bound == evaluation_bound(),
                    isize::MIN < -bound,
                    bound < isize::MAX,
                    b == *board,
                    b.wf(),
                    depth == remaining_depth,
                    depth > 0,
                    b.spec_game_state() is InProgress,
                    alpha == alpha0,
                    alpha0 < beta0,
                    forall|i: int| 0 <= i < n ==> (#[trigger] legal_movements@[i]).column == b.spec_legal_columns()[i],
                    forall|i: int| 0 <= i < n ==> b.spec_is_legal(#[trigger] b.spec_legal_columns()[i] as int),
                    node_id is Some ==> node_id->0 < self.graph.nodes@.len(),
                    self.graph.nodes@.len() >= start_len,
                    self.depth_limit == depth_limit,
                    self.graph.config == config,
                    node_id is Some ==> node_id->0 < graph_mid.nodes@.len(),
                    graph_frame(graph_mid, self.graph, node_id),
                    search_counters_grow(counts_mid, self.metrics),
                    leaves_evaluated(counts_mid, self.metrics),
                    counts_mid.max_depth_reached <= depth_limit ==> self.metrics.max_depth_reached <= depth_limit,
                    counts_mid.peak_frontier_size <= COLUMNS ==> self.metrics.peak_frontier_size <= COLUMNS,
                    counts_mid.estimated_stack_memory_bytes == stack_estimate(counts_mid.max_depth_reached as int)
                        ==> self.metrics.estimated_stack_memory_bytes == stack_estimate(
                        self.metrics.max_depth_reached as int,
                    ),
                ensures
                    search_counters_grow(counts_mid, self.metrics),
                    leaves_evaluated(counts_mid, self.metrics),
                    counts_mid.max_depth_reached <= depth_limit ==> self.metrics.max_depth_reached <= depth_limit,
                    counts_mid.peak_frontier_size <= COLUMNS ==> self.metrics.peak_frontier_size <= COLUMNS,
                    counts_mid.estimated_stack_memory_bytes == stack_estimate(counts_mid.max_depth_reached as int)
                        ==> self.metrics.estimated_stack_memory_bytes == stack_estimate(
                        self.metrics.max_depth_reached as int,
                    ),
                    value <= alpha0 ==> (self.metrics.beta_cutoffs > counts_mid.beta_cutoffs || self.metrics.beta_cutoffs == usize::MAX),
                    self.metrics.nodes_expanded < usize::MAX ==> endings(self.metrics) - endings(counts_mid)
                        <= self.metrics.nodes_expanded - counts_mid.nodes_expanded + 1,
                    -bound <= value <= bound,
                    node_id is Some ==> self.graph.nodes@[node_id->0 as int] == (if value <= alpha0 {
                        MinimaxAlphaBetaGraphNode { pruned: true, ..graph_mid.nodes@[node_id->0 as int] }
                    } else {
                        graph_mid.nodes@[node_id->0 as int]
                    }),
                    value <= alpha0 ==> children_value(b, depth, false, n as nat) <= value,
                    value >= beta0 ==> children_value(b, depth, false, n as nat) >= value,
                    alpha0 < value < beta0 ==> children_value(b, depth, false, n as nat) == value,
                decreases n - k,
            {
                let movement = legal_movements[k];
                let child = board.apply_movement(movement, None).unwrap();

                let v = self.minimax(&child, remaining_depth - 1, alpha, beta, true, node_id, Some(movement));
                proof {
                    assert(child == child_position(b, b.spec_legal_columns()[k as int]));
                    assert(child_value(b, depth, false, k as int) == minimax_value(child, (depth - 1) as nat, true));
                    assert(children_value(b, depth, false, (k + 1) as nat) == if child_value(b, depth, false, k as int) < children_value(b, depth, false, k as nat) {
                        child_value(b, depth, false, k as int)
                    } else {
                        children_value(b, depth, false, k as nat)
                    });
                }
                if v < value {
                    value = v;
                }

                if value < beta {
                    beta = value;
                }

                if alpha >= beta {
                    self.metrics.beta_cutoffs = self.metrics.beta_cutoffs.saturating_add(1);
                    match node_id {
                        Some(node_id) => self.graph.mark_pruned(node_id),
                        None => {},
                    }
                    proof {
                        lemma_children_value_monotone(b, depth, false, (k + 1) as nat, n as nat);
                    }
                    break;
                }
                k += 1;
            }

            match node_id {
                Some(node_id) => self.graph.set_value(node_id, value),
                None => {},
            }

            value
        };
        value
    }
}

impl Agent for MinimaxAlphaBeta {
    open spec fn can_choose(&self, game: &MatchContext) -> bool {
        self.spec_depth_limit() >= 1 && game.spec_board().spec_legal_columns().len() > 0
    }

    closed spec fn spec_metrics(&self) -> SearchMetrics {
        self.metrics
    }

    fn name(&self) -> (name: &'static str)
        ensures
            name@ == "Minimax Alpha-Beta"@,
    {
        "Minimax Alpha-Beta"
    }

    fn metrics(&self) -> (metrics: &SearchMetrics) {
        &self.metrics
    }

    fn reset_metrics(&mut self)
        ensures
            final(self).spec_depth_limit() == old(self).spec_depth_limit(),
            final(self).spec_graph() == old(self).spec_graph(),
    {
        self.metrics = SearchMetrics::default();
    }

    /// The movement of plain depth-limited minimax: the first legal movement
    /// whose value is best for the side to move.
    fn choose_movement(&mut self, match_context: &MatchContext) -> (movement: Movement)
        ensures
            movement.column == minimax_choice(match_context.spec_board(), old(self).spec_depth_limit()),
            alpha_beta_counts(final(self).spec_metrics()),
            1 <= final(self).spec_metrics().max_depth_reached <= old(self).spec_depth_limit(),
            final(self).spec_metrics().estimated_stack_memory_bytes == stack_estimate(
                final(self).spec_metrics().max_depth_reached as int,
            ),
            final(self).spec_metrics().peak_frontier_size <= COLUMNS,
            old(self).spec_graph().config.max_nodes > 0 ==> {
                let root = final(self).spec_graph().nodes@[0];
                let maximizing = match_context.spec_board().spec_current_player() == Player::Red;
                &&& root.id == 0
                &&& root.value is Some
                &&& root.value->0 == best_choice(
                    match_context.spec_board(),
                    old(self).spec_depth_limit(),
                    maximizing,
                    match_context.spec_board().spec_legal_columns().len(),
                ).0
                &&& root.player == match_context.spec_board().spec_current_player()
                &&& root.board@ == board_text(match_context.spec_board().spec_grid(), ROWS as int)
                &&& root.depth == 0
                &&& root.alpha == isize::MIN
                &&& root.beta == isize::MAX
                &&& !root.pruned
            },
            final(self).spec_depth_limit() == old(self).spec_depth_limit(),
    {
        self.search(match_context)
    }
}

} // verus!
