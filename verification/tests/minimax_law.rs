use connect_four::agents::minimax_alpha_beta::MinimaxAlphaBeta;
use connect_four::agents::minimax_alpha_beta_with_transposition_table::MinimaxAlphaBetaWithTranspositionTable;
use connect_four::agents::Agent;
use connect_four::game::board::Board;
use connect_four::game::game_state::GameState;
use connect_four::game::match_context::MatchContext;
use connect_four::game::movement::Movement;
use connect_four::game::player::Player;

/// Plain minimax without pruning, as the library's contract defines it.
fn plain_minimax(board: &Board, depth: usize, maximizing: bool) -> isize {
    if depth == 0 || board.game_state() != GameState::InProgress {
        return board.evaluate();
    }
    let mut best = if maximizing { isize::MIN } else { isize::MAX };
    for movement in board.legal_movements() {
        let child = board.apply_movement(movement, None).unwrap();
        let value = plain_minimax(&child, depth - 1, !maximizing);
        if (maximizing && value > best) || (!maximizing && value < best) {
            best = value;
        }
    }
    best
}

/// The first movement with the best plain minimax value.
fn plain_choice(board: &Board, depth: usize) -> usize {
    let maximizing = board.current_player() == Player::Red;
    let mut best = if maximizing { isize::MIN } else { isize::MAX };
    let mut column = 0;
    for movement in board.legal_movements() {
        let child = board.apply_movement(movement, None).unwrap();
        let value = plain_minimax(&child, depth - 1, !maximizing);
        if (maximizing && value > best) || (!maximizing && value < best) {
            best = value;
            column = movement.column;
        }
    }
    column
}

#[test]
fn alpha_beta_chooses_like_plain_minimax() {
    let openings: [&[usize]; 4] = [&[], &[3], &[3, 3, 2], &[0, 6, 1, 5, 2]];
    for opening in openings {
        let mut context = MatchContext::new();
        for &column in opening {
            context.play(Movement::new(column)).unwrap();
        }
        for depth in 1..=4 {
            let mut agent = MinimaxAlphaBeta::new(depth, 0, false);
            let chosen = agent.choose_movement(&context);
            assert_eq!(chosen.column, plain_choice(context.board(), depth));
        }
    }
}

#[test]
fn graph_records_root_and_children() {
    let context = MatchContext::new();
    let mut agent = MinimaxAlphaBeta::new(2, usize::MAX, true);
    agent.choose_movement(&context);
    // Root, seven children, forty-nine grandchildren at most (pruning).
    assert!(agent.graph.nodes.len() > 8);
    assert_eq!(agent.graph.nodes[0].depth, 0);
    assert!(agent.graph.nodes[0].value.is_some());
    assert!(agent.graph.edges.iter().all(|edge| edge.from < edge.to));
}

#[test]
fn metrics_reset() {
    let context = MatchContext::new();
    let mut agent = MinimaxAlphaBeta::new(3, 0, false);
    agent.choose_movement(&context);
    assert!(agent.metrics().nodes_expanded > 1);
    agent.reset_metrics();
    assert_eq!(agent.metrics().nodes_expanded, 0);
    assert_eq!(agent.name(), "Minimax Alpha-Beta");
}

#[test]
fn alpha_beta_counters_agree() {
    let mut match_context = MatchContext::new();
    for column in [3, 3, 2] {
        match_context.play(Movement::new(column)).unwrap();
    }
    let mut agent = MinimaxAlphaBeta::new(5, 0, false);
    agent.choose_movement(&match_context);
    let metrics = agent.metrics();
    assert_eq!(metrics.leaf_nodes, metrics.nodes_evaluated);
    assert!(metrics.leaf_nodes + metrics.alpha_cutoffs + metrics.beta_cutoffs < metrics.nodes_expanded);
}

#[test]
fn table_agent_chooses_like_plain_minimax() {
    let mut match_context = MatchContext::new();
    for column in [3, 4, 3, 2] {
        match_context.play(Movement::new(column)).unwrap();
    }
    let mut agent = MinimaxAlphaBetaWithTranspositionTable::new(4, 0, false);
    let movement = agent.choose_movement(&match_context);
    assert_eq!(movement.column, plain_choice(match_context.board(), 4));
}

#[test]
fn table_agent_counters_agree() {
    let mut match_context = MatchContext::new();
    for column in [3, 3, 2] {
        match_context.play(Movement::new(column)).unwrap();
    }
    let mut agent = MinimaxAlphaBetaWithTranspositionTable::new(5, 0, false);
    agent.choose_movement(&match_context);
    let metrics = agent.metrics();
    assert_eq!(metrics.tt_lookups, metrics.tt_hits + metrics.tt_misses);
    assert_eq!(metrics.nodes_expanded, metrics.tt_lookups + 1);
    assert_eq!(metrics.leaf_nodes, metrics.nodes_evaluated);
    assert!(metrics.tt_cutoffs <= metrics.tt_hits);
    assert!(metrics.tt_stores <= metrics.tt_lookups);
    assert!(metrics.peak_tt_entries <= metrics.tt_stores);
    assert!(metrics.tt_hits > 0);
}
