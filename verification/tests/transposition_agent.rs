use connect_four::agents::minimax_alpha_beta::MinimaxAlphaBeta;
use connect_four::agents::minimax_alpha_beta_with_transposition_table::MinimaxAlphaBetaWithTranspositionTable;
use connect_four::agents::Agent;
use connect_four::game::match_context::MatchContext;
use connect_four::game::movement::Movement;

#[test]
fn mod_tt_should_choose_legal_movement() {
    let match_context = MatchContext::new();

    let mut agent = MinimaxAlphaBetaWithTranspositionTable::new(6, 0, false);

    let movement = agent.choose_movement(&match_context);

    assert!(match_context.board().legal_movements().contains(&movement));
}

#[test]
fn mod_tt_should_take_immediate_win() {
    let mut match_context = MatchContext::new();

    match_context.play(Movement::new(0)).unwrap();
    match_context.play(Movement::new(0)).unwrap();

    match_context.play(Movement::new(1)).unwrap();
    match_context.play(Movement::new(1)).unwrap();

    match_context.play(Movement::new(2)).unwrap();
    match_context.play(Movement::new(2)).unwrap();

    let mut agent = MinimaxAlphaBetaWithTranspositionTable::new(6, 0, false);

    let movement = agent.choose_movement(&match_context);

    assert_eq!(movement.column, 3);
}

#[test]
fn mod_tt_should_block_immediate_loss() {
    let mut match_context = MatchContext::new();

    match_context.play(Movement::new(4)).unwrap();
    match_context.play(Movement::new(0)).unwrap();
    match_context.play(Movement::new(4)).unwrap();
    match_context.play(Movement::new(1)).unwrap();
    match_context.play(Movement::new(5)).unwrap();
    match_context.play(Movement::new(2)).unwrap();

    let mut agent = MinimaxAlphaBetaWithTranspositionTable::new(6, 0, false);

    let movement = agent.choose_movement(&match_context);

    assert_eq!(movement.column, 3);
}

#[test]
fn mod_tt_should_store_entries() {
    let match_context = MatchContext::new();

    let mut agent = MinimaxAlphaBetaWithTranspositionTable::new(6, 0, false);

    agent.choose_movement(&match_context);

    assert!(agent.metrics().tt_stores > 0);
}

#[test]
fn mod_tt_should_generate_hits() {
    let match_context = MatchContext::new();

    let mut agent = MinimaxAlphaBetaWithTranspositionTable::new(7, 0, false);

    agent.choose_movement(&match_context);

    assert!(agent.metrics().tt_hits > 0);
}

#[test]
fn mod_tt_and_alpha_beta_should_choose_same_move() {
    let match_context = MatchContext::new();

    let mut ab = MinimaxAlphaBeta::new(7, 0, false);

    let mut tt = MinimaxAlphaBetaWithTranspositionTable::new(7, 0, false);

    let ab_move = ab.choose_movement(&match_context);

    let tt_move = tt.choose_movement(&match_context);

    assert_eq!(ab_move.column, tt_move.column);
}

#[test]
fn mod_tt_should_expand_fewer_nodes() {
    let match_context = MatchContext::new();

    let mut ab = MinimaxAlphaBeta::new(8, 0, false);

    let mut tt = MinimaxAlphaBetaWithTranspositionTable::new(8, 0, false);

    ab.choose_movement(&match_context);
    tt.choose_movement(&match_context);

    assert!(tt.metrics().nodes_expanded < ab.metrics().nodes_expanded);
}

#[test]
fn mod_tt_should_use_memory() {
    let match_context = MatchContext::new();

    let mut tt = MinimaxAlphaBetaWithTranspositionTable::new(7, 0, false);

    tt.choose_movement(&match_context);

    assert!(tt.metrics().estimated_stack_memory_bytes > 0);
}

#[test]
fn mod_tt_should_choose_center_column() {
    let match_context = MatchContext::new();

    let mut tt = MinimaxAlphaBetaWithTranspositionTable::new(8, 0, false);

    let movement = tt.choose_movement(&match_context);

    assert_eq!(movement.column, 3);
}

#[test]
fn minimax_alpha_beta_with_transposition_table_tt_should_choose_legal_movement() {
    let match_context = MatchContext::new();

    let mut agent = MinimaxAlphaBetaWithTranspositionTable::new(6, 0, false);

    let movement = agent.choose_movement(&match_context);

    assert!(match_context.board().legal_movements().contains(&movement));
}

#[test]
fn minimax_alpha_beta_with_transposition_table_tt_should_take_immediate_win() {
    let mut match_context = MatchContext::new();

    match_context.play(Movement::new(0)).unwrap();
    match_context.play(Movement::new(0)).unwrap();

    match_context.play(Movement::new(1)).unwrap();
    match_context.play(Movement::new(1)).unwrap();

    match_context.play(Movement::new(2)).unwrap();
    match_context.play(Movement::new(2)).unwrap();

    let mut agent = MinimaxAlphaBetaWithTranspositionTable::new(6, 0, false);

    let movement = agent.choose_movement(&match_context);

    assert_eq!(movement.column, 3);
}

#[test]
fn minimax_alpha_beta_with_transposition_table_tt_should_block_immediate_loss() {
    let mut match_context = MatchContext::new();

    match_context.play(Movement::new(4)).unwrap();
    match_context.play(Movement::new(0)).unwrap();
    match_context.play(Movement::new(4)).unwrap();
    match_context.play(Movement::new(1)).unwrap();
    match_context.play(Movement::new(5)).unwrap();
    match_context.play(Movement::new(2)).unwrap();

    let mut agent = MinimaxAlphaBetaWithTranspositionTable::new(6, 0, false);

    let movement = agent.choose_movement(&match_context);

    assert_eq!(movement.column, 3);
}

#[test]
fn minimax_alpha_beta_with_transposition_table_tt_should_store_entries() {
    let match_context = MatchContext::new();

    let mut agent = MinimaxAlphaBetaWithTranspositionTable::new(6, 0, false);

    agent.choose_movement(&match_context);

    assert!(agent.metrics().tt_stores > 0);
}

#[test]
fn minimax_alpha_beta_with_transposition_table_tt_should_generate_hits() {
    let match_context = MatchContext::new();

    let mut agent = MinimaxAlphaBetaWithTranspositionTable::new(7, 0, false);

    agent.choose_movement(&match_context);

    assert!(agent.metrics().tt_hits > 0);
}

#[test]
fn minimax_alpha_beta_with_transposition_table_tt_and_alpha_beta_should_choose_same_move() {
    let match_context = MatchContext::new();

    let mut ab = MinimaxAlphaBeta::new(7, 0, false);

    let mut tt = MinimaxAlphaBetaWithTranspositionTable::new(7, 0, false);

    let ab_move = ab.choose_movement(&match_context);

    let tt_move = tt.choose_movement(&match_context);

    assert_eq!(ab_move.column, tt_move.column);
}

#[test]
fn minimax_alpha_beta_with_transposition_table_tt_should_expand_fewer_nodes() {
    let match_context = MatchContext::new();

    let mut ab = MinimaxAlphaBeta::new(8, 0, false);

    let mut tt = MinimaxAlphaBetaWithTranspositionTable::new(8, 0, false);

    ab.choose_movement(&match_context);
    tt.choose_movement(&match_context);

    assert!(tt.metrics().nodes_expanded < ab.metrics().nodes_expanded);
}

#[test]
fn minimax_alpha_beta_with_transposition_table_tt_should_use_memory() {
    let match_context = MatchContext::new();

    let mut tt = MinimaxAlphaBetaWithTranspositionTable::new(7, 0, false);

    tt.choose_movement(&match_context);

    assert!(tt.metrics().estimated_stack_memory_bytes > 0);
}

#[test]
fn minimax_alpha_beta_with_transposition_table_tt_should_choose_center_column() {
    let match_context = MatchContext::new();

    let mut tt = MinimaxAlphaBetaWithTranspositionTable::new(8, 0, false);

    let movement = tt.choose_movement(&match_context);

    assert_eq!(movement.column, 3);
}
