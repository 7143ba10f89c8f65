use connect_four::agents::minimax_alpha_beta::MinimaxAlphaBeta;
use connect_four::agents::Agent;
use connect_four::game::match_context::MatchContext;
use connect_four::game::movement::Movement;

#[test]
fn minimax_should_choose_legal_movement() {
    let match_context = MatchContext::new();
    let mut agent = MinimaxAlphaBeta::new(4, 0, false);

    let movement = agent.choose_movement(&match_context);
    assert!(match_context.board().legal_movements().contains(&movement));
}

#[test]
fn minimax_should_take_immediate_win() {
    let mut match_context: MatchContext = MatchContext::new();

    match_context.play(Movement::new(0)).unwrap();
    match_context.play(Movement::new(0)).unwrap();

    match_context.play(Movement::new(1)).unwrap();
    match_context.play(Movement::new(1)).unwrap();

    match_context.play(Movement::new(2)).unwrap();
    match_context.play(Movement::new(2)).unwrap();

    let mut agent = MinimaxAlphaBeta::new(4, 0, false);
    let movement = agent.choose_movement(&match_context);

    assert_eq!(movement.column, 3);
}

#[test]
fn minimax_should_block_immediate_loss() {
    let mut match_context = MatchContext::new();

    match_context.play(Movement::new(4)).unwrap();
    match_context.play(Movement::new(0)).unwrap();
    match_context.play(Movement::new(4)).unwrap();
    match_context.play(Movement::new(1)).unwrap();
    match_context.play(Movement::new(5)).unwrap();
    match_context.play(Movement::new(2)).unwrap();

    let mut agent = MinimaxAlphaBeta::new(4, 0, false);
    let movement = agent.choose_movement(&match_context);

    assert_eq!(movement.column, 3);
}

#[test]
fn minimax_should_collect_metrics() {
    let match_context = MatchContext::new();

    let mut agent = MinimaxAlphaBeta::new(4, 0, false);
    agent.choose_movement(&match_context);

    let metrics = agent.metrics();
    assert!(metrics.nodes_expanded > 0);
    assert!(metrics.leaf_nodes > 0);
    assert!(metrics.max_depth_reached > 0);
}

#[test]
fn minimax_should_perform_pruning() {
    let match_context = MatchContext::new();

    let mut agent = MinimaxAlphaBeta::new(6, 0, false);
    agent.choose_movement(&match_context);

    let metrics = agent.metrics();
    assert!(metrics.alpha_cutoffs + metrics.beta_cutoffs > 0);
}
