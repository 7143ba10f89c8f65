use connect_four::agents::monte_carlo::simulation::simulate;
use connect_four::agents::search_metrics::SearchMetrics;
use connect_four::agents::monte_carlo::node::MonteCarloNode;
use connect_four::agents::monte_carlo::rollout::rollout;
use connect_four::agents::monte_carlo::tree::{
    backpropagate, branching_counts, expand, most_visited_child, reset_tree,
};
use connect_four::game::board::Board;
use connect_four::game::game_state::GameState;
use connect_four::game::movement::Movement;
use connect_four::game::player::Player;
use rand::SeedableRng;
use rand_chacha::ChaCha8Rng;

fn play(columns: &[usize]) -> Board {
    let mut board = Board::new();
    for &column in columns {
        board = board.apply_movement(Movement::new(column), None).unwrap();
    }
    board
}

#[test]
fn root_has_every_legal_movement_untried() {
    let root = MonteCarloNode::new_root(Board::new(), None);
    assert_eq!(root.untried_movements.len(), 7);
    assert_eq!(root.parent, None);
    assert_eq!(root.visits, 0);
    let child = MonteCarloNode::new_child(play(&[3]), 0, Movement::new(3), Some(9));
    assert_eq!(child.parent, Some(0));
    assert_eq!(child.movement, Some(Movement::new(3)));
    assert_eq!(child.graph_id, Some(9));
}

#[test]
fn expand_takes_last_untried_movement() {
    let mut arena = Vec::new();
    reset_tree(&mut arena, Board::new());
    assert_eq!(arena.len(), 1);
    let child = expand(&mut arena, 0).unwrap();
    assert_eq!(child, 1);
    assert_eq!(arena[1].movement, Some(Movement::new(6)));
    assert_eq!(arena[1].parent, Some(0));
    assert_eq!(arena[0].children, vec![1]);
    assert_eq!(arena[0].untried_movements.len(), 6);
    assert_eq!(arena[1].board.grid()[5][6], Some(Player::Red));
}

#[test]
fn expand_of_exhausted_node_does_nothing() {
    let mut arena = Vec::new();
    reset_tree(&mut arena, Board::new());
    for _ in 0..7 {
        assert!(expand(&mut arena, 0).is_some());
    }
    assert_eq!(expand(&mut arena, 0), None);
    assert_eq!(arena.len(), 8);
    assert_eq!(branching_counts(&arena), (1, 7));
}

#[test]
fn backpropagation_updates_the_path_only() {
    let mut arena = Vec::new();
    reset_tree(&mut arena, Board::new());
    let a = expand(&mut arena, 0).unwrap();
    let b = expand(&mut arena, 0).unwrap();
    let c = expand(&mut arena, a).unwrap();
    backpropagate(&mut arena, c, 2);
    assert_eq!((arena[c].visits, arena[c].wins), (1, 2));
    assert_eq!((arena[a].visits, arena[a].wins), (1, 2));
    assert_eq!((arena[0].visits, arena[0].wins), (1, 2));
    assert_eq!((arena[b].visits, arena[b].wins), (0, 0));
    backpropagate(&mut arena, b, 1);
    assert_eq!((arena[b].visits, arena[b].wins), (1, 1));
    assert_eq!((arena[0].visits, arena[0].wins), (2, 3));
    assert_eq!((arena[a].visits, arena[a].wins), (1, 2));
}

#[test]
fn most_visited_child_prefers_the_last_on_ties() {
    let mut arena = Vec::new();
    reset_tree(&mut arena, Board::new());
    let first = expand(&mut arena, 0).unwrap();
    let second = expand(&mut arena, 0).unwrap();
    let third = expand(&mut arena, 0).unwrap();
    backpropagate(&mut arena, first, 0);
    backpropagate(&mut arena, second, 0);
    backpropagate(&mut arena, second, 0);
    backpropagate(&mut arena, third, 0);
    backpropagate(&mut arena, third, 0);
    // second and third have two visits each; the later one wins the tie.
    assert_eq!(most_visited_child(&arena), arena[third].movement.unwrap());
    backpropagate(&mut arena, second, 0);
    assert_eq!(most_visited_child(&arena), arena[second].movement.unwrap());
}

#[test]
fn rollout_from_finished_match_plays_nothing() {
    let board = play(&[0, 0, 1, 1, 2, 2, 3]);
    assert_eq!(board.game_state(), GameState::Win(Player::Red));
    let mut rng = ChaCha8Rng::seed_from_u64(7);
    let mut length = 99;
    assert_eq!(rollout(board, Player::Red, &mut length, &mut rng), 2);
    assert_eq!(length, 0);
    assert_eq!(rollout(board, Player::Yellow, &mut length, &mut rng), 0);
}

#[test]
fn rollout_plays_to_the_end() {
    let mut rng = ChaCha8Rng::seed_from_u64(1);
    for _ in 0..50 {
        let mut length = 0;
        let reward = rollout(Board::new(), Player::Red, &mut length, &mut rng);
        assert!(reward <= 2);
        assert!(length >= 7 && length <= 42);
    }
}

#[test]
fn rollout_with_one_empty_cell_plays_it() {
    // The draw position of the match tests, less its last movement.
    let order = [0, 1, 0, 1, 0, 1, 1, 0, 1, 0, 1, 0, 2, 3, 2, 3, 2, 3, 3, 2, 3, 2, 3, 2, 4, 5, 4, 5, 4, 5, 5, 4, 5, 4, 5, 4, 6, 6, 6, 6, 6];
    let board = play(&order);
    let mut rng = ChaCha8Rng::seed_from_u64(3);
    let mut length = 0;
    assert_eq!(rollout(board, Player::Red, &mut length, &mut rng), 1);
    assert_eq!(length, 1);
}

#[test]
fn simulation_counts_one_playout() {
    let mut arena = Vec::new();
    reset_tree(&mut arena, Board::new());
    let mut metrics = SearchMetrics::default();
    let mut rng = ChaCha8Rng::seed_from_u64(7);

    let reward = simulate(&mut arena, 0, 0, Player::Red, &mut metrics, &mut rng);
    assert!(reward <= 2);
    assert_eq!(arena.len(), 2);
    assert_eq!(arena[0].visits, 1);
    assert_eq!(arena[1].visits, 1);
    assert_eq!(metrics.simulations, 1);
    assert_eq!(metrics.nodes_expanded, 1);
    assert_eq!(metrics.leaf_nodes, 1);
    assert_eq!(metrics.nodes_evaluated, 1);
    assert_eq!(metrics.peak_nodes_in_memory, 2);

    for _ in 0..6 {
        simulate(&mut arena, 0, 0, Player::Red, &mut metrics, &mut rng);
    }
    assert_eq!(arena.len(), 8);
    assert_eq!(arena[0].untried_movements.len(), 0);
    simulate(&mut arena, 3, 1, Player::Red, &mut metrics, &mut rng);
    assert_eq!(metrics.simulations, 8);
    assert_eq!(metrics.nodes_expanded, 8);
    assert_eq!(metrics.max_depth_reached, 1);
    assert_eq!(arena[0].visits, 8);
}
