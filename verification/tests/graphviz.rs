use connect_four::agents::minimax_alpha_beta_with_transposition_table::transposition_table::{
    NodeType, TranspositionTableEntry,
};
use connect_four::experiment::graphviz::minimax_alpha_beta::MinimaxAlphaBetaGraph;
use connect_four::experiment::graphviz::minimax_alpha_beta_with_transposition_table::{
    format_value, MinimaxAlphaBetaWithTranspositionTableGraph,
};
use connect_four::experiment::graphviz::{to_ascii, GraphvizConfig};
use connect_four::game::board::Board;
use connect_four::game::movement::Movement;
use connect_four::game::player::Player;

#[test]
fn empty_board_picture() {
    let row = "⚪ ⚪ ⚪ ⚪ ⚪ ⚪ ⚪\n";
    assert_eq!(to_ascii(&Board::new()), row.repeat(6));
}

#[test]
fn picture_shows_pieces() {
    let board = Board::new()
        .apply_movement(Movement::new(0), None)
        .unwrap()
        .apply_movement(Movement::new(6), None)
        .unwrap();
    let text = to_ascii(&board);
    let last = text.lines().last().unwrap();
    assert_eq!(last, "🔴 ⚪ ⚪ ⚪ ⚪ ⚪ 🟡");
    assert_eq!(text.lines().count(), 6);
}

#[test]
fn bounds_are_formatted() {
    assert_eq!(format_value(isize::MIN), "-∞");
    assert_eq!(format_value(isize::MAX), "∞");
    assert_eq!(format_value(0), "0");
    assert_eq!(format_value(-42), "-42");
    assert_eq!(format_value(1_000_000), "1000000");
}

#[test]
fn default_config_is_disabled() {
    let config = GraphvizConfig::default();
    assert!(!config.enabled);
    assert_eq!(config.max_nodes, 0);
}

#[test]
fn graph_respects_node_limit() {
    let mut graph = MinimaxAlphaBetaGraph::new(2, true);
    let board = Board::new();
    assert_eq!(graph.create_node(&board, 0, isize::MIN, isize::MAX), Some(0));
    assert_eq!(graph.create_node(&board, 1, -3, 4), Some(1));
    assert_eq!(graph.create_node(&board, 2, 0, 1), None);
    assert_eq!(graph.nodes.len(), 2);
    assert_eq!(graph.nodes[1].id, 1);
    assert_eq!(graph.nodes[1].depth, 1);
    assert_eq!(graph.nodes[1].alpha, -3);
    assert_eq!(graph.nodes[1].beta, 4);
    assert_eq!(graph.nodes[1].player, Player::Red);
    assert_eq!(graph.nodes[1].value, None);
    assert_eq!(graph.nodes[1].board, to_ascii(&board));
    graph.connect(0, 1, Movement::new(3));
    assert_eq!(graph.edges.len(), 1);
    assert_eq!(graph.edges[0].to, 1);
    assert_eq!(graph.edges[0].movement, Movement::new(3));
    graph.clear();
    assert!(graph.nodes.is_empty());
    assert_eq!(graph.edges.len(), 1);
}

#[test]
fn transposition_graph_node_starts_with_window() {
    let mut graph = MinimaxAlphaBetaWithTranspositionTableGraph::new(1, false);
    let board = Board::new();
    assert_eq!(graph.create_node(&board, 0, -5, 5), Some(0));
    assert_eq!(graph.create_node(&board, 0, -5, 5), None);
    let node = &graph.nodes[0];
    assert_eq!((node.alpha_in, node.beta_in, node.alpha_out, node.beta_out), (-5, 5, -5, 5));
    assert!(!node.tt_hit && !node.resolved_by_tt && !node.cutoff_occurred);
}

#[test]
fn alpha_beta_tree_dot_text() {
    let mut graph = MinimaxAlphaBetaGraph::new(10, true);
    let board = Board::new();
    let root = graph.create_node(&board, 0, isize::MIN, isize::MAX).unwrap();
    let next = board.apply_movement(Movement::new(3), None).unwrap();
    let child = graph.create_node(&next, 1, -5, 7).unwrap();
    graph.connect(root, child, Movement::new(3));
    graph.set_value(child, -12);
    graph.mark_pruned(child);

    let text = graph.dot_source();
    assert!(text.starts_with("digraph MinimaxAlphaBeta {\n"));
    assert!(text.ends_with("}\n"));
    assert_eq!(text.matches("\nlabel=").count(), 2);
    assert!(text.contains("<TR><TD ALIGN=\"LEFT\">α</TD><TD ALIGN=\"RIGHT\">-∞</TD></TR>"));
    assert!(text.contains("<TR><TD ALIGN=\"LEFT\">β</TD><TD ALIGN=\"RIGHT\">7</TD></TR>"));
    assert!(text.contains("<TR><TD ALIGN=\"LEFT\">Value</TD><TD ALIGN=\"RIGHT\"><B>-12</B></TD></TR>"));
    assert!(text.contains("<TR><TD ALIGN=\"LEFT\">Value</TD><TD ALIGN=\"RIGHT\"><B>-</B></TD></TR>"));
    assert!(text.contains("BORDER=\"8\""));
    assert!(text.contains("⚪ ⚪ ⚪ ⚪ ⚪ ⚪ ⚪<BR/>"));
    assert!(!text.contains("⚪\n"));
    assert!(text.contains("\n0:s -> 1:n [headlabel=<"));
    assert!(text.contains("BGCOLOR=\"#edf2fc\">3</TD>"));
}

#[test]
fn table_tree_dot_text() {
    let mut graph = MinimaxAlphaBetaWithTranspositionTableGraph::new(10, true);
    let board = Board::new();
    let root = graph.create_node(&board, 0, isize::MIN, isize::MAX).unwrap();
    graph.record_tt_hit(
        root,
        &TranspositionTableEntry { value: 4, depth: 2, node_type: NodeType::LowerBound, source_node_id: Some(9) },
    );
    graph.record_value(root, 4, 4, isize::MAX, true);

    let text = graph.dot_source();
    assert!(text.starts_with("digraph MinimaxAlphaBetaWithTranspositionTable {\n"));
    assert!(text.ends_with("}\n"));
    assert!(text.contains("<TR><TD ALIGN=\"LEFT\">Bound</TD><TD ALIGN=\"RIGHT\">LowerBound</TD></TR>"));
    assert!(text.contains("<TR><TD ALIGN=\"LEFT\">Source</TD><TD ALIGN=\"RIGHT\">9</TD></TR>"));
    assert!(text.contains("<TR><TD ALIGN=\"LEFT\">α out</TD><TD ALIGN=\"RIGHT\">4</TD></TR>"));
    assert!(text.contains("<TR><TD ALIGN=\"LEFT\">β out</TD><TD ALIGN=\"RIGHT\">∞</TD></TR>"));
    assert!(text.contains("<TR><TD ALIGN=\"LEFT\">Resolved</TD><TD ALIGN=\"RIGHT\">Yes</TD></TR>"));
    assert!(text.contains("COLOR=\"#5cd2f6\""));
    assert_eq!(text.matches(":s -> ").count(), 0);
}
