use vstd::prelude::*;

use crate::game::{board::Board, movement::Movement};

verus! {

/// A node of the search tree, stored in an arena and linked by index.
/// `wins` counts the rewards of the playouts through the node in half
/// points (a win is 2, a draw 1).
#[derive(Clone)]
pub struct MonteCarloNode {
    pub parent: Option<usize>,
    pub children: Vec<usize>,

    pub board: Board,
    pub movement: Option<Movement>,

    pub visits: usize,
    pub wins: u64,

    pub untried_movements: Vec<Movement>,

    pub graph_id: Option<usize>,
}

/// The movements of the legal columns of `board`, in increasing order.
pub open spec fn legal_movements_of(board: Board, movements: Seq<Movement>) -> bool {
    &&& movements.len() == board.spec_legal_columns().len()
    &&& forall|i: int| 0 <= i < movements.len() ==> (#[trigger] movements[i]).column == board.spec_legal_columns()[i]
}

impl MonteCarloNode {
    /// The root of a search from `board`: no parent, no visit yet, every
    /// legal movement untried.
    pub fn new_root(board: Board, graph_id: Option<usize>) -> (node: Self)
        ensures
            node.board == board,
            node.parent is None,
            node.children@.len() == 0,
            node.movement is None,
            node.visits == 0,
            node.wins == 0,
            legal_movements_of(board, node.untried_movements@),
            node.graph_id == graph_id,
    {
        let untried_movements = board.legal_movements();

        Self {
            board,
            parent: None,
            children: Vec::new(),
            movement: None,
            visits: 0,
            wins: 0,
            untried_movements,
            graph_id,
        }
    }

    /// The node reached from node `parent` by `movement`, leading to
    /// `board`: no visit yet, every legal movement untried.
    pub fn new_child(board: Board, parent: usize, movement: Movement, graph_id: Option<usize>) -> (node: Self)
        ensures
            node.board == board,
            node.parent == Some(parent),
            node.children@.len() == 0,
            node.movement == Some(movement),
            node.visits == 0,
            node.wins == 0,
            legal_movements_of(board, node.untried_movements@),
            node.graph_id == graph_id,
    {
        let untried_movements = board.legal_movements();

        Self {
            board,
            parent: Some(parent),
            children: Vec::new(),
            movement: Some(movement),
            visits: 0,
            wins: 0,
            untried_movements,
            graph_id,
        }
    }
}

} // verus!
