use vstd::prelude::*;

use crate::game::movement::Movement;

verus! {

/// A movement from one node of a Monte Carlo search tree to another.
#[derive(Clone, Copy)]
pub struct MonteCarloGraphEdge {
    pub from: usize,
    pub to: usize,
    pub movement: Movement,
}

} // verus!
