use vstd::prelude::*;

use crate::game::match_context::MatchContext;

verus! {

/// A named match position to search from.
pub struct VisualizationScenario {
    pub name: String,
    pub match_context: MatchContext,
}

/// The search whose tree is drawn.
pub enum VisualizationTarget {
    MinimaxAlphaBeta,
    MinimaxAlphaBetaWithTranspositionTable,
    MonteCarlo,
}

/// A search to run and draw: the target, the position, and the depth limit
/// (or, for Monte Carlo, the number of simulations).
pub struct VisualizationRequest {
    pub target: VisualizationTarget,
    pub scenario: VisualizationScenario,
    pub limit: usize,
}

} // verus!
