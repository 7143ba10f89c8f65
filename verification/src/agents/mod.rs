use vstd::prelude::*;

use crate::{
    agents::search_metrics::SearchMetrics,
    game::{match_context::MatchContext, movement::Movement},
};

pub mod game_tree;
pub mod minimax_alpha_beta;
pub mod minimax_alpha_beta_with_transposition_table;
pub mod monte_carlo;
pub mod search_metrics;

verus! {

/// A player of Connect Four that picks a movement for the side to move.
pub trait Agent {
    /// Whether the agent can choose a movement in `game`.
    spec fn can_choose(&self, game: &MatchContext) -> bool;

    /// The counters of the last search.
    spec fn spec_metrics(&self) -> SearchMetrics;

    fn name(&self) -> &'static str;

    fn metrics(&self) -> (metrics: &SearchMetrics)
        ensures
            *metrics == self.spec_metrics(),
    ;

    fn reset_metrics(&mut self)
        ensures
            final(self).spec_metrics() == SearchMetrics::zero(),
    ;

    /// A legal movement for the side to move.
    fn choose_movement(&mut self, game: &MatchContext) -> (movement: Movement)
        requires
            game.wf(),
            old(self).can_choose(game),
        ensures
            game.spec_board().spec_is_legal(movement.column as int),
    ;
}

} // verus!
