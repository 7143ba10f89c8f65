use vstd::prelude::*;

use crate::{
    agents::{
        minimax_alpha_beta::saturating_product,
        monte_carlo::{
            node::MonteCarloNode,
            rollout::{reachable, reward, rollout},
            tree::{backpropagate, expand, lemma_on_path_same_parents, on_path, saturated, tree_wf},
        },
        search_metrics::SearchMetrics,
    },
    game::{board::Board, player::Player},
};
use rand_chacha::ChaCha8Rng;

verus! {

/// The position a simulation from node `node_index` plays out from: the new
/// child when the node had an untried movement, the node itself otherwise.
pub open spec fn simulated_board(before: Seq<MonteCarloNode>, after: Seq<MonteCarloNode>, node_index: int) -> Board {
    if before[node_index].untried_movements@.len() > 0 {
        after[before.len() as int].board
    } else {
        before[node_index].board
    }
}

/// The node a simulation from node `node_index` plays out from: the new
/// child (appended last) when the node had an untried movement, the node
/// itself otherwise.
pub open spec fn simulated_leaf(before: Seq<MonteCarloNode>, node_index: int) -> int {
    if before[node_index].untried_movements@.len() > 0 {
        before.len() as int
    } else {
        node_index
    }
}

/// One simulation from the node `node_index` that the selection reached at
/// `depth` below the root: expands one untried movement of it when there is
/// one, plays a random match out from the position reached, backs the
/// reward (in half points for `root_player`) up to the root, and counts:
/// one simulation, one expanded node when a child was added, one evaluated
/// leaf, the depth reached, the frontier there and the size of the tree.
pub fn simulate(
    arena: &mut Vec<MonteCarloNode>,
    node_index: usize,
    depth: usize,
    root_player: Player,
    metrics: &mut SearchMetrics,
    rng: &mut ChaCha8Rng,
) -> (result: u64)
    requires
        tree_wf(old(arena)@),
        node_index < old(arena)@.len(),
    ensures
        tree_wf(final(arena)@),
        final(arena)@.len() == old(arena)@.len() + if old(arena)@[node_index as int].untried_movements@.len() > 0 {
            1int
        } else {
            0int
        },
        result <= 2,
        forall|i: int|
            #![trigger final(arena)@[i]]
            0 <= i < old(arena)@.len() ==> {
                let before = old(arena)@[i];
                let after = final(arena)@[i];
                &&& after.board == before.board
                &&& after.parent == before.parent
                &&& after.movement == before.movement
                &&& i != node_index ==> after.children@ == before.children@ && after.untried_movements@
                    == before.untried_movements@
                &&& on_path(final(arena)@, simulated_leaf(old(arena)@, node_index as int), i) ==> after.visits
                    == saturated(before.visits as int, 1, usize::MAX as int) && after.wins == saturated(
                    before.wins as int,
                    result as int,
                    u64::MAX as int,
                )
                &&& !on_path(final(arena)@, simulated_leaf(old(arena)@, node_index as int), i) ==> after.visits
                    == before.visits && after.wins == before.wins
            },
        old(arena)@[node_index as int].untried_movements@.len() > 0 ==> {
            let untried = old(arena)@[node_index as int].untried_movements@;
            let child = final(arena)@[old(arena)@.len() as int];
            &&& final(arena)@[node_index as int].untried_movements@ == untried.drop_last()
            &&& final(arena)@[node_index as int].children@ == old(arena)@[node_index as int].children@.push(
                old(arena)@.len() as usize,
            )
            &&& child.movement == Some(untried.last())
            &&& child.parent == Some(node_index)
            &&& Some(child.board) == old(arena)@[node_index as int].board.spec_apply(
                untried.last().column as int,
                None,
            )
            &&& child.visits == 1
            &&& child.wins == result
        },
        old(arena)@[node_index as int].untried_movements@.len() == 0 ==> {
            &&& final(arena)@[node_index as int].untried_movements@ == old(arena)@[
                node_index as int].untried_movements@
            &&& final(arena)@[node_index as int].children@ == old(arena)@[node_index as int].children@
        },
        exists|last: Board, steps: nat|
            #![trigger reachable(simulated_board(old(arena)@, final(arena)@, node_index as int), last, steps)]
            reachable(simulated_board(old(arena)@, final(arena)@, node_index as int), last, steps) && !(
            last.spec_game_state() is InProgress) && result == reward(last.spec_game_state(), root_player),
        final(metrics).simulations == saturated(old(metrics).simulations as int, 1, usize::MAX as int),
        final(metrics).nodes_expanded == if old(arena)@[node_index as int].untried_movements@.len() > 0 {
            saturated(old(metrics).nodes_expanded as int, 1, usize::MAX as int)
        } else {
            old(metrics).nodes_expanded as int
        },
        final(metrics).leaf_nodes == saturated(old(metrics).leaf_nodes as int, 1, usize::MAX as int),
        final(metrics).nodes_evaluated == saturated(old(metrics).nodes_evaluated as int, 1, usize::MAX as int),
        final(metrics).max_depth_reached == if depth > old(metrics).max_depth_reached {
            depth
        } else {
            old(metrics).max_depth_reached
        },
        final(metrics).peak_nodes_in_memory >= old(metrics).peak_nodes_in_memory,
        final(metrics).peak_nodes_in_memory >= final(arena)@.len(),
        final(metrics).peak_frontier_size >= old(metrics).peak_frontier_size,
        final(metrics).alpha_cutoffs == old(metrics).alpha_cutoffs,
        final(metrics).beta_cutoffs == old(metrics).beta_cutoffs,
        final(metrics).tt_lookups == old(metrics).tt_lookups,
        final(metrics).tt_hits == old(metrics).tt_hits,
        final(metrics).tt_misses == old(metrics).tt_misses,
        final(metrics).tt_cutoffs == old(metrics).tt_cutoffs,
        final(metrics).tt_stores == old(metrics).tt_stores,
        final(metrics).peak_tt_entries == old(metrics).peak_tt_entries,
        final(metrics).elapsed_time_ns == old(metrics).elapsed_time_ns,
{
    metrics.simulations = metrics.simulations.saturating_add(1);

    metrics.max_depth_reached = metrics.max_depth_reached.max(depth);
    metrics.estimated_stack_memory_bytes = metrics.estimated_stack_memory_bytes.max(
        saturating_product(depth, std::mem::size_of::<usize>()),
    );

    let ghost before = arena@;
    let size = arena.len();
    let mut leaf = node_index;
    let child = expand(arena, node_index);
    proof {
        assert(before == old(arena)@);
        if before[node_index as int].untried_movements@.len() > 0 {
            assert(child == Some(size));
        }
    }
    match child {
        Some(child_index) => {
            leaf = child_index;
            metrics.nodes_expanded = metrics.nodes_expanded.saturating_add(1);
        },
        None => {},
    }

    let branching = arena[leaf].board.legal_movements().len();
    metrics.peak_frontier_size = metrics.peak_frontier_size.max(branching);

    let ghost expanded = arena@;
    let ghost leaf_board = arena@[leaf as int].board;
    proof {
        if before[node_index as int].untried_movements@.len() > 0 {
            assert(leaf == size);
        } else {
            assert(leaf == node_index);
            assert(expanded == before);
        }
        assert(leaf_board == simulated_board(before, expanded, node_index as int));
    }
    let mut rollout_length: usize = 0;
    let result = rollout(arena[leaf].board, root_player, &mut rollout_length, rng);
    let ghost last = choose|last: Board|
        #![trigger reachable(leaf_board, last, rollout_length as nat)]
        reachable(leaf_board, last, rollout_length as nat) && !(last.spec_game_state() is InProgress) && result
            == reward(last.spec_game_state(), root_player);

    metrics.nodes_evaluated = metrics.nodes_evaluated.saturating_add(1);
    metrics.leaf_nodes = metrics.leaf_nodes.saturating_add(1);

    backpropagate(arena, leaf, result);
    proof {
        lemma_on_path_same_parents(expanded, arena@, leaf as int, 0);
        assert forall|i: int| 0 <= i < arena@.len() implies on_path(expanded, leaf as int, i) == on_path(
            arena@,
            leaf as int,
            i,
        ) by {
            assert forall|j: int| 0 <= j < expanded.len() implies (#[trigger] expanded[j]).parent == arena@[j].parent by {
                assert(arena@[j].parent == expanded[j].parent);
            }
            lemma_on_path_same_parents(expanded, arena@, leaf as int, i);
        }
        assert(leaf as int == simulated_leaf(before, node_index as int));
        if before[node_index as int].untried_movements@.len() > 0 {
            assert(on_path(expanded, leaf as int, leaf as int));
            assert(arena@[before.len() as int].visits == saturated(expanded[before.len() as int].visits as int, 1, usize::MAX as int));
        }
        assert(arena@[leaf as int].board == leaf_board);
        if before[node_index as int].untried_movements@.len() > 0 {
            assert(arena@[before.len() as int].board == expanded[before.len() as int].board);
        } else {
            assert(arena@[node_index as int].board == expanded[node_index as int].board);
        }
        assert(reachable(simulated_board(before, arena@, node_index as int), last, rollout_length as nat));
    }

    metrics.peak_nodes_in_memory = metrics.peak_nodes_in_memory.max(arena.len());
    metrics.peak_structure_memory_bytes = metrics.peak_structure_memory_bytes.max(
        saturating_product(arena.len(), std::mem::size_of::<MonteCarloNode>()),
    );

    result
}

} // verus!
