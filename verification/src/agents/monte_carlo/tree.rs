use vstd::prelude::*;

use crate::{
    agents::monte_carlo::node::{legal_movements_of, MonteCarloNode},
    game::{board::{lemma_legal_columns, Board}, movement::Movement},
};

verus! {

/// The column of the movement that leads to node `i`.
pub open spec fn column_of(arena: Seq<MonteCarloNode>, i: int) -> int {
    arena[i].movement->0.column as int
}

/// A well-formed search tree: the root is node 0; every other node has an
/// earlier parent and is the position after its movement, legal in the
/// parent's position; children point back to their parent; untried
/// movements are legal in their node's position.
pub open spec fn tree_wf(arena: Seq<MonteCarloNode>) -> bool {
    &&& arena.len() > 0
    &&& arena[0].parent is None
    &&& forall|i: int|
        #![trigger arena[i].parent]
        0 < i < arena.len() ==> {
            &&& arena[i].parent is Some
            &&& arena[i].parent->0 < i
            &&& arena[i].movement is Some
            &&& arena[arena[i].parent->0 as int].board.spec_is_legal(column_of(arena, i))
            &&& arena[arena[i].parent->0 as int].board.spec_apply(column_of(arena, i), None) == Some(arena[i].board)
        }
    &&& forall|i: int, j: int|
        #![trigger arena[i].children@[j]]
        0 <= i < arena.len() && 0 <= j < arena[i].children@.len() ==> {
            &&& i < arena[i].children@[j] < arena.len()
            &&& arena[arena[i].children@[j] as int].parent == Some(i as usize)
        }
    &&& forall|i: int, k: int|
        #![trigger arena[i].untried_movements@[k]]
        0 <= i < arena.len() && 0 <= k < arena[i].untried_movements@.len() ==> arena[i].board.spec_is_legal(
            arena[i].untried_movements@[k].column as int,
        )
}

/// Starts a new tree from `board`: the root alone, with every legal movement
/// untried.
pub fn reset_tree(arena: &mut Vec<MonteCarloNode>, board: Board)
    ensures
        tree_wf(final(arena)@),
        final(arena)@.len() == 1,
        final(arena)@[0].board == board,
        final(arena)@[0].visits == 0,
        final(arena)@[0].wins == 0,
        final(arena)@[0].children@.len() == 0,
        legal_movements_of(board, final(arena)@[0].untried_movements@),
{
    arena.clear();
    arena.push(MonteCarloNode::new_root(board, None));
    proof {
        lemma_legal_columns(board);
        assert forall|i: int, k: int|
            #![trigger arena@[i].untried_movements@[k]]
            0 <= i < arena@.len() && 0 <= k < arena@[i].untried_movements@.len() implies arena@[i].board.spec_is_legal(
                arena@[i].untried_movements@[k].column as int,
            ) by {
            assert(arena@[0].untried_movements@[k].column == board.spec_legal_columns()[k]);
        }
    }
}

/// Expands node `node_index` by its last untried movement: the movement
/// leaves the untried list and a new child node for it is appended to the
/// arena and to the node's children. `None` when no movement is untried.
pub fn expand(arena: &mut Vec<MonteCarloNode>, node_index: usize) -> (child: Option<usize>)
    requires
        tree_wf(old(arena)@),
        node_index < old(arena)@.len(),
    ensures
        tree_wf(final(arena)@),
        old(arena)@[node_index as int].untried_movements@.len() == 0 ==> child is None && final(arena)@ == old(arena)@,
        old(arena)@[node_index as int].untried_movements@.len() > 0 ==> {
            let untried = old(arena)@[node_index as int].untried_movements@;
            let movement = untried.last();
            let parent = old(arena)@[node_index as int].board;
            &&& child == Some(old(arena)@.len() as usize)
            &&& final(arena)@.len() == old(arena)@.len() + 1
            &&& final(arena)@[node_index as int].untried_movements@ == untried.drop_last()
            &&& final(arena)@[node_index as int].children@ == old(arena)@[node_index as int].children@.push(
                old(arena)@.len() as usize,
            )
            &&& final(arena)@.last().movement == Some(movement)
            &&& final(arena)@.last().parent == Some(node_index)
            &&& Some(final(arena)@.last().board) == parent.spec_apply(movement.column as int, None)
            &&& final(arena)@.last().visits == 0
            &&& final(arena)@.last().wins == 0
            &&& forall|i: int|
                0 <= i < old(arena)@.len() ==> {
                    &&& (#[trigger] final(arena)@[i]).visits == old(arena)@[i].visits
                    &&& final(arena)@[i].wins == old(arena)@[i].wins
                    &&& final(arena)@[i].board == old(arena)@[i].board
                    &&& final(arena)@[i].parent == old(arena)@[i].parent
                    &&& final(arena)@[i].movement == old(arena)@[i].movement
                    &&& i != node_index ==> final(arena)@[i].children@ == old(arena)@[i].children@
                        && final(arena)@[i].untried_movements@ == old(arena)@[i].untried_movements@
                }
        },
{
    if arena[node_index].untried_movements.len() == 0 {
        return None;
    }
    let ghost old_arena = arena@;
    let movement = arena[node_index].untried_movements.pop().unwrap();

    assert(old_arena[node_index as int].board.spec_is_legal(movement.column as int)) by {
        let k = old_arena[node_index as int].untried_movements@.len() - 1;
        assert(old_arena[node_index as int].untried_movements@[k] == movement);
    }

    let child_board = arena[node_index].board.apply_movement(movement, None).unwrap();

    let child_index = arena.len();

    arena.push(MonteCarloNode::new_child(child_board, node_index, movement, None));

    arena[node_index].children.push(child_index);

    proof {
        let a = arena@;
        lemma_legal_columns(child_board);
        assert forall|i: int|
            #![trigger a[i].parent]
            0 < i < a.len() implies {
            &&& a[i].parent is Some
            &&& a[i].parent->0 < i
            &&& a[i].movement is Some
            &&& a[a[i].parent->0 as int].board.spec_is_legal(column_of(a, i))
            &&& a[a[i].parent->0 as int].board.spec_apply(column_of(a, i), None) == Some(a[i].board)
        } by {
            if i < old_arena.len() {
                assert(old_arena[i].parent == a[i].parent);
            }
        }
        assert forall|i: int, j: int|
            #![trigger a[i].children@[j]]
            0 <= i < a.len() && 0 <= j < a[i].children@.len() implies {
            &&& i < a[i].children@[j] < a.len()
            &&& a[a[i].children@[j] as int].parent == Some(i as usize)
        } by {
            if i != node_index && i < old_arena.len() {
                assert(a[i].children@[j] == old_arena[i].children@[j]);
            } else if i == node_index && j < old_arena[i].children@.len() {
                assert(a[i].children@[j] == old_arena[i].children@[j]);
            }
        }
        assert forall|i: int, k: int|
            #![trigger a[i].untried_movements@[k]]
            0 <= i < a.len() && 0 <= k < a[i].untried_movements@.len() implies a[i].board.spec_is_legal(
                a[i].untried_movements@[k].column as int,
            ) by {
            if i == a.len() - 1 {
                assert(a[i].untried_movements@[k].column == child_board.spec_legal_columns()[k]);
            } else if i == node_index {
                assert(a[i].untried_movements@[k] == old_arena[i].untried_movements@[k]);
            } else {
                assert(a[i].untried_movements@[k] == old_arena[i].untried_movements@[k]);
            }
        }
    }

    Some(child_index)
}

/// Whether the path from a node up to the root is the same in two trees
/// with the same parents.
pub proof fn lemma_on_path_same_parents(a: Seq<MonteCarloNode>, b: Seq<MonteCarloNode>, from: int, i: int)
    requires
        a.len() == b.len(),
        forall|j: int| 0 <= j < a.len() ==> (#[trigger] a[j]).parent == b[j].parent,
    ensures
        on_path(a, from, i) == on_path(b, from, i),
    decreases from,
{
    if from != i && 0 < from < a.len() && a[from].parent is Some && (a[from].parent->0 as int) < from {
        lemma_on_path_same_parents(a, b, a[from].parent->0 as int, i);
    }
}

/// Node `i` lies on the path from node `from` up to the root.
pub open spec fn on_path(arena: Seq<MonteCarloNode>, from: int, i: int) -> bool
    decreases from,
{
    if from == i {
        true
    } else if from <= 0 || from >= arena.len() || arena[from].parent is None {
        false
    } else if (arena[from].parent->0 as int) < from {
        on_path(arena, arena[from].parent->0 as int, i)
    } else {
        false
    }
}

/// `a + b`, or the largest value of the type when that does not fit.
pub open spec fn saturated(a: int, b: int, max: int) -> int {
    if a + b > max {
        max
    } else {
        a + b
    }
}

proof fn lemma_on_path_step(arena: Seq<MonteCarloNode>, from: int, i: int)
    requires
        tree_wf(arena),
        0 <= from < arena.len(),
    ensures
        on_path(arena, from, i) == (from == i || (arena[from].parent is Some && on_path(
            arena,
            arena[from].parent->0 as int,
            i,
        ))),
        arena[from].parent is Some <==> from > 0,
        arena[from].parent is Some ==> arena[from].parent->0 < from,
{
    if from > 0 {
        assert(arena[from].parent is Some);
    }
}

proof fn lemma_on_path_below(arena: Seq<MonteCarloNode>, from: int, i: int)
    requires
        on_path(arena, from, i),
    ensures
        i <= from,
    decreases from,
{
    if from != i {
        lemma_on_path_below(arena, arena[from].parent->0 as int, i);
    }
}

proof fn lemma_on_path_trans(arena: Seq<MonteCarloNode>, from: int, mid: int, i: int)
    requires
        on_path(arena, from, mid),
        on_path(arena, mid, i),
    ensures
        on_path(arena, from, i),
    decreases from,
{
    if from != mid {
        lemma_on_path_trans(arena, arena[from].parent->0 as int, mid, i);
    }
}

/// Adds one visit and `reward` half points to node `node_index` and to each
/// of its ancestors up to the root (both counts saturate); nothing else
/// changes.
pub fn backpropagate(arena: &mut Vec<MonteCarloNode>, node_index: usize, reward: u64)
    requires
        tree_wf(old(arena)@),
        node_index < old(arena)@.len(),
    ensures
        tree_wf(final(arena)@),
        final(arena)@.len() == old(arena)@.len(),
        forall|i: int|
            #![trigger final(arena)@[i]]
            0 <= i < old(arena)@.len() ==> {
                let before = old(arena)@[i];
                let after = final(arena)@[i];
                &&& after.board == before.board
                &&& after.parent == before.parent
                &&& after.movement == before.movement
                &&& after.children@ == before.children@
                &&& after.untried_movements@ == before.untried_movements@
                &&& on_path(old(arena)@, node_index as int, i) ==> after.visits == saturated(
                    before.visits as int,
                    1,
                    usize::MAX as int,
                ) && after.wins == saturated(before.wins as int, reward as int, u64::MAX as int)
                &&& !on_path(old(arena)@, node_index as int, i) ==> after.visits == before.visits && after.wins
                    == before.wins
            },
{
    let ghost start = arena@;
    let mut current: Option<usize> = Some(node_index);

    while current.is_some()
        invariant
            start == old(arena)@,
            tree_wf(start),
            arena@.len() == start.len(),
            node_index < start.len(),
            current is Some ==> current->0 < start.len() && on_path(start, node_index as int, current->0 as int),
            forall|i: int|
                #![trigger arena@[i]]
                0 <= i < start.len() ==> {
                    let before = start[i];
                    let after = arena@[i];
                    let updated = on_path(start, node_index as int, i) && !(current is Some && on_path(
                        start,
                        current->0 as int,
                        i,
                    ));
                    &&& after.board == before.board
                    &&& after.parent == before.parent
                    &&& after.movement == before.movement
                    &&& after.children@ == before.children@
                    &&& after.untried_movements@ == before.untried_movements@
                    &&& updated ==> after.visits == saturated(before.visits as int, 1, usize::MAX as int)
                        && after.wins == saturated(before.wins as int, reward as int, u64::MAX as int)
                    &&& !updated ==> after.visits == before.visits && after.wins == before.wins
                },
        decreases match current {
            Some(c) => c + 1,
            None => 0,
        },
    {
        let index = current.unwrap();
        let ghost before = arena@;

        arena[index].visits = arena[index].visits.saturating_add(1);

        arena[index].wins = arena[index].wins.saturating_add(reward);

        current = arena[index].parent;

        proof {
            assert(start[index as int].parent == arena@[index as int].parent);
            assert forall|i: int| 0 <= i < start.len() implies on_path(start, index as int, i) == (i == index
                || (current is Some && on_path(start, current->0 as int, i))) by {
                lemma_on_path_step(start, index as int, i);
            }
            assert forall|i: int| #![trigger arena@[i]] 0 <= i < start.len() implies {
                let updated = on_path(start, node_index as int, i) && !(current is Some && on_path(
                    start,
                    current->0 as int,
                    i,
                ));
                &&& updated ==> arena@[i].visits == saturated(start[i].visits as int, 1, usize::MAX as int)
                    && arena@[i].wins == saturated(start[i].wins as int, reward as int, u64::MAX as int)
                &&& !updated ==> arena@[i].visits == start[i].visits && arena@[i].wins == start[i].wins
            } by {
                if i != index {
                    assert(before[i] == arena@[i]);
                } else {
                    assert(before[i].visits == start[i].visits);
                    assert(on_path(start, node_index as int, i));
                    if current is Some && on_path(start, current->0 as int, i) {
                        lemma_on_path_below(start, current->0 as int, i);
                    }
                }
            }
            if current is Some {
                lemma_on_path_step(start, index as int, current->0 as int);
                assert(on_path(start, current->0 as int, current->0 as int));
                assert(on_path(start, index as int, current->0 as int));
                lemma_on_path_trans(start, node_index as int, index as int, current->0 as int);
            }
        }
    }
    proof {
        let a = arena@;
        assert forall|i: int| #![trigger a[i].parent] 0 < i < a.len() implies {
            &&& a[i].parent is Some
            &&& a[i].parent->0 < i
            &&& a[i].movement is Some
            &&& a[a[i].parent->0 as int].board.spec_is_legal(column_of(a, i))
            &&& a[a[i].parent->0 as int].board.spec_apply(column_of(a, i), None) == Some(a[i].board)
        } by {
            assert(start[i].parent == a[i].parent);
            assert(start[start[i].parent->0 as int].board == a[a[i].parent->0 as int].board);
        }
        assert forall|i: int, j: int|
            #![trigger a[i].children@[j]]
            0 <= i < a.len() && 0 <= j < a[i].children@.len() implies {
            &&& i < a[i].children@[j] < a.len()
            &&& a[a[i].children@[j] as int].parent == Some(i as usize)
        } by {
            assert(a[i].children@ == start[i].children@);
            assert(start[i].children@[j] == a[i].children@[j]);
            assert(a[a[i].children@[j] as int].parent == start[start[i].children@[j] as int].parent);
        }
        assert forall|i: int, k: int|
            #![trigger a[i].untried_movements@[k]]
            0 <= i < a.len() && 0 <= k < a[i].untried_movements@.len() implies a[i].board.spec_is_legal(
                a[i].untried_movements@[k].column as int,
            ) by {
            assert(a[i].untried_movements@ == start[i].untried_movements@);
            assert(start[i].untried_movements@[k] == a[i].untried_movements@[k]);
        }
    }
}

/// Among the first `k` children of the root, the index (in the children
/// list) of the last one with the most visits.
pub open spec fn most_visited_index(arena: Seq<MonteCarloNode>, k: int) -> int
    decreases k,
{
    if k <= 1 {
        0
    } else {
        let previous = most_visited_index(arena, k - 1);
        let children = arena[0].children@;
        if arena[children[k - 1] as int].visits >= arena[children[previous] as int].visits {
            k - 1
        } else {
            previous
        }
    }
}

/// Law: among the first `k` children of the root, the chosen one has the
/// most visits, and every later one among them has strictly fewer (the last
/// most visited child wins a tie).
pub proof fn lemma_most_visited_index(arena: Seq<MonteCarloNode>, k: int)
    requires
        1 <= k <= arena[0].children@.len(),
    ensures
        0 <= most_visited_index(arena, k) < k,
        forall|j: int|
            0 <= j < k ==> arena[arena[0].children@[most_visited_index(arena, k)] as int].visits
                >= #[trigger] arena[arena[0].children@[j] as int].visits,
        forall|j: int|
            most_visited_index(arena, k) < j < k ==> #[trigger] arena[arena[0].children@[j] as int].visits
                < arena[arena[0].children@[most_visited_index(arena, k)] as int].visits,
    decreases k,
{
    if k > 1 {
        lemma_most_visited_index(arena, k - 1);
    }
}

/// The movement of the root's most visited child (the last such child on a
/// tie); it is legal in the root's position.
pub fn most_visited_child(arena: &Vec<MonteCarloNode>) -> (movement: Movement)
    requires
        tree_wf(arena@),
        arena@[0].children@.len() > 0,
    ensures
        movement == arena@[arena@[0].children@[most_visited_index(arena@, arena@[0].children@.len() as int)] as int].movement->0,
        arena@[0].board.spec_is_legal(movement.column as int),
        exists|chosen: int|
            #![trigger arena@[0].children@[chosen]]
            0 <= chosen < arena@[0].children@.len() && movement == arena@[arena@[0].children@[chosen] as int].movement->0
                && (forall|j: int|
                0 <= j < arena@[0].children@.len() ==> arena@[arena@[0].children@[chosen] as int].visits
                    >= #[trigger] arena@[arena@[0].children@[j] as int].visits) && (forall|j: int|
                chosen < j < arena@[0].children@.len() ==> #[trigger] arena@[arena@[0].children@[j] as int].visits
                    < arena@[arena@[0].children@[chosen] as int].visits),
{
    let root = &arena[0];
    let count = root.children.len();

    let mut best_child = root.children[0];
    let mut best: usize = 0;
    let mut k: usize = 1;
    while k < count
        invariant
            1 <= k <= count,
            count == arena@[0].children@.len(),
            root == arena@[0],
            tree_wf(arena@),
            best == most_visited_index(arena@, k as int),
            best < k,
            best_child == root.children@[best as int],
        decreases count - k,
    {
        let child = root.children[k];
        if arena[child].visits >= arena[best_child].visits {
            best_child = child;
            best = k;
        }
        k += 1;
    }

    proof {
        lemma_most_visited_index(arena@, count as int);
        assert(arena@[0].children@[best as int] == best_child);
        assert(arena@[best_child as int].parent == Some(0usize));
        assert(arena@[best_child as int].parent is Some);
    }
    arena[best_child].movement.unwrap()
}

/// The number of nodes with children and the total number of children
/// (each saturating), from which the effective branching factor is derived.
pub fn branching_counts(arena: &Vec<MonteCarloNode>) -> (counts: (usize, usize))
    ensures
        counts.0 == internal_nodes(arena@, arena@.len() as int),
        counts.1 == total_children(arena@, arena@.len() as int),
{
    let mut internal: usize = 0;
    let mut total: usize = 0;
    let mut i: usize = 0;
    while i < arena.len()
        invariant
            i <= arena@.len(),
            internal == internal_nodes(arena@, i as int),
            total == total_children(arena@, i as int),
        decreases arena@.len() - i,
    {
        if arena[i].children.len() > 0 {
            internal = internal.saturating_add(1);
        }
        total = total.saturating_add(arena[i].children.len());
        i += 1;
    }
    (internal, total)
}

/// The number of nodes among the first `n` that have children (saturating).
pub open spec fn internal_nodes(arena: Seq<MonteCarloNode>, n: int) -> usize
    decreases n,
{
    if n <= 0 {
        0
    } else if arena[n - 1].children@.len() > 0 {
        saturated(internal_nodes(arena, n - 1) as int, 1, usize::MAX as int) as usize
    } else {
        internal_nodes(arena, n - 1)
    }
}

/// The number of children of the first `n` nodes (saturating).
pub open spec fn total_children(arena: Seq<MonteCarloNode>, n: int) -> usize
    decreases n,
{
    if n <= 0 {
        0
    } else {
        saturated(total_children(arena, n - 1) as int, arena[n - 1].children@.len() as int, usize::MAX as int) as usize
    }
}

} // verus!
