//! The verified parts of Monte Carlo tree search: the search tree, its
//! expansion, random playouts, the backpropagation of their results and the
//! counters of each simulation.
//! Rewards are counted in half points: a win is 2, a draw 1, a loss 0.
pub mod node;
pub mod rollout;
pub mod simulation;
pub mod tree;
