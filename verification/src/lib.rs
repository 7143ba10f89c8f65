//! Connect Four: the board, its rules and evaluation, and the search agents
//! (minimax with alpha-beta pruning, with and without a transposition table,
//! and the verified parts of Monte Carlo tree search).
pub mod agents;
pub mod experiment;
pub mod game;
