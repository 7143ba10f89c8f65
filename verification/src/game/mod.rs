pub mod board;
pub mod evaluation;
pub mod game_state;
pub mod match_context;
pub mod movement;
pub mod player;
pub mod rules;
pub mod evaluation_laws;
pub mod zobrist;
