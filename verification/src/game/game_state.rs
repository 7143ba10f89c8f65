use vstd::prelude::*;

use crate::game::player::Player;

verus! {

/// Whether a match goes on, was won by one side, or ended in a draw.
#[derive(Debug, Clone, Copy, PartialEq, Eq, Structural)]
pub enum GameState {
    InProgress,
    Win(Player),
    Draw,
}

} // verus!
