use vstd::prelude::*;

use crate::game::{
    board::{lemma_in_progress_has_move, lemma_legal_columns, lemma_occupied_bound, Board, BOARD_SIZE},
    game_state::GameState,
    player::Player,
};
use rand::RngExt;
use rand_chacha::ChaCha8Rng;

verus! {

/// The ChaCha8 random number generator of `rand_chacha`.
#[verifier::external_type_specification]
#[verifier::external_body]
pub struct ExChaCha8Rng(ChaCha8Rng);

/// `rand::RngExt::random_range(0..len)` on a ChaCha8 generator: an index
/// below `len` (the range is not empty, so the call does not panic). Which
/// index comes out depends on the generator's state, which is not modelled
/// here, so nothing more is stated.
#[verifier::external_body]
fn random_index(rng: &mut ChaCha8Rng, len: usize) -> (index: usize)
    requires
        len > 0,
    ensures
        index < len,
{
    rng.random_range(0..len)
}

/// The reward of a finished match for `root_player`, in half points: 2 for
/// a win, 1 for a draw, 0 for a loss.
pub open spec fn reward(state: GameState, root_player: Player) -> u64 {
    match state {
        GameState::Win(player) => if player == root_player {
            2
        } else {
            0
        },
        GameState::Draw => 1,
        GameState::InProgress => 0,
    }
}

/// `to` is reached from `from` by `steps` legal movements, each played in a
/// position still in progress.
pub open spec fn reachable(from: Board, to: Board, steps: nat) -> bool
    decreases steps,
{
    if steps == 0 {
        from == to
    } else {
        exists|mid: Board, column: int|
            #![trigger mid.spec_apply(column, None)]
            reachable(from, mid, (steps - 1) as nat) && mid.spec_game_state() is InProgress && mid.spec_is_legal(column)
                && mid.spec_apply(column, None) == Some(to)
    }
}

/// Plays random legal movements from `board` until the match is over, and
/// returns its reward for `root_player` in half points; `rollout_length`
/// becomes the number of movements played.
pub fn rollout(board: Board, root_player: Player, rollout_length: &mut usize, rng: &mut ChaCha8Rng) -> (result: u64)
    ensures
        exists|last: Board|
            #![trigger reachable(board, last, *final(rollout_length) as nat)]
            reachable(board, last, *final(rollout_length) as nat) && !(last.spec_game_state() is InProgress)
                && result == reward(last.spec_game_state(), root_player),
        result <= 2,
{
    *rollout_length = 0;
    let mut current = board;
    proof {
        use_type_invariant(&current);
        lemma_occupied_bound(current.spec_grid());
    }

    loop
        invariant
            reachable(board, current, *rollout_length as nat),
            current.spec_movements_played() <= BOARD_SIZE,
            *rollout_length as nat + board.spec_movements_played() == current.spec_movements_played(),
        decreases BOARD_SIZE - current.spec_movements_played(),
    {
        proof {
            use_type_invariant(&current);
            lemma_legal_columns(current);
            lemma_occupied_bound(current.spec_grid());
        }
        assert(reachable(board, current, *rollout_length as nat));
        match current.game_state() {
            GameState::Win(player) => {
                return if player == root_player {
                    2
                } else {
                    0
                };
            },
            GameState::Draw => {
                return 1;
            },
            GameState::InProgress => {},
        }

        proof {
            lemma_in_progress_has_move(current);
        }

        *rollout_length += 1;

        let legal = current.legal_movements();

        let movement = legal[random_index(rng, legal.len())];

        let ghost previous = current;
        current = current.apply_movement(movement, None).unwrap();
        proof {
            previous.lemma_apply(movement.column as int, None);
            assert(previous.spec_apply(movement.column as int, None) == Some(current));
            use_type_invariant(&current);
            lemma_occupied_bound(current.spec_grid());
        }
    }
}

} // verus!
