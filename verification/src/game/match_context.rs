use vstd::prelude::*;

use crate::game::{
    board::{Board, COLUMNS},
    game_state::GameState,
    movement::Movement,
    zobrist::{hash_matches, lemma_apply_keeps_hash, lemma_new_hash, lemma_same_position_same_hash, ZobristTable},
};

verus! {

/// Why a movement was refused.
#[derive(Debug)]
pub enum MatchError {
    /// The movement's column is full.
    InvalidMovement(Movement),
}

/// A match in progress: the board, the Zobrist keys that hash it, and the
/// movements played so far.
pub struct MatchContext {
    board: Board,
    zobrist: ZobristTable,
    movement_history: Vec<Movement>,
}

/// The position reached by playing `movements` in order from the empty
/// board, hashing with `zobrist`; `None` when some movement is refused.
pub open spec fn replay(zobrist: ZobristTable, movements: Seq<Movement>) -> Option<Board>
    decreases movements.len(),
{
    if movements.len() == 0 {
        Some(Board::spec_new())
    } else {
        match replay(zobrist, movements.drop_last()) {
            None => None,
            Some(board) => if movements.last().column < COLUMNS {
                board.spec_apply(movements.last().column as int, Some(zobrist))
            } else {
                None
            },
        }
    }
}

/// Every position reached by replaying movements is reachable in the sense
/// of `Board::wf`: settled, one movement per piece, turns alternating.
pub proof fn lemma_replay_wf(zobrist: ZobristTable, movements: Seq<Movement>)
    requires
        replay(zobrist, movements) is Some,
    ensures
        replay(zobrist, movements)->0.wf(),
    decreases movements.len(),
{
    if movements.len() == 0 {
        Board::lemma_new();
    } else {
        lemma_replay_wf(zobrist, movements.drop_last());
        let board = replay(zobrist, movements.drop_last())->0;
        board.lemma_apply(movements.last().column as int, Some(zobrist));
    }
}

/// Hash law: the hash of a board reached from the empty board by movements
/// applied with `zobrist` is the Zobrist hash of its position (the keys of
/// its pieces, and the side-to-move key when Yellow is to move), whatever
/// order the pieces were played in.
pub proof fn lemma_replay_hash(zobrist: ZobristTable, movements: Seq<Movement>)
    requires
        replay(zobrist, movements) is Some,
    ensures
        hash_matches(zobrist, replay(zobrist, movements)->0),
    decreases movements.len(),
{
    if movements.len() == 0 {
        lemma_new_hash(zobrist);
    } else {
        lemma_replay_hash(zobrist, movements.drop_last());
        lemma_replay_wf(zobrist, movements.drop_last());
        let board = replay(zobrist, movements.drop_last())->0;
        lemma_apply_keeps_hash(zobrist, board, movements.last().column as int);
    }
}

/// Law: two matches hashed with the same keys that reach the same pieces
/// have the same hash, whatever movements led there.
pub proof fn lemma_same_position_same_hash_in_matches(a: MatchContext, b: MatchContext)
    requires
        a.wf(),
        b.wf(),
        a.spec_zobrist() == b.spec_zobrist(),
        a.spec_board().spec_grid() == b.spec_board().spec_grid(),
    ensures
        a.spec_board().spec_zobrist_hash() == b.spec_board().spec_zobrist_hash(),
{
    lemma_replay_wf(a.spec_zobrist(), a.spec_history());
    lemma_replay_wf(b.spec_zobrist(), b.spec_history());
    lemma_same_position_same_hash(a.spec_zobrist(), a.spec_board(), b.spec_board());
}

/// Law: the board of a match has had exactly one movement per entry of the
/// history.
pub proof fn lemma_history_counts_movements(context: MatchContext)
    requires
        context.wf(),
    ensures
        context.spec_board().spec_movements_played() == context.spec_history().len(),
        context.spec_board().wf(),
{
    lemma_replay_counts(context.spec_zobrist(), context.spec_history());
    lemma_replay_wf(context.spec_zobrist(), context.spec_history());
}

proof fn lemma_replay_counts(zobrist: ZobristTable, movements: Seq<Movement>)
    requires
        replay(zobrist, movements) is Some,
    ensures
        replay(zobrist, movements)->0.spec_movements_played() == movements.len(),
    decreases movements.len(),
{
    if movements.len() == 0 {
        Board::lemma_new();
    } else {
        lemma_replay_counts(zobrist, movements.drop_last());
        lemma_replay_wf(zobrist, movements.drop_last());
        let board = replay(zobrist, movements.drop_last())->0;
        board.lemma_apply(movements.last().column as int, Some(zobrist));
    }
}

impl MatchContext {
    pub closed spec fn spec_board(self) -> Board {
        self.board
    }

    pub closed spec fn spec_zobrist(self) -> ZobristTable {
        self.zobrist
    }

    pub closed spec fn spec_history(self) -> Seq<Movement> {
        self.movement_history@
    }

    /// The board is the position reached by replaying the history, and its
    /// hash is the Zobrist hash of that position.
    pub open spec fn wf(self) -> bool {
        &&& replay(self.spec_zobrist(), self.spec_history()) == Some(self.spec_board())
        &&& hash_matches(self.spec_zobrist(), self.spec_board())
    }

    /// A fresh match: the empty board, the Zobrist keys of `ZobristTable::new`
    /// and no movement played.
    pub fn new() -> (context: Self)
        ensures
            context.wf(),
            context.spec_board() == Board::spec_new(),
            context.spec_history().len() == 0,
            forall|column: int, row: int, player: int|
                #![trigger context.spec_zobrist().pieces[column][row][player]]
                0 <= column < COLUMNS && 0 <= row < crate::game::board::ROWS && 0 <= player < 2
                    ==> context.spec_zobrist().pieces[column][row][player]
                    == crate::game::zobrist::chacha8_u64_at(
                    crate::game::zobrist::ZOBRIST_SEED,
                    crate::game::zobrist::piece_word_pos(column, row, player) as u128,
                ),
            context.spec_zobrist().side_to_move == crate::game::zobrist::chacha8_u64_at(
                crate::game::zobrist::ZOBRIST_SEED,
                crate::game::zobrist::side_word_pos() as u128,
            ),
    {
        let zobrist = ZobristTable::new();
        proof {
            lemma_new_hash(zobrist);
        }
        Self { board: Board::new(), zobrist, movement_history: Vec::new() }
    }

    pub fn board(&self) -> (board: &Board)
        ensures
            *board == self.spec_board(),
    {
        &self.board
    }

    pub fn zobrist(&self) -> (zobrist: &ZobristTable)
        ensures
            *zobrist == self.spec_zobrist(),
    {
        &self.zobrist
    }

    pub fn movement_history(&self) -> (history: &[Movement])
        ensures
            history@ == self.spec_history(),
    {
        self.movement_history.as_slice()
    }

    pub fn movement_count(&self) -> (count: usize)
        ensures
            count == self.spec_history().len(),
    {
        self.movement_history.len()
    }

    pub fn last_movement(&self) -> (last: Option<Movement>)
        ensures
            last == if self.spec_history().len() == 0 {
                None
            } else {
                Some(self.spec_history().last())
            },
    {
        let count = self.movement_history.len();
        if count == 0 {
            None
        } else {
            Some(self.movement_history[count - 1])
        }
    }

    /// Plays `movement` for the side to move. A full column is refused with
    /// `InvalidMovement` and leaves the match unchanged; otherwise the piece
    /// drops, the hash is updated and the movement is appended to the history.
    pub fn play(&mut self, movement: Movement) -> (result: Result<(), MatchError>)
        requires
            old(self).wf(),
            movement.column < COLUMNS,
        ensures
            final(self).wf(),
            result is Ok <==> old(self).spec_board().spec_is_legal(movement.column as int),
            match result {
                Ok(()) => {
                    &&& final(self).spec_board() == old(self).spec_board().spec_apply(
                        movement.column as int,
                        Some(old(self).spec_zobrist()),
                    )->0
                    &&& final(self).spec_history() == old(self).spec_history().push(movement)
                    &&& final(self).spec_zobrist() == old(self).spec_zobrist()
                },
                Err(MatchError::InvalidMovement(refused)) => {
                    &&& refused == movement
                    &&& *final(self) == *old(self)
                },
            },
    {
        let next_board = match self.board.apply_movement(movement, Some(&self.zobrist)) {
            Some(next_board) => next_board,
            None => return Err(MatchError::InvalidMovement(movement)),
        };
        proof {
            use_type_invariant(&self.board);
            lemma_apply_keeps_hash(self.zobrist, self.board, movement.column as int);
            assert(self.movement_history@.push(movement).drop_last() == self.movement_history@);
        }

        self.board = next_board;
        self.movement_history.push(movement);

        Ok(())
    }

    pub fn game_state(&self) -> (state: GameState)
        ensures
            state == self.spec_board().spec_game_state(),
    {
        self.board.game_state()
    }

    /// Whether the match is won or drawn.
    pub fn is_finished(&self) -> (finished: bool)
        ensures
            finished == !(self.spec_board().spec_game_state() is InProgress),
    {
        !matches!(self.game_state(), GameState::InProgress)
    }
}

} // verus!
