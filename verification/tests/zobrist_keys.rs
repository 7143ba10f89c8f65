use connect_four::game::zobrist::ZobristTable;
use rand::{RngExt, SeedableRng};
use rand_chacha::ChaCha8Rng;

#[test]
fn keys_are_the_seeded_chacha8_stream_in_order() {
    let table = ZobristTable::new();
    let mut rng = ChaCha8Rng::seed_from_u64(42);
    for column in 0..7 {
        for row in 0..6 {
            for player in 0..2 {
                let expected: u64 = rng.random();
                assert_eq!(table.pieces[column][row][player], expected);
            }
        }
    }
    let side: u64 = rng.random();
    assert_eq!(table.side_to_move, side);
}

#[test]
fn keys_are_reproducible_and_distinct() {
    let first = ZobristTable::new();
    let second = ZobristTable::new();
    assert_eq!(first.pieces, second.pieces);
    assert_eq!(first.side_to_move, second.side_to_move);
    assert_ne!(first.pieces[0][0][0], first.pieces[0][0][1]);
    assert_ne!(first.side_to_move, 0);
}
