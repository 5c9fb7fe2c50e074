use chicory::board::{Board, Move};
use chicory::perft::split_moves;
use chicory::tables::ZobristKeys;

fn moves(n: usize) -> Vec<Move> {
    let keys = ZobristKeys::new();
    let b = Board::new("4k3/8/8/8/8/8/8/4K3 w - - 0 1", &keys);
    (0..n).map(|i| Move { from: i, to: i, board: b, promote_to: None, capture: false }).collect()
}

fn froms(chunk: &Vec<Move>) -> Vec<usize> {
    chunk.iter().map(|m| m.from).collect()
}

#[test]
fn split_moves_gives_remainder_to_last() {
    let ms = moves(10);
    let chunks = split_moves(&ms, 3);
    assert_eq!(chunks.len(), 3);
    assert_eq!(froms(&chunks[0]), vec![0, 1, 2]);
    assert_eq!(froms(&chunks[1]), vec![3, 4, 5]);
    assert_eq!(froms(&chunks[2]), vec![6, 7, 8, 9]);
}

#[test]
fn split_moves_with_more_threads_than_moves() {
    let ms = moves(3);
    let chunks = split_moves(&ms, 5);
    assert_eq!(chunks.len(), 5);
    for c in &chunks[0..4] {
        assert!(c.is_empty());
    }
    assert_eq!(froms(&chunks[4]), vec![0, 1, 2]);
    let all: Vec<usize> = chunks.iter().flat_map(|c| froms(c)).collect();
    assert_eq!(all, vec![0, 1, 2]);
}
