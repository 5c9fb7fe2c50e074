use chicory::board::{Board, Move, PieceType};
use chicory::eval::{eval_terms, order_moves};
use chicory::tables::ZobristKeys;

const START: &str = "rnbqkbnr/pppppppp/8/8/8/8/PPPPPPPP/RNBQKBNR w KQkq - 0 1";

#[test]
fn start_position_terms() {
    let keys = ZobristKeys::new();
    let t = eval_terms(&Board::new(START, &keys));
    assert_eq!(t.white_material, 4000);
    assert_eq!(t.black_material, 4000);
    assert_eq!(t.score, 0);
    assert_eq!(t.white_king_mid, 0);
    assert_eq!(t.black_king_mid, 0);
    assert_eq!(t.white_king_end, -30);
    assert_eq!(t.black_king_end, -30);
}

#[test]
fn lone_pawn_terms() {
    let keys = ZobristKeys::new();
    let t = eval_terms(&Board::new("4k3/8/8/8/4P3/8/8/4K3 w - - 0 1", &keys));
    assert_eq!(t.white_material, 100);
    assert_eq!(t.black_material, 0);
    assert_eq!(t.score, 120);
}

#[test]
fn missing_king_and_material_count() {
    let keys = ZobristKeys::new();
    let t = eval_terms(&Board::new("4k3/8/8/8/8/8/8/QR6 w - - 0 1", &keys));
    assert_eq!(t.white_material, 1400);
    assert_eq!(t.black_material, 0);
    // queen on a1 reads black's table at 63, rook on b1 at 62
    assert_eq!(t.score, 1400 - 20000 + (-20) + 0);
    assert_eq!(t.white_king_mid, 0);
    assert_eq!(t.black_king_end, -30);
}

fn mv(board: Board, from: usize, promote_to: Option<PieceType>, capture: bool) -> Move {
    Move { from, to: 0, board, promote_to, capture }
}

#[test]
fn order_moves_puts_promotions_then_captures_first() {
    let keys = ZobristKeys::new();
    let b = Board::new(START, &keys);
    let moves = vec![
        mv(b, 1, None, false),
        mv(b, 2, None, true),
        mv(b, 3, Some(PieceType::Queen), false),
        mv(b, 4, None, false),
        mv(b, 5, Some(PieceType::Knight), true),
        mv(b, 6, None, true),
    ];
    let out = order_moves(moves);
    let froms: Vec<usize> = out.iter().map(|m| m.from).collect();
    assert_eq!(froms, vec![3, 5, 2, 6, 1, 4]);
    let mut sorted = froms.clone();
    sorted.sort();
    assert_eq!(sorted, vec![1, 2, 3, 4, 5, 6]);
    assert!(order_moves(vec![]).is_empty());
}

#[test]
fn colour_mirror_negates_terms() {
    let keys = ZobristKeys::new();
    let t = eval_terms(&Board::new("4k3/8/8/8/4P3/8/8/4K3 w - - 0 1", &keys));
    let m = eval_terms(&Board::new("3k4/8/8/3p4/8/8/8/3K4 b - - 0 1", &keys));
    assert_eq!(m.score, -t.score);
    assert_eq!(m.white_material, t.black_material);
    assert_eq!(m.black_material, t.white_material);
    assert_eq!(m.white_king_mid, t.black_king_mid);
    assert_eq!(m.white_king_end, t.black_king_end);
    assert_eq!(m.black_king_mid, t.white_king_mid);
    assert_eq!(m.black_king_end, t.white_king_end);
    let s = eval_terms(&Board::new(START, &keys));
    let s2 = eval_terms(&Board::new("rnbkqbnr/pppppppp/8/8/8/8/PPPPPPPP/RNBKQBNR b - - 0 1", &keys));
    assert_eq!(s2.score, -s.score);
}
