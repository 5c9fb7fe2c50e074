use chicory::board::{Board, Move, PieceColor, PieceType, NO_EN_PASSANT};
use chicory::tables::ZobristKeys;

const START: &str = "rnbqkbnr/pppppppp/8/8/8/8/PPPPPPPP/RNBQKBNR w KQkq - 0 1";

#[test]
fn lan_to_pos_reads_squares() {
    assert_eq!(Board::lan_to_pos("a1"), 0);
    assert_eq!(Board::lan_to_pos("e2"), 12);
    assert_eq!(Board::lan_to_pos("E2"), 12);
    assert_eq!(Board::lan_to_pos("h8"), 63);
    assert_eq!(Board::lan_to_pos("d5xyz"), 35);
}

#[test]
fn pos_to_lan_names_squares() {
    assert_eq!(Board::pos_to_lan(0), "a1");
    assert_eq!(Board::pos_to_lan(12), "e2");
    assert_eq!(Board::pos_to_lan(63), "h8");
    assert_eq!(Board::pos_to_lan(80), "a11");
}

#[test]
fn square_names_round_trip() {
    for pos in 0..64usize {
        let name = Board::pos_to_lan(pos);
        assert_eq!(Board::lan_to_pos(&name), pos);
    }
}

#[test]
fn move_to_lan_writes_moves() {
    let keys = ZobristKeys::new();
    let b = Board::new(START, &keys);
    let m = b.move_piece(28, 12, &keys);
    assert_eq!(Board::move_to_lan(&m), "e2e4");
    let p = Move { from: 48, to: 56, board: b, promote_to: Some(PieceType::Queen), capture: false };
    assert_eq!(Board::move_to_lan(&p), "a7a8q");
    let n = Move { promote_to: Some(PieceType::Knight), ..p };
    assert_eq!(Board::move_to_lan(&n), "a7a8n");
    let mut after_white = b;
    after_white.turn = PieceColor::Black;
    let ks = Move { from: 80, to: 80, board: after_white, promote_to: None, capture: false };
    assert_eq!(Board::move_to_lan(&ks), "e1g1");
    let qs = Move { from: 88, to: 88, board: b, promote_to: None, capture: false };
    assert_eq!(Board::move_to_lan(&qs), "e8c8");
}

#[test]
fn make_move_plays_text_moves() {
    let keys = ZobristKeys::new();
    let b = Board::new(START, &keys);
    let r = b.make_move("e2e4", &keys);
    assert_eq!(r, b.move_piece(28, 12, &keys).board);
    assert_eq!(r.zobrist_hash, keys.get_key(r));
    let r2 = r.make_move("g8f6", &keys);
    assert_eq!(r2.knights[1], (1u64 << 57) | (1u64 << 45));
    assert_eq!(r2.en_passant, NO_EN_PASSANT);
    // a move of a piece other than a pawn closes the en-passant square
    // without taking its key out of the hash
    assert_eq!(r2.zobrist_hash, keys.get_key(r2) ^ keys.en_passant[20]);
    let r3 = r2.make_move("d2d4", &keys);
    assert_eq!(r3.en_passant, 19);
}

#[test]
fn make_move_castles_and_promotes() {
    let keys = ZobristKeys::new();
    let b = Board::new("r3k2r/8/8/8/8/8/8/R3K2R w KQkq - 0 1", &keys);
    let r = b.make_move("e1g1", &keys);
    assert_eq!(r, b.castle(80, &keys).board);
    assert_eq!(r.kings[0], 1u64 << 6);
    let r2 = r.make_move("e8c8", &keys);
    assert_eq!(r2.kings[1], 1u64 << 58);
    assert_eq!(r2.rooks[1], (1u64 << 59) | (1u64 << 63));
    assert_eq!(r2.zobrist_hash, keys.get_key(r2));

    let p = Board::new("4k3/P7/8/8/8/8/8/4K3 w - - 0 1", &keys);
    let q = p.make_move("a7a8q", &keys);
    assert_eq!(q.queens[0], 1u64 << 56);
    assert_eq!(q.pawns[0], 0);
    assert_eq!(q.en_passant, NO_EN_PASSANT);
    assert_eq!(q.zobrist_hash, keys.get_key(q));
    let n = p.make_move("a7a8N", &keys);
    assert_eq!(n.knights[0], 1u64 << 56);
    let unknown = p.make_move("a7a8x", &keys);
    assert_eq!(unknown, p);
}

#[test]
fn move_playable_checks_texts() {
    let keys = ZobristKeys::new();
    let b = Board::new(START, &keys);
    assert!(b.move_playable("e2e4"));
    assert!(b.move_playable("e1g1"));
    assert!(b.move_playable("a7a8x"));
    assert!(!b.move_playable("e2"));
    assert!(!b.move_playable("e3e4"));
    assert!(!b.move_playable("i9a1"));
    assert!(!b.move_playable("é2e4"));
    assert!(!b.move_playable("e0e4"));
    assert!(!b.move_playable("e4e5q"));
    assert!(b.move_playable("e2e4q"));
}

#[test]
fn unknown_promotion_letter_needs_no_counter_room() {
    let keys = ZobristKeys::new();
    let p = Board::new("4k3/P7/8/8/8/8/8/4K3 w - - 65535 1", &keys);
    assert!(p.move_playable("a7a8x"));
    assert_eq!(p.make_move("a7a8x", &keys), p);
    assert!(!p.move_playable("a7a8q"));
    assert!(!p.move_playable("e1d1"));
}

#[test]
fn make_move_clears_checks_without_opposing_king() {
    let keys = ZobristKeys::new();
    let mut lone = Board::new("8/8/8/8/8/8/8/R3K3 w - - 0 1", &keys);
    lone.check_real = 5;
    lone.check_full = 6;
    let r = lone.make_move("a1a2", &keys);
    assert_eq!(r.check_real, 0);
    assert_eq!(r.check_full, 0);
    let mut both = Board::new("4k3/8/8/8/8/8/8/R3K3 w - - 0 1", &keys);
    both.check_real = 5;
    both.check_full = 6;
    let r2 = both.make_move("a1a2", &keys);
    assert_eq!(r2.check_real, 5);
    assert_eq!(r2.check_full, 6);
}

#[test]
fn replaying_a_moves_notation_gives_its_position() {
    let keys = ZobristKeys::new();
    let b = Board::new(START, &keys);
    for (from, to) in [(12usize, 28usize), (6, 21), (1, 18), (11, 19)] {
        let m = b.move_piece(to, from, &keys);
        assert_eq!(b.make_move(&Board::move_to_lan(&m), &keys), m.board);
    }
}

#[test]
fn single_promotion_matches_promote() {
    let keys = ZobristKeys::new();
    let p = Board::new("4k1n1/P5P1/8/8/8/8/8/4K3 w - - 0 1", &keys);
    let all = p.promote(48, 56, &keys);
    assert_eq!(p.make_move("a7a8n", &keys), all[0].board);
    assert_eq!(p.make_move("a7a8b", &keys), all[1].board);
    assert_eq!(p.make_move("a7a8r", &keys), all[2].board);
    assert_eq!(p.make_move("a7a8q", &keys), all[3].board);
    let takes = p.promote(54, 62, &keys);
    assert_eq!(p.make_move("g7g8q", &keys), takes[3].board);
}
