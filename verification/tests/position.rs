use chicory::board::{Board, PieceColor, PieceType, NO_EN_PASSANT};
use chicory::tables::ZobristKeys;

const START: &str = "rnbqkbnr/pppppppp/8/8/8/8/PPPPPPPP/RNBQKBNR w KQkq - 0 1";

#[test]
fn start_position_fields() {
    let keys = ZobristKeys::new();
    let b = Board::new(START, &keys);
    assert_eq!(b.pawns, [0xff00, 0x00ff_0000_0000_0000]);
    assert_eq!(b.rooks, [0x81, 0x8100_0000_0000_0000]);
    assert_eq!(b.knights, [0x42, 0x4200_0000_0000_0000]);
    assert_eq!(b.bishops, [0x24, 0x2400_0000_0000_0000]);
    assert_eq!(b.queens, [0x08, 0x0800_0000_0000_0000]);
    assert_eq!(b.kings, [0x10, 0x1000_0000_0000_0000]);
    assert_eq!(b.turn, PieceColor::White);
    assert_eq!(b.castling, 0xff);
    assert_eq!(b.en_passant, NO_EN_PASSANT);
    assert_eq!(b.half_moves, 0);
    assert_eq!(b.full_move, 1);
    assert_eq!(b.check_real, 0);
    assert_eq!(b.check_full, 0);
    assert_eq!(b.pieces, [0xffff, 0xffff_0000_0000_0000]);
    assert_eq!(b.occupied, 0xffff_0000_0000_ffff);
    assert_eq!(b.zobrist_hash, keys.get_key(b));
    assert_eq!(Board::new(START, &keys), b);
    assert_eq!(Board::try_new(START, &keys), Some(b));
}

#[test]
fn fen_fields_are_read() {
    let keys = ZobristKeys::new();
    let b = Board::new("4k3/8/8/3pP3/8/8/8/4K3 w - d6 12 40", &keys);
    assert_eq!(b.turn, PieceColor::White);
    assert_eq!(b.castling, 0xf0);
    assert_eq!(b.en_passant, 43);
    assert_eq!(b.half_moves, 12);
    assert_eq!(b.full_move, 40);
    assert_eq!(b.pawns, [1u64 << 36, 1u64 << 35]);
    assert_eq!(b.kings, [1u64 << 4, 1u64 << 60]);
    let b2 = Board::new("4k3/8/8/8/8/8/8/4K3 b Kq - 0 7", &keys);
    assert_eq!(b2.turn, PieceColor::Black);
    assert_eq!(b2.castling, 0xf0 | 4 | 2);
}

#[test]
fn try_new_rejects_unreadable_text() {
    let keys = ZobristKeys::new();
    assert!(Board::try_new("8/8/8 w - -", &keys).is_none());
    assert!(Board::try_new("8/8/8/8/8/8/8/8/8 w - - 0 1", &keys).is_none());
    assert!(Board::try_new("8/8/8/8/8/8/8/8 w - z9 0 1", &keys).is_none());
    assert!(Board::try_new("8/8/8/8/8/8/8/8 w - - x 1", &keys).is_none());
    assert!(Board::try_new("8/8/8/8/8/8/8/8 w - - 0 -1", &keys).is_none());
    assert!(Board::try_new("8/8/8/8/8/8/8/8 w - - 70000 1", &keys).is_none());
    assert!(Board::try_new(START, &keys).is_some());
}

#[test]
fn lookup_reports_pieces() {
    let keys = ZobristKeys::new();
    let b = Board::new(START, &keys);
    assert_eq!(b.lookup(0), Some((PieceColor::White, PieceType::Rook)));
    assert_eq!(b.lookup(4), Some((PieceColor::White, PieceType::King)));
    assert_eq!(b.lookup(11), Some((PieceColor::White, PieceType::Pawn)));
    assert_eq!(b.lookup(59), Some((PieceColor::Black, PieceType::Queen)));
    assert_eq!(b.lookup(62), Some((PieceColor::Black, PieceType::Knight)));
    assert_eq!(b.lookup(61), Some((PieceColor::Black, PieceType::Bishop)));
    assert_eq!(b.lookup(30), None);
}

#[test]
fn hash_move_unmove() {
    let keys = ZobristKeys::new();
    let board = Board::new("8/8/8/3Rr3/8/8/8/8 w - - 0 1", &keys);
    let init_hash = board.zobrist_hash;
    assert_eq!(init_hash, keys.get_key(board));
    let s1 = board.move_piece(19, 35, &keys);
    assert_eq!(s1.board.zobrist_hash, keys.get_key(s1.board));
    assert_ne!(s1.board.zobrist_hash, init_hash);
    let s2 = s1.board.move_piece(20, 36, &keys);
    assert_eq!(s2.board.zobrist_hash, keys.get_key(s2.board));
    let s3 = s2.board.move_piece(35, 19, &keys);
    assert_eq!(s3.board.zobrist_hash, keys.get_key(s3.board));
    let s4 = s3.board.move_piece(36, 20, &keys);
    assert_eq!(s4.board.zobrist_hash, init_hash);
    assert_eq!(s4.board.rooks, board.rooks);
    assert_eq!(s4.board.turn, PieceColor::White);
    assert_eq!(s4.board.half_moves, 4);
    assert_eq!(s4.board.full_move, 3);
}

#[test]
fn pawn_double_step_opens_en_passant() {
    let keys = ZobristKeys::new();
    let b = Board::new(START, &keys);
    let m = b.move_piece(28, 12, &keys);
    assert_eq!(m.from, 12);
    assert_eq!(m.to, 28);
    assert!(!m.capture);
    assert_eq!(m.promote_to, None);
    assert_eq!(m.board.en_passant, 20);
    assert_eq!(m.board.turn, PieceColor::Black);
    assert_eq!(m.board.pawns[0], (0xff00u64 & !(1u64 << 12)) | (1u64 << 28));
    assert_eq!(m.board.zobrist_hash, keys.get_key(m.board));
    let reply = m.board.move_piece(36, 52, &keys);
    assert_eq!(reply.board.en_passant, 44);
    assert_eq!(reply.board.full_move, 2);
    assert_eq!(reply.board.zobrist_hash, keys.get_key(reply.board));
}

#[test]
fn en_passant_capture_removes_pawn() {
    let keys = ZobristKeys::new();
    let b = Board::new("4k3/8/8/3pP3/8/8/8/4K3 w - d6 0 1", &keys);
    let m = b.move_piece(43, 36, &keys);
    assert_eq!(m.board.pawns, [1u64 << 43, 0]);
    assert_eq!(m.board.en_passant, NO_EN_PASSANT);
    assert_eq!(m.board.zobrist_hash, keys.get_key(m.board));
}

#[test]
fn capture_removes_taken_piece() {
    let keys = ZobristKeys::new();
    let b = Board::new("4k3/8/8/3r4/8/8/8/3RK3 w - - 0 1", &keys);
    let m = b.move_piece(35, 3, &keys);
    assert!(m.capture);
    assert_eq!(m.board.rooks, [1u64 << 35, 0]);
    assert_eq!(m.board.pieces[1], 1u64 << 60);
    assert_eq!(m.board.zobrist_hash, keys.get_key(m.board));
}

#[test]
fn king_and_rook_moves_drop_castling_rights() {
    let keys = ZobristKeys::new();
    let b = Board::new("r3k2r/8/8/8/8/8/8/R3K2R w KQkq - 0 1", &keys);
    let k = b.move_piece(5, 4, &keys);
    assert_eq!(k.board.castling, 0xff & 0x33);
    assert_eq!(k.board.zobrist_hash, keys.get_key(k.board));
    let r = b.move_piece(1, 0, &keys);
    assert_eq!(r.board.castling, 0xff & 0x77);
    assert_eq!(r.board.zobrist_hash, keys.get_key(r.board));
    let take = b.move_piece(63, 7, &keys);
    assert_eq!(take.board.castling, (0xff & 0xbb) & 14);
    assert_eq!(take.board.zobrist_hash, keys.get_key(take.board));
}

#[test]
fn castling_moves_king_and_rook() {
    let keys = ZobristKeys::new();
    let b = Board::new("r3k2r/8/8/8/8/8/8/R3K2R w KQkq - 0 1", &keys);
    let short = b.castle(80, &keys);
    assert_eq!(short.from, 80);
    assert_eq!(short.to, 80);
    assert_eq!(short.board.kings[0], 1u64 << 6);
    assert_eq!(short.board.rooks[0], (1u64 << 0) | (1u64 << 5));
    assert_eq!(short.board.turn, PieceColor::Black);
    assert_eq!(short.board.zobrist_hash, keys.get_key(short.board));
    let long = short.board.castle(88, &keys);
    assert_eq!(long.board.kings[1], 1u64 << 58);
    assert_eq!(long.board.rooks[1], (1u64 << 59) | (1u64 << 63));
    assert_eq!(long.board.castling & 15, 0);
    assert_eq!(long.board.zobrist_hash, keys.get_key(long.board));
}

#[test]
fn promotion_gives_four_moves() {
    let keys = ZobristKeys::new();
    let b = Board::new("4k3/P7/8/8/8/8/8/4K3 w - - 0 1", &keys);
    let out = b.promote(48, 56, &keys);
    assert_eq!(out.len(), 4);
    let kinds = [PieceType::Knight, PieceType::Bishop, PieceType::Rook, PieceType::Queen];
    for (m, k) in out.iter().zip(kinds.iter()) {
        assert_eq!(m.promote_to, Some(*k));
        assert_eq!(m.from, 48);
        assert_eq!(m.to, 56);
        assert!(!m.capture);
        assert_eq!(m.board.pawns, [0, 0]);
        assert_eq!(m.board.lookup(56), Some((PieceColor::White, *k)));
        assert_eq!(m.board.turn, PieceColor::Black);
        assert_eq!(m.board.zobrist_hash, keys.get_key(m.board));
    }
    assert_eq!(out[3].board.queens[0], 1u64 << 56);
}

#[test]
fn recalc_board_rebuilds_summaries() {
    let keys = ZobristKeys::new();
    let mut b = Board::new(START, &keys);
    b.pieces = [0, 0];
    b.occupied = 0;
    b.recalc_board();
    assert_eq!(b.pieces, [0xffff, 0xffff_0000_0000_0000]);
    assert_eq!(b.occupied, 0xffff_0000_0000_ffff);
}

#[test]
fn color_not_swaps_sides() {
    assert_eq!(PieceColor::White.not(), PieceColor::Black);
    assert_eq!(PieceColor::Black.not(), PieceColor::White);
    assert_eq!(PieceColor::White.not().not(), PieceColor::White);
    assert_eq!(PieceColor::White.idx(), 0);
    assert_eq!(PieceColor::Black.idx(), 1);
}

#[test]
fn piece_there_and_back_restores_hash() {
    let keys = ZobristKeys::new();
    let board = Board::new("4k3/8/8/3N4/8/8/8/4K3 w - - 0 1", &keys);
    let out = board.move_piece(20, 35, &keys);
    let back = out.board.move_piece(35, 20, &keys);
    assert_eq!(back.board.knights, board.knights);
    assert_eq!(back.board.turn, board.turn);
    assert_eq!(back.board.zobrist_hash, board.zobrist_hash);
}
