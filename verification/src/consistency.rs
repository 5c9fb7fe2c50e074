//! Laws that relate the different ways of making the same move: a single
//! promotion and the four promotions, a move and the replay of its notation,
//! a castling text and castling, and a list of move texts and the position
//! command.
use vstd::prelude::*;
use crate::board::{
    Board, Move, PieceColor, PieceType, bb, union_of, lookup_spec, NO_EN_PASSANT, castling_after_capture,
    promote_post, promote_pawn_to_post, promotion_board, promotion_kind, same_pieces, same_summary,
    lemma_board_ext,
};
use crate::board::{move_piece_post, castle_post, lemma_opposite_involution};
use crate::bits::has_bit;
use crate::notation::{
    make_move_post, text_move_post, with_checks_of, move_lan, lan_of, lan_square, lemma_lan_round_trip,
    castle_code_of, is_promotion_text, promotion_letter,
};
use crate::tables::{ZobristKeys, white_castle_index, black_castle_index};

verus! {

/// Positions with the same bitboards whose colour summaries are the unions
/// of their bitboards have the same summaries.
proof fn lemma_summaries_agree(a: Board, b: Board)
    requires
        same_pieces(a, b),
        a.pieces[0] == union_of(a, PieceColor::White),
        a.pieces[1] == union_of(a, PieceColor::Black),
        a.occupied == a.pieces[0] | a.pieces[1],
        b.pieces[0] == union_of(b, PieceColor::White),
        b.pieces[1] == union_of(b, PieceColor::Black),
        b.occupied == b.pieces[0] | b.pieces[1],
    ensures
        same_summary(a, b),
{
    assert(bb(a, PieceColor::White, PieceType::Pawn) == bb(b, PieceColor::White, PieceType::Pawn));
    assert(bb(a, PieceColor::White, PieceType::Bishop) == bb(b, PieceColor::White, PieceType::Bishop));
    assert(bb(a, PieceColor::White, PieceType::Knight) == bb(b, PieceColor::White, PieceType::Knight));
    assert(bb(a, PieceColor::White, PieceType::Rook) == bb(b, PieceColor::White, PieceType::Rook));
    assert(bb(a, PieceColor::White, PieceType::Queen) == bb(b, PieceColor::White, PieceType::Queen));
    assert(bb(a, PieceColor::White, PieceType::King) == bb(b, PieceColor::White, PieceType::King));
    assert(bb(a, PieceColor::Black, PieceType::Pawn) == bb(b, PieceColor::Black, PieceType::Pawn));
    assert(bb(a, PieceColor::Black, PieceType::Bishop) == bb(b, PieceColor::Black, PieceType::Bishop));
    assert(bb(a, PieceColor::Black, PieceType::Knight) == bb(b, PieceColor::Black, PieceType::Knight));
    assert(bb(a, PieceColor::Black, PieceType::Rook) == bb(b, PieceColor::Black, PieceType::Rook));
    assert(bb(a, PieceColor::Black, PieceType::Queen) == bb(b, PieceColor::Black, PieceType::Queen));
    assert(bb(a, PieceColor::Black, PieceType::King) == bb(b, PieceColor::Black, PieceType::King));
}

/// The castling rights after a promotion onto `to`: a rook taken on its
/// corner withdraws the matching right.
pub open spec fn castling_after_promotion(b: Board, to: int) -> u8 {
    match lookup_spec(b, to as u64) {
        Some(x) => castling_after_capture(b.castling, to, x.1),
        None => b.castling,
    }
}

/// Promoting to one kind with `promote_pawn_to` gives the matching one of the
/// four moves of `promote` (knight, bishop, rook, queen), hash included,
/// when no en-passant square is open and the promotion leaves the castling
/// keys the hash reads as they were.
pub proof fn promote_pawn_to_matches_promote(
    b: Board,
    from: int,
    to: int,
    keys: ZobristKeys,
    k: int,
    m: Move,
    out: Seq<Move>,
)
    requires
        0 <= k < 4,
        promote_post(b, from, to, keys, out),
        promote_pawn_to_post(b, from, to, promotion_kind(k), keys, m),
        b.en_passant == NO_EN_PASSANT,
        white_castle_index(castling_after_promotion(b, to)) == white_castle_index(b.castling),
        black_castle_index(castling_after_promotion(b, to)) == black_castle_index(b.castling),
    ensures
        m == out[k],
{
    let r1 = m.board;
    let r2 = out[k].board;
    let pk = promotion_kind(k);
    assert(promotion_board(b, from, to, keys, pk, r2));
    assert(same_pieces(r1, r2)) by {
        assert forall|c: PieceColor, t: PieceType| #[trigger] bb(r1, c, t) == bb(r2, c, t) by {}
    }
    lemma_summaries_agree(r1, r2);
    let pc = lookup_spec(b, from as u64).unwrap().0;
    let cap = lookup_spec(b, to as u64);
    let cf = castling_after_promotion(b, to);
    let h = b.zobrist_hash;
    let cw = keys.white_castling_rights[white_castle_index(b.castling)];
    let cb = keys.black_castling_rights[black_castle_index(b.castling)];
    let x = match cap {
        Some(c) => keys.table(c.0, c.1)[to],
        None => 0u64,
    };
    let bt = keys.black_turn;
    let pw = keys.table(pc, PieceType::Pawn)[from];
    let nk = keys.table(pc, pk)[to];
    assert(keys.ep_term(b.en_passant) == 0);
    assert(r1.zobrist_hash == (((h ^ x) ^ bt) ^ pw) ^ nk) by {
        if cap is None {
            assert((((h ^ 0u64) ^ bt) ^ pw) ^ nk == ((h ^ bt) ^ pw) ^ nk) by (bit_vector);
        }
    }
    assert(r2.zobrist_hash == (((((((h ^ cw) ^ cb) ^ x) ^ cw) ^ cb) ^ bt) ^ pw ^ 0u64) ^ nk) by {
        if cap is None {
            assert((((h ^ cw) ^ cb) ^ 0u64) == ((h ^ cw) ^ cb)) by (bit_vector);
        }
    }
    assert((((((((h ^ cw) ^ cb) ^ x) ^ cw) ^ cb) ^ bt) ^ pw ^ 0u64) ^ nk == (((h ^ x) ^ bt) ^ pw) ^ nk)
        by (bit_vector);
    lemma_board_ext(r1, r2);
}

/// The name of a square of the board has two characters.
proof fn lemma_square_name_len(p: int)
    requires
        0 <= p < 64,
    ensures
        lan_of(p).len() == 2,
{
    assert(p % 256 == p);
    assert(p / 8 + 1 < 10);
}

/// Replaying the notation of a piece move with `make_move` gives the
/// position the move leads to (the check fields aside, which `make_move`
/// sets itself), for a move that is not a king move of castling.
pub proof fn replay_notation_of_move(b: Board, from: int, to: int, keys: ZobristKeys, m: Move, r: Board)
    requires
        0 <= from < 64,
        0 <= to < 64,
        !((from == 4 && (to == 6 || to == 2)) || (from == 60 && (to == 62 || to == 58))),
        move_piece_post(b, to, from, keys, m),
        make_move_post(b, move_lan(m), keys, r),
    ensures
        with_checks_of(r, b) == m.board,
{
    let s = move_lan(m);
    lemma_square_name_len(from);
    lemma_square_name_len(to);
    lemma_lan_round_trip(from);
    lemma_lan_round_trip(to);
    assert(s =~= lan_of(from) + lan_of(to));
    assert(s.len() == 4);
    assert(!is_promotion_text(s));
    assert(s.subrange(0, 2) =~= lan_of(from));
    assert(s.subrange(2, 4) =~= lan_of(to));
    if castle_code_of(b, s) is Some {
        let e1 = seq!['e', '1'];
        let e8 = seq!['e', '8'];
        if s == seq!['e', '1', 'g', '1'] || s == seq!['e', '1', 'c', '1'] {
            assert(lan_of(from) =~= e1);
            assert(lan_square(e1) == 4);
        } else {
            assert(lan_of(from) =~= e8);
            assert(lan_square(e8) == 60);
        }
        if s == seq!['e', '1', 'g', '1'] {
            assert(lan_of(to) =~= seq!['g', '1']);
            assert(lan_square(seq!['g', '1']) == 6);
        } else if s == seq!['e', '1', 'c', '1'] {
            assert(lan_of(to) =~= seq!['c', '1']);
            assert(lan_square(seq!['c', '1']) == 2);
        } else if s == seq!['e', '8', 'g', '8'] {
            assert(lan_of(to) =~= seq!['g', '8']);
            assert(lan_square(seq!['g', '8']) == 62);
        } else {
            assert(lan_of(to) =~= seq!['c', '8']);
            assert(lan_square(seq!['c', '8']) == 58);
        }
        assert(false);
    }
    let q = with_checks_of(r, b);
    let r2 = m.board;
    assert(text_move_post(b, s, keys, q));
    assert(same_pieces(q, r2)) by {
        assert forall|c: PieceColor, t: PieceType| #[trigger] bb(q, c, t) == bb(r2, c, t) by {}
    }
    lemma_summaries_agree(q, r2);
    lemma_board_ext(q, r2);
}

/// Playing a castling text with `make_move` gives the position `castle`
/// gives for its code (the check fields aside, which `make_move` sets
/// itself).
pub proof fn castling_text_matches_castle(b: Board, s: Seq<char>, keys: ZobristKeys, m: Move, r: Board)
    requires
        castle_code_of(b, s) is Some,
        castle_post(b, castle_code_of(b, s).unwrap(), keys, m),
        make_move_post(b, s, keys, r),
    ensures
        with_checks_of(r, b) == m.board,
{
    assert(s.len() == 4);
    let q = with_checks_of(r, b);
    let r2 = m.board;
    assert(text_move_post(b, s, keys, q));
    assert(same_pieces(q, r2)) by {
        assert forall|c: PieceColor, t: PieceType| #[trigger] bb(q, c, t) == bb(r2, c, t) by {}
    }
    lemma_summaries_agree(q, r2);
    lemma_board_ext(q, r2);
}

/// The notation of a castling move, played back with `make_move` from the
/// position it was made in, is that same castling: its text names the king
/// moving to the queen-side square for the code 88 and to the king-side square
/// for 80, so replaying it gives the castled position (the check fields
/// aside), when the king of the side to move stands on its home square.
pub proof fn castle_notation_replays(b: Board, code: u8, keys: ZobristKeys, m: Move, r: Board)
    requires
        code == 80 || code == 88,
        castle_post(b, code, keys, m),
        b.turn == PieceColor::White ==> has_bit(b.kings[0], 4),
        b.turn == PieceColor::Black ==> has_bit(b.kings[1], 60),
        make_move_post(b, move_lan(m), keys, r),
    ensures
        castle_code_of(b, move_lan(m)) == Some(code),
        with_checks_of(r, b) == m.board,
{
    lemma_opposite_involution(b.turn);
    assert(m.board.turn.opposite() == b.turn);
    castling_text_matches_castle(b, move_lan(m), keys, m, r);
}

/// The notation of a promotion, played back with `make_move` from the
/// position it was made in, makes the same promotion: the letter it ends with
/// names the kind promoted to, so replaying it gives the promoted position
/// (the check fields aside).
pub proof fn promotion_notation_replays(
    b: Board,
    from: int,
    to: int,
    pk: PieceType,
    keys: ZobristKeys,
    m: Move,
    r: Board,
)
    requires
        0 <= from < 64,
        0 <= to < 64,
        pk == PieceType::Knight || pk == PieceType::Bishop || pk == PieceType::Rook || pk == PieceType::Queen,
        promote_pawn_to_post(b, from, to, pk, keys, m),
        make_move_post(b, move_lan(m), keys, r),
    ensures
        promotion_letter(move_lan(m)[4]) == Some(pk),
        with_checks_of(r, b) == m.board,
{
    let s = move_lan(m);
    lemma_square_name_len(from);
    lemma_square_name_len(to);
    lemma_lan_round_trip(from);
    lemma_lan_round_trip(to);
    assert(s.len() == 5);
    assert(s.subrange(0, 2) =~= lan_of(from));
    assert(s.subrange(2, 4) =~= lan_of(to));
    assert(is_promotion_text(s));
    let q = with_checks_of(r, b);
    let r2 = m.board;
    assert(text_move_post(b, s, keys, q));
    assert(same_pieces(q, r2)) by {
        assert forall|c: PieceColor, t: PieceType| #[trigger] bb(q, c, t) == bb(r2, c, t) by {}
    }
    lemma_summaries_agree(q, r2);
    lemma_board_ext(q, r2);
}

} // verus!
