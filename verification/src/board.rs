//! The chess position: twelve bitboards (one per colour and piece kind), the
//! side to move, castling rights, the en-passant square, move counters and an
//! incrementally maintained Zobrist hash.
use vstd::prelude::*;
use crate::bits::{lemma_xor_unit, has_bit, sq, lemma_mask_test, lemma_or_bit, lemma_set_bit, lemma_clear_bit};
use crate::laws::{move_keeps_hash, lemma_move_piece_hash, castle_keeps_hash, lemma_castle_hash, promote_keeps_hash, lemma_promote_hash,
    promote_pawn_to_keeps_hash, lemma_promote_pawn_to_hash};
use crate::tables::{ZobristKeys, white_castle_index, black_castle_index, lemma_castle_index_bounds};

verus! {

/// The two sides of a chess game.
#[derive(Debug, Clone, Copy, PartialEq, Eq, Structural)]
pub enum PieceColor {
    White,
    Black,
}

/// The six kinds of chess pieces.
#[derive(Debug, Clone, Copy, PartialEq, Eq, Structural)]
pub enum PieceType {
    Pawn,
    Bishop,
    Knight,
    Rook,
    Queen,
    King,
}

impl PieceColor {
    /// Index of this colour in the per-colour arrays of a board (white 0, black 1).
    pub open spec fn spec_idx(self) -> int {
        match self {
            PieceColor::White => 0,
            PieceColor::Black => 1,
        }
    }

    /// The opposite colour.
    pub open spec fn opposite(self) -> PieceColor {
        match self {
            PieceColor::White => PieceColor::Black,
            PieceColor::Black => PieceColor::White,
        }
    }

    /// Index of this colour in the per-colour arrays of a board.
    pub fn idx(self) -> (i: usize)
        ensures
            i == self.spec_idx(),
    {
        match self {
            PieceColor::White => 0,
            PieceColor::Black => 1,
        }
    }

    /// The side that is not `self`.
    pub fn not(self) -> (c: PieceColor)
        ensures
            c == self.opposite(),
    {
        match self {
            PieceColor::White => PieceColor::Black,
            PieceColor::Black => PieceColor::White,
        }
    }
}

/// Taking the opposite colour twice gives back the colour.
pub proof fn lemma_opposite_involution(c: PieceColor)
    ensures
        c.opposite().opposite() == c,
        c.opposite() != c,
{
}

/// The colour whose per-colour array index is `i`.
pub open spec fn color_of_idx(i: int) -> PieceColor {
    if i == 0 {
        PieceColor::White
    } else {
        PieceColor::Black
    }
}

impl PieceType {
    /// Position of this kind in the order pawn, bishop, knight, rook, queen, king.
    pub open spec fn spec_idx(self) -> int {
        match self {
            PieceType::Pawn => 0,
            PieceType::Bishop => 1,
            PieceType::Knight => 2,
            PieceType::Rook => 3,
            PieceType::Queen => 4,
            PieceType::King => 5,
        }
    }
}

/// The kind at position `k` of the order pawn, bishop, knight, rook, queen, king.
pub open spec fn type_of_idx(k: int) -> PieceType {
    if k == 0 {
        PieceType::Pawn
    } else if k == 1 {
        PieceType::Bishop
    } else if k == 2 {
        PieceType::Knight
    } else if k == 3 {
        PieceType::Rook
    } else if k == 4 {
        PieceType::Queen
    } else {
        PieceType::King
    }
}

/// A chess position.
///
/// `castling` holds the rights in its low four bits (Q, K, q, k from high to
/// low); `en_passant` is the square a pawn may capture onto, or 65 when there
/// is none.
#[derive(Clone, Copy, PartialEq, Eq, Debug)]
pub struct Board {
    pub pawns: [u64; 2],
    pub bishops: [u64; 2],
    pub knights: [u64; 2],
    pub rooks: [u64; 2],
    pub queens: [u64; 2],
    pub kings: [u64; 2],
    pub turn: PieceColor,
    pub castling: u8,
    pub en_passant: u8,
    pub check_real: u64,
    pub check_full: u64,
    pub half_moves: u16,
    pub full_move: u64,
    pub occupied: u64,
    pub pieces: [u64; 2],
    pub zobrist_hash: u64,
}

/// A move together with the position it leads to.
///
/// For a castling move `from` and `to` both hold the castling code (80 for the
/// king side, 88 for the queen side).
#[derive(Clone, Copy, PartialEq, Eq, Debug)]
pub struct Move {
    pub from: usize,
    pub to: usize,
    pub board: Board,
    pub promote_to: Option<PieceType>,
    pub capture: bool,
}

/// No en-passant square is available.
pub const NO_EN_PASSANT: u8 = 65;

/// The bitboard of pieces of colour `c` and kind `t`.
pub open spec fn bb(b: Board, c: PieceColor, t: PieceType) -> u64 {
    let i = c.spec_idx();
    match t {
        PieceType::Pawn => b.pawns[i],
        PieceType::Bishop => b.bishops[i],
        PieceType::Knight => b.knights[i],
        PieceType::Rook => b.rooks[i],
        PieceType::Queen => b.queens[i],
        PieceType::King => b.kings[i],
    }
}

/// The union of the six bitboards of colour `c`.
pub open spec fn union_of(b: Board, c: PieceColor) -> u64 {
    bb(b, c, PieceType::Pawn) | bb(b, c, PieceType::Bishop) | bb(b, c, PieceType::Knight) | bb(
        b,
        c,
        PieceType::Rook,
    ) | bb(b, c, PieceType::Queen) | bb(b, c, PieceType::King)
}

/// The fields that are neither bitboards nor the hash agree.
pub open spec fn same_state(a: Board, b: Board) -> bool {
    &&& a.turn == b.turn
    &&& a.castling == b.castling
    &&& a.en_passant == b.en_passant
    &&& a.check_real == b.check_real
    &&& a.check_full == b.check_full
    &&& a.half_moves == b.half_moves
    &&& a.full_move == b.full_move
}

/// The colour summaries (`pieces` and `occupied`) agree.
pub open spec fn same_summary(a: Board, b: Board) -> bool {
    &&& a.occupied == b.occupied
    &&& a.pieces[0] == b.pieces[0]
    &&& a.pieces[1] == b.pieces[1]
}

/// Every piece bitboard agrees.
pub open spec fn same_pieces(a: Board, b: Board) -> bool {
    forall|c: PieceColor, t: PieceType| #[trigger] bb(a, c, t) == bb(b, c, t)
}

/// Positions that agree on every bitboard, on the other fields and on the
/// hash are the same position.
pub proof fn lemma_board_ext(a: Board, b: Board)
    requires
        same_pieces(a, b),
        same_state(a, b),
        same_summary(a, b),
        a.zobrist_hash == b.zobrist_hash,
    ensures
        a == b,
{
    assert(bb(a, PieceColor::White, PieceType::Pawn) == bb(b, PieceColor::White, PieceType::Pawn));
    assert(bb(a, PieceColor::Black, PieceType::Pawn) == bb(b, PieceColor::Black, PieceType::Pawn));
    assert(bb(a, PieceColor::White, PieceType::Bishop) == bb(b, PieceColor::White, PieceType::Bishop));
    assert(bb(a, PieceColor::Black, PieceType::Bishop) == bb(b, PieceColor::Black, PieceType::Bishop));
    assert(bb(a, PieceColor::White, PieceType::Knight) == bb(b, PieceColor::White, PieceType::Knight));
    assert(bb(a, PieceColor::Black, PieceType::Knight) == bb(b, PieceColor::Black, PieceType::Knight));
    assert(bb(a, PieceColor::White, PieceType::Rook) == bb(b, PieceColor::White, PieceType::Rook));
    assert(bb(a, PieceColor::Black, PieceType::Rook) == bb(b, PieceColor::Black, PieceType::Rook));
    assert(bb(a, PieceColor::White, PieceType::Queen) == bb(b, PieceColor::White, PieceType::Queen));
    assert(bb(a, PieceColor::Black, PieceType::Queen) == bb(b, PieceColor::Black, PieceType::Queen));
    assert(bb(a, PieceColor::White, PieceType::King) == bb(b, PieceColor::White, PieceType::King));
    assert(bb(a, PieceColor::Black, PieceType::King) == bb(b, PieceColor::Black, PieceType::King));
    assert(a.pawns =~= b.pawns);
    assert(a.bishops =~= b.bishops);
    assert(a.knights =~= b.knights);
    assert(a.rooks =~= b.rooks);
    assert(a.queens =~= b.queens);
    assert(a.kings =~= b.kings);
    assert(a.pieces =~= b.pieces);
}

/// `b` is `a` with the bitboard of colour `c` and kind `t` replaced by `v`,
/// and every other bitboard unchanged.
pub open spec fn only_board_changed(a: Board, b: Board, c: PieceColor, t: PieceType, v: u64) -> bool {
    &&& bb(b, c, t) == v
    &&& forall|c2: PieceColor, t2: PieceType|
        (c2 != c || t2 != t) ==> #[trigger] bb(b, c2, t2) == bb(a, c2, t2)
}

/// `b` is `a` with square `pos` taken out of the bitboard of colour `pc` and
/// kind `pt`, and that piece's key toggled in the hash; nothing else changes.
pub open spec fn piece_removed(a: Board, b: Board, pos: u64, pc: PieceColor, pt: PieceType, keys: ZobristKeys) -> bool {
    &&& only_board_changed(a, b, pc, pt, bb(a, pc, pt) & !sq(pos))
    &&& same_state(a, b)
    &&& same_summary(a, b)
    &&& b.zobrist_hash == a.zobrist_hash ^ keys.table(pc, pt)[pos as int]
}

/// `b` is `a` with square `pos` put into the bitboard of colour `pc` and kind
/// `pt`, and that piece's key toggled in the hash; nothing else changes.
pub open spec fn piece_added(a: Board, b: Board, pos: u64, pc: PieceColor, pt: PieceType, keys: ZobristKeys) -> bool {
    &&& only_board_changed(a, b, pc, pt, bb(a, pc, pt) | sq(pos))
    &&& same_state(a, b)
    &&& same_summary(a, b)
    &&& b.zobrist_hash == a.zobrist_hash ^ keys.table(pc, pt)[pos as int]
}

/// What `lookup` reports for a square: the colour is read from the colour
/// summaries, the kind is the first of pawn, bishop, knight, rook, queen whose
/// bitboard of that colour holds the square, and king otherwise.
pub open spec fn lookup_spec(b: Board, pos: u64) -> Option<(PieceColor, PieceType)> {
    let c = if has_bit(b.pieces[0], pos) {
        PieceColor::White
    } else {
        PieceColor::Black
    };
    if !has_bit(b.pieces[0], pos) && !has_bit(b.pieces[1], pos) {
        None
    } else if has_bit(bb(b, c, PieceType::Pawn), pos) {
        Some((c, PieceType::Pawn))
    } else if has_bit(bb(b, c, PieceType::Bishop), pos) {
        Some((c, PieceType::Bishop))
    } else if has_bit(bb(b, c, PieceType::Knight), pos) {
        Some((c, PieceType::Knight))
    } else if has_bit(bb(b, c, PieceType::Rook), pos) {
        Some((c, PieceType::Rook))
    } else if has_bit(bb(b, c, PieceType::Queen), pos) {
        Some((c, PieceType::Queen))
    } else {
        Some((c, PieceType::King))
    }
}


/// The castling rights after a piece of kind `pt` is captured on square `to`:
/// capturing a rook on its corner square withdraws the matching right (and
/// the upper four bits).
pub open spec fn castling_after_capture(c: u8, to: int, pt: PieceType) -> u8 {
    if (c & 15u8) != 0 && pt == PieceType::Rook {
        if to == 0 {
            c & 7u8
        } else if to == 7 {
            c & 11u8
        } else if to == 56 {
            c & 13u8
        } else if to == 63 {
            c & 14u8
        } else {
            c
        }
    } else {
        c
    }
}

/// The en-passant square after a pawn moves from `from` to `to`: the square
/// passed over by a double step, or 65.
pub open spec fn ep_after_pawn_move(to: int, from: int) -> u8 {
    if to > 16 && to - 16 == from && from > 7 && from < 16 {
        (to - 8) as u8
    } else if to < 48 && to + 16 == from && from > 47 && from < 56 {
        (to + 8) as u8
    } else {
        65u8
    }
}

/// The square of the pawn taken by an en-passant capture when `turn` moves.
pub open spec fn ep_capture_square(turn: PieceColor, ep: u8) -> int {
    match turn {
        PieceColor::White => ep - 8,
        PieceColor::Black => ep + 8,
    }
}

/// An en-passant square a position can hold: a square, or 65 for none.
pub open spec fn ep_in_range(ep: u8) -> bool {
    ep < 64 || ep == 65
}

/// A pawn move onto the en-passant square can take the pawn behind it.
pub open spec fn ep_capture_in_range(turn: PieceColor, ep: u8) -> bool {
    match turn {
        PieceColor::White => 8 <= ep < 64,
        PieceColor::Black => ep + 8 < 64,
    }
}

proof fn lemma_corner_mask(to: u64)
    requires
        to < 64,
    ensures
        (((1u64 << to) & 0x8100000000000081u64) != 0) == (to == 0 || to == 7 || to == 56 || to == 63),
{
    assert(to < 64 ==> ((((1u64 << to) & 0x8100000000000081u64) != 0) == (to == 0 || to == 7
        || to == 56 || to == 63))) by (bit_vector);
}

/// The castling rights after the piece `pc`/`pt` leaves `from`: a king move
/// withdraws both rights of its side, a rook leaving a corner withdraws that
/// corner's right (each also clears the matching upper bits).
pub open spec fn castling_after_move(c: u8, pc: PieceColor, pt: PieceType, from: int) -> u8 {
    if c != 0 && (pt == PieceType::Rook || pt == PieceType::King) {
        if pt == PieceType::King {
            match pc {
                PieceColor::White => c & 0x33u8,
                PieceColor::Black => c & 0xccu8,
            }
        } else if from == 0 {
            c & 0x77u8
        } else if from == 7 {
            c & 0xbbu8
        } else if from == 56 {
            c & 0xddu8
        } else if from == 63 {
            c & 0xeeu8
        } else {
            c
        }
    } else {
        c
    }
}

/// The en-passant square after the piece of kind `pt` moves from `from` to `to`.
pub open spec fn ep_after_move(to: int, from: int, pt: PieceType) -> u8 {
    if pt == PieceType::Pawn {
        ep_after_pawn_move(to, from)
    } else {
        65u8
    }
}

/// The move of a piece of kind `pt` to `to` takes a pawn en passant.
pub open spec fn takes_en_passant(b: Board, to: int, pt: PieceType) -> bool {
    pt == PieceType::Pawn && to == b.en_passant
}

/// The bitboard `x` of colour `c` and kind `t` after the piece `pc`/`pt`
/// moves from `from` to `to`, where `cap` is what stood on `to`: the piece
/// on `to` is removed, then the mover leaves `from` and lands on `to`.
pub open spec fn relocated(
    x: u64,
    c: PieceColor,
    t: PieceType,
    to: u64,
    from: u64,
    pc: PieceColor,
    pt: PieceType,
    cap: Option<(PieceColor, PieceType)>,
) -> u64 {
    let x2 = if cap == Some((c, t)) {
        x & !sq(to)
    } else {
        x
    };
    if c == pc && t == pt {
        (x2 & !sq(from)) | sq(to)
    } else {
        x2
    }
}

/// The bitboard of colour `c` and kind `t` after the piece `pc`/`pt` moves
/// from `from` to `to` in `b`, where `cap` is what stood on `to`: the pawn
/// taken en passant is removed first, then the move proceeds as `relocated`.
pub open spec fn bb_after_move(
    b: Board,
    c: PieceColor,
    t: PieceType,
    to: u64,
    from: u64,
    pc: PieceColor,
    pt: PieceType,
    cap: Option<(PieceColor, PieceType)>,
) -> u64 {
    let x0 = bb(b, c, t);
    let x1 = if takes_en_passant(b, to as int, pt) && c == b.turn.opposite() && t == PieceType::Pawn {
        x0 & !sq(ep_capture_square(b.turn, b.en_passant) as u64)
    } else {
        x0
    };
    relocated(x1, c, t, to, from, pc, pt, cap)
}

/// The hash after the en-passant bookkeeping of a move, starting from `h`.
pub open spec fn hash_after_ep(keys: ZobristKeys, b: Board, to: int, from: int, pt: PieceType, h: u64) -> u64 {
    if pt == PieceType::Pawn {
        let cc = b.turn.opposite();
        let cs = ep_capture_square(b.turn, b.en_passant);
        let h1 = if to == b.en_passant {
            h ^ keys.table(cc, PieceType::Pawn)[cs]
        } else {
            h
        };
        (h1 ^ keys.ep_term(b.en_passant)) ^ keys.ep_term(ep_after_pawn_move(to, from))
    } else {
        h
    }
}

/// Removes the castling contribution of the rights `c` from (or adds it to) `h`.
pub open spec fn toggle_castle(keys: ZobristKeys, c: u8, h: u64) -> u64 {
    (h ^ keys.white_castling_rights[white_castle_index(c)]) ^ keys.black_castling_rights[black_castle_index(c)]
}

/// What `move_piece` returns when the piece on `from` moves to `to`.
pub open spec fn move_piece_post(b: Board, to: int, from: int, keys: ZobristKeys, m: Move) -> bool {
    let pc = lookup_spec(b, from as u64).unwrap().0;
    let pt = lookup_spec(b, from as u64).unwrap().1;
    let cap = lookup_spec(b, to as u64);
    let c1 = castling_after_move(b.castling, pc, pt, from);
    let cf = match cap {
        Some(x) => castling_after_capture(c1, to, x.1),
        None => c1,
    };
    let h1 = toggle_castle(keys, b.castling, b.zobrist_hash);
    let h2 = hash_after_ep(keys, b, to, from, pt, h1);
    let h3 = match cap {
        Some(x) => h2 ^ keys.table(x.0, x.1)[to],
        None => h2,
    };
    let h4 = (h3 ^ keys.table(pc, pt)[from]) ^ keys.table(pc, pt)[to];
    let r = m.board;
    &&& m.from == from
    &&& m.to == to
    &&& m.promote_to is None
    &&& m.capture == cap is Some
    &&& forall|c: PieceColor, t: PieceType|
        #[trigger] bb(r, c, t) == bb_after_move(b, c, t, to as u64, from as u64, pc, pt, cap)
    &&& r.pieces[0] == union_of(r, PieceColor::White)
    &&& r.pieces[1] == union_of(r, PieceColor::Black)
    &&& r.occupied == r.pieces[0] | r.pieces[1]
    &&& r.turn == b.turn.opposite()
    &&& r.half_moves == b.half_moves + 1
    &&& r.full_move == (if b.turn == PieceColor::Black {
        b.full_move + 1
    } else {
        b.full_move as int
    })
    &&& r.en_passant == ep_after_move(to, from, pt)
    &&& r.castling == cf
    &&& r.check_real == b.check_real
    &&& r.check_full == b.check_full
    &&& r.zobrist_hash == toggle_castle(keys, cf, h4 ^ keys.black_turn)
}

/// The king and rook squares of castling for the side `turn`: queen side for
/// the code 88, king side otherwise. Returns (king from, rook from, king to,
/// rook to).
pub open spec fn castle_squares(turn: PieceColor, code: u8) -> (u64, u64, u64, u64) {
    match turn {
        PieceColor::White => if code == 88 {
            (4, 0, 2, 3)
        } else {
            (4, 7, 6, 5)
        },
        PieceColor::Black => if code == 88 {
            (60, 56, 58, 59)
        } else {
            (60, 63, 62, 61)
        },
    }
}

/// The bitboard of colour `c` and kind `t` after the side `b.turn` castles.
pub open spec fn bb_after_castle(b: Board, c: PieceColor, t: PieceType, code: u8) -> u64 {
    let (kf, rf, kt, rt) = castle_squares(b.turn, code);
    if c == b.turn && t == PieceType::King {
        (bb(b, c, t) & !sq(kf)) | sq(kt)
    } else if c == b.turn && t == PieceType::Rook {
        (bb(b, c, t) & !sq(rf)) | sq(rt)
    } else {
        bb(b, c, t)
    }
}

/// What `castle` returns.
pub open spec fn castle_post(b: Board, code: u8, keys: ZobristKeys, m: Move) -> bool {
    let (kf, rf, kt, rt) = castle_squares(b.turn, code);
    let cf = match b.turn {
        PieceColor::White => b.castling & 3u8,
        PieceColor::Black => b.castling & 12u8,
    };
    let h1 = toggle_castle(keys, b.castling, b.zobrist_hash) ^ keys.ep_term(b.en_passant);
    let h2 = (((h1 ^ keys.table(b.turn, PieceType::King)[kf as int]) ^ keys.table(b.turn, PieceType::Rook)[rf as int])
        ^ keys.table(b.turn, PieceType::King)[kt as int]) ^ keys.table(b.turn, PieceType::Rook)[rt as int];
    let r = m.board;
    &&& m.from == code
    &&& m.to == code
    &&& m.promote_to is None
    &&& !m.capture
    &&& forall|c: PieceColor, t: PieceType| #[trigger] bb(r, c, t) == bb_after_castle(b, c, t, code)
    &&& r.pieces[0] == union_of(r, PieceColor::White)
    &&& r.pieces[1] == union_of(r, PieceColor::Black)
    &&& r.occupied == r.pieces[0] | r.pieces[1]
    &&& r.turn == b.turn.opposite()
    &&& r.half_moves == b.half_moves + 1
    &&& r.full_move == (if b.turn == PieceColor::Black {
        b.full_move + 1
    } else {
        b.full_move as int
    })
    &&& r.en_passant == NO_EN_PASSANT
    &&& r.castling == cf
    &&& r.check_real == b.check_real
    &&& r.check_full == b.check_full
    &&& r.zobrist_hash == toggle_castle(keys, cf, h2 ^ keys.black_turn)
}

/// The kind a pawn becomes in the `k`-th of the four promotion moves.
pub open spec fn promotion_kind(k: int) -> PieceType {
    if k == 0 {
        PieceType::Knight
    } else if k == 1 {
        PieceType::Bishop
    } else if k == 2 {
        PieceType::Rook
    } else {
        PieceType::Queen
    }
}

/// The bitboard of colour `c` and kind `t` after whatever stood on `to`
/// (`cap`) is taken and the pawn of colour `pc` leaves `from`.
pub open spec fn bb_promotion_base(
    b: Board,
    c: PieceColor,
    t: PieceType,
    to: u64,
    from: u64,
    pc: PieceColor,
    cap: Option<(PieceColor, PieceType)>,
) -> u64 {
    let x = bb(b, c, t);
    let x2 = if cap == Some((c, t)) {
        x & !sq(to)
    } else {
        x
    };
    if c == pc && t == PieceType::Pawn {
        x2 & !sq(from)
    } else {
        x2
    }
}

/// The bitboard of colour `c` and kind `t` after a pawn of colour `pc`
/// promotes to `pk` moving from `from` to `to`, where `cap` stood on `to`.
pub open spec fn bb_after_promotion(
    b: Board,
    c: PieceColor,
    t: PieceType,
    to: u64,
    from: u64,
    pc: PieceColor,
    cap: Option<(PieceColor, PieceType)>,
    pk: PieceType,
) -> u64 {
    let x3 = bb_promotion_base(b, c, t, to, from, pc, cap);
    if c == pc && t == pk {
        x3 | sq(to)
    } else {
        x3
    }
}

/// The position `promote` produces for the promotion to `pk`.
pub open spec fn promotion_board(b: Board, from: int, to: int, keys: ZobristKeys, pk: PieceType, r: Board) -> bool {
    let pc = lookup_spec(b, from as u64).unwrap().0;
    let cap = lookup_spec(b, to as u64);
    let cf = match cap {
        Some(x) => castling_after_capture(b.castling, to, x.1),
        None => b.castling,
    };
    let h1 = toggle_castle(keys, b.castling, b.zobrist_hash);
    let h2 = match cap {
        Some(x) => h1 ^ keys.table(x.0, x.1)[to],
        None => h1,
    };
    let h3 = toggle_castle(keys, cf, h2) ^ keys.black_turn;
    let h4 = ((h3 ^ keys.table(pc, PieceType::Pawn)[from]) ^ keys.ep_term(b.en_passant)) ^ keys.table(pc, pk)[to];
    &&& forall|c: PieceColor, t: PieceType|
        #[trigger] bb(r, c, t) == bb_after_promotion(b, c, t, to as u64, from as u64, pc, cap, pk)
    &&& r.pieces[0] == union_of(r, PieceColor::White)
    &&& r.pieces[1] == union_of(r, PieceColor::Black)
    &&& r.occupied == r.pieces[0] | r.pieces[1]
    &&& r.turn == b.turn.opposite()
    &&& r.half_moves == b.half_moves + 1
    &&& r.full_move == (if b.turn == PieceColor::Black {
        b.full_move + 1
    } else {
        b.full_move as int
    })
    &&& r.en_passant == NO_EN_PASSANT
    &&& r.castling == cf
    &&& r.check_real == b.check_real
    &&& r.check_full == b.check_full
    &&& r.zobrist_hash == h4
}

/// What `promote` returns: the four promotions, to knight, bishop, rook and
/// queen in that order.
pub open spec fn promote_post(b: Board, from: int, to: int, keys: ZobristKeys, out: Seq<Move>) -> bool {
    &&& out.len() == 4
    &&& forall|k: int|
        0 <= k < 4 ==> {
            &&& (#[trigger] out[k]).from == from
            &&& out[k].to == to
            &&& out[k].promote_to == Some(promotion_kind(k))
            &&& out[k].capture == lookup_spec(b, to as u64) is Some
            &&& promotion_board(b, from, to, keys, promotion_kind(k), out[k].board)
        }
}

/// What `promote_pawn_to` returns for the promotion to `pk`.
pub open spec fn promote_pawn_to_post(b: Board, from: int, to: int, pk: PieceType, keys: ZobristKeys, m: Move) -> bool {
    let pc = lookup_spec(b, from as u64).unwrap().0;
    let cap = lookup_spec(b, to as u64);
    let cf = match cap {
        Some(x) => castling_after_capture(b.castling, to, x.1),
        None => b.castling,
    };
    let h1 = match cap {
        Some(x) => b.zobrist_hash ^ keys.table(x.0, x.1)[to],
        None => b.zobrist_hash,
    };
    let h2 = ((h1 ^ keys.black_turn) ^ keys.table(pc, PieceType::Pawn)[from]) ^ keys.table(pc, pk)[to];
    let r = m.board;
    &&& m.from == from
    &&& m.to == to
    &&& m.promote_to == Some(pk)
    &&& m.capture == cap is Some
    &&& forall|c: PieceColor, t: PieceType|
        #[trigger] bb(r, c, t) == bb_after_promotion(b, c, t, to as u64, from as u64, pc, cap, pk)
    &&& r.pieces[0] == union_of(r, PieceColor::White)
    &&& r.pieces[1] == union_of(r, PieceColor::Black)
    &&& r.occupied == r.pieces[0] | r.pieces[1]
    &&& r.turn == b.turn.opposite()
    &&& r.half_moves == b.half_moves + 1
    &&& r.full_move == (if b.turn == PieceColor::Black {
        b.full_move + 1
    } else {
        b.full_move as int
    })
    &&& r.en_passant == NO_EN_PASSANT
    &&& r.castling == cf
    &&& r.check_real == b.check_real
    &&& r.check_full == b.check_full
    &&& r.zobrist_hash == h2
}

impl Board {
    /// A well-formed position: no square holds two pieces, and the colour
    /// summaries are the unions of the piece bitboards.
    pub open spec fn wf(self) -> bool {
        &&& self.pieces[0] == union_of(self, PieceColor::White)
        &&& self.pieces[1] == union_of(self, PieceColor::Black)
        &&& self.occupied == self.pieces[0] | self.pieces[1]
        &&& forall|i: u64, c1: PieceColor, t1: PieceType, c2: PieceColor, t2: PieceType|
            i < 64 && #[trigger] has_bit(bb(self, c1, t1), i) && #[trigger] has_bit(
                bb(self, c2, t2),
                i,
            ) ==> c1 == c2 && t1 == t2
    }

    /// Reports the colour and kind of the piece on square `pos`, if any.
    pub fn lookup(&self, pos: usize) -> (r: Option<(PieceColor, PieceType)>)
        requires
            pos < 64,
        ensures
            r == lookup_spec(*self, pos as u64),
    {
        let board: u64 = 1u64 << pos;
        proof {
            lemma_mask_test(self.pieces[0], pos as u64);
            lemma_mask_test(self.pieces[1], pos as u64);
        }
        let color: PieceColor;
        if board & self.pieces[0] != 0 {
            color = PieceColor::White;
        } else if board & self.pieces[1] != 0 {
            color = PieceColor::Black;
        } else {
            return None;
        }
        let ci = color.idx();
        proof {
            let p = self.pawns[ci as int];
            let b = self.bishops[ci as int];
            let n = self.knights[ci as int];
            lemma_mask_test(p | b | n, pos as u64);
            lemma_or_bit(p | b, n, pos as u64);
            lemma_or_bit(p, b, pos as u64);
            lemma_mask_test(p, pos as u64);
            lemma_mask_test(b, pos as u64);
            lemma_mask_test(self.rooks[ci as int], pos as u64);
            lemma_mask_test(self.queens[ci as int], pos as u64);
        }
        if board & (self.pawns[ci] | self.bishops[ci] | self.knights[ci]) != 0 {
            if board & self.pawns[ci] != 0 {
                Some((color, PieceType::Pawn))
            } else if board & self.bishops[ci] != 0 {
                Some((color, PieceType::Bishop))
            } else {
                Some((color, PieceType::Knight))
            }
        } else {
            if board & self.rooks[ci] != 0 {
                Some((color, PieceType::Rook))
            } else if board & self.queens[ci] != 0 {
                Some((color, PieceType::Queen))
            } else {
                Some((color, PieceType::King))
            }
        }
    }


    /// Takes the piece of colour `pc` and kind `pt` off square `pos` and
    /// removes its key from the hash. The colour summaries are not updated.
    fn remove_piece(&mut self, pos: usize, pt: &PieceType, pc: PieceColor, zobrist_keys: &ZobristKeys)
        requires
            pos < 64,
        ensures
            piece_removed(*old(self), *final(self), pos as u64, pc, *pt, *zobrist_keys),
    {
        let i = pc.idx();
        match pt {
            PieceType::Pawn => {
                self.pawns[i] = self.pawns[i] & !(1u64 << pos);
                self.zobrist_hash = self.zobrist_hash ^ zobrist_keys.pawns[i][pos];
            },
            PieceType::Bishop => {
                self.bishops[i] = self.bishops[i] & !(1u64 << pos);
                self.zobrist_hash = self.zobrist_hash ^ zobrist_keys.bishops[i][pos];
            },
            PieceType::Knight => {
                self.knights[i] = self.knights[i] & !(1u64 << pos);
                self.zobrist_hash = self.zobrist_hash ^ zobrist_keys.knights[i][pos];
            },
            PieceType::Rook => {
                self.rooks[i] = self.rooks[i] & !(1u64 << pos);
                self.zobrist_hash = self.zobrist_hash ^ zobrist_keys.rooks[i][pos];
            },
            PieceType::Queen => {
                self.queens[i] = self.queens[i] & !(1u64 << pos);
                self.zobrist_hash = self.zobrist_hash ^ zobrist_keys.queens[i][pos];
            },
            PieceType::King => {
                self.kings[i] = self.kings[i] & !(1u64 << pos);
                self.zobrist_hash = self.zobrist_hash ^ zobrist_keys.kings[i][pos];
            },
        }
    }

    /// Puts a piece of colour `pc` and kind `pt` on square `pos` and adds its
    /// key to the hash. The colour summaries are not updated.
    fn add_piece(&mut self, pos: usize, pt: &PieceType, pc: PieceColor, zobrist_keys: &ZobristKeys)
        requires
            pos < 64,
        ensures
            piece_added(*old(self), *final(self), pos as u64, pc, *pt, *zobrist_keys),
    {
        let i = pc.idx();
        match pt {
            PieceType::Pawn => {
                self.pawns[i] = self.pawns[i] | (1u64 << pos);
                self.zobrist_hash = self.zobrist_hash ^ zobrist_keys.pawns[i][pos];
            },
            PieceType::Bishop => {
                self.bishops[i] = self.bishops[i] | (1u64 << pos);
                self.zobrist_hash = self.zobrist_hash ^ zobrist_keys.bishops[i][pos];
            },
            PieceType::Knight => {
                self.knights[i] = self.knights[i] | (1u64 << pos);
                self.zobrist_hash = self.zobrist_hash ^ zobrist_keys.knights[i][pos];
            },
            PieceType::Rook => {
                self.rooks[i] = self.rooks[i] | (1u64 << pos);
                self.zobrist_hash = self.zobrist_hash ^ zobrist_keys.rooks[i][pos];
            },
            PieceType::Queen => {
                self.queens[i] = self.queens[i] | (1u64 << pos);
                self.zobrist_hash = self.zobrist_hash ^ zobrist_keys.queens[i][pos];
            },
            PieceType::King => {
                self.kings[i] = self.kings[i] | (1u64 << pos);
                self.zobrist_hash = self.zobrist_hash ^ zobrist_keys.kings[i][pos];
            },
        }
    }

    /// Hands the move to the other side: the full-move number grows after a
    /// black move, the half-move counter after every move, and the hash
    /// toggles the side-to-move key.
    fn next_turn(&mut self, zobrist_keys: &ZobristKeys)
        requires
            old(self).half_moves < u16::MAX,
            old(self).turn == PieceColor::Black ==> old(self).full_move < u64::MAX,
        ensures
            final(self).turn == old(self).turn.opposite(),
            final(self).full_move == (if old(self).turn == PieceColor::Black {
                old(self).full_move + 1
            } else {
                old(self).full_move as int
            }),
            final(self).half_moves == old(self).half_moves + 1,
            final(self).zobrist_hash == old(self).zobrist_hash ^ zobrist_keys.black_turn,
            same_pieces(*old(self), *final(self)),
            same_summary(*old(self), *final(self)),
            final(self).castling == old(self).castling,
            final(self).en_passant == old(self).en_passant,
            final(self).check_real == old(self).check_real,
            final(self).check_full == old(self).check_full,
    {
        if self.turn == PieceColor::Black {
            self.turn = PieceColor::White;
            self.full_move = self.full_move + 1;
        } else {
            self.turn = PieceColor::Black;
        }
        self.zobrist_hash = self.zobrist_hash ^ zobrist_keys.black_turn;
        self.half_moves = self.half_moves + 1;
    }


    /// Withdraws the castling right that a rook captured on its corner square
    /// still held.
    fn remove_castling(&mut self, to: usize, pt: PieceType)
        requires
            to < 64,
        ensures
            final(self).castling == castling_after_capture(old(self).castling, to as int, pt),
            final(self).turn == old(self).turn,
            final(self).en_passant == old(self).en_passant,
            final(self).check_real == old(self).check_real,
            final(self).check_full == old(self).check_full,
            final(self).half_moves == old(self).half_moves,
            final(self).full_move == old(self).full_move,
            final(self).zobrist_hash == old(self).zobrist_hash,
            same_pieces(*old(self), *final(self)),
            same_summary(*old(self), *final(self)),
    {
        proof {
            lemma_corner_mask(to as u64);
        }
        if (self.castling & 0b1111) != 0 && ((1u64 << to) & 0x8100000000000081u64) != 0 && pt
            == PieceType::Rook {
            if to == 0 {
                self.castling = self.castling & 0b0111;
            } else if to == 7 {
                self.castling = self.castling & 0b1011;
            } else if to == 56 {
                self.castling = self.castling & 0b1101;
            } else if to == 63 {
                self.castling = self.castling & 0b1110;
            }
        }
    }

    /// Updates the en-passant state for a move of a piece of kind `pt` from
    /// `from` to `to`: a pawn landing on the en-passant square takes the pawn
    /// behind it, a pawn double step opens a new en-passant square, and every
    /// other move closes it. The hash follows the pawn taken and the old and
    /// new en-passant squares (a move by another kind closes the square without
    /// touching the hash).
    fn en_passant_check(&mut self, to: usize, from: usize, pt: &PieceType, zobrist_keys: &ZobristKeys)
        requires
            to < 64,
            *pt == PieceType::Pawn ==> ep_in_range(old(self).en_passant),
            *pt == PieceType::Pawn && to == old(self).en_passant ==> ep_capture_in_range(
                old(self).turn,
                old(self).en_passant,
            ),
        ensures
            ({
                let o = *old(self);
                let f = *final(self);
                let cc = o.turn.opposite();
                let cs = ep_capture_square(o.turn, o.en_passant);
                if *pt == PieceType::Pawn {
                    &&& f.en_passant == ep_after_pawn_move(to as int, from as int)
                    &&& if to == o.en_passant {
                        &&& only_board_changed(o, f, cc, PieceType::Pawn, bb(o, cc, PieceType::Pawn) & !sq(cs as u64))
                        &&& f.zobrist_hash == ((o.zobrist_hash ^ zobrist_keys.table(cc, PieceType::Pawn)[cs])
                            ^ zobrist_keys.ep_term(o.en_passant)) ^ zobrist_keys.ep_term(f.en_passant)
                    } else {
                        &&& same_pieces(o, f)
                        &&& f.zobrist_hash == (o.zobrist_hash ^ zobrist_keys.ep_term(o.en_passant))
                            ^ zobrist_keys.ep_term(f.en_passant)
                    }
                } else {
                    &&& f.en_passant == NO_EN_PASSANT
                    &&& same_pieces(o, f)
                    &&& f.zobrist_hash == o.zobrist_hash
                }
            }),
            final(self).turn == old(self).turn,
            final(self).castling == old(self).castling,
            final(self).check_real == old(self).check_real,
            final(self).check_full == old(self).check_full,
            final(self).half_moves == old(self).half_moves,
            final(self).full_move == old(self).full_move,
            same_summary(*old(self), *final(self)),
    {
        let ghost o = *self;
        if *pt == PieceType::Pawn {
            if to == self.en_passant as usize {
                match self.turn {
                    PieceColor::White => {
                        self.pawns[1] = self.pawns[1] & !(1u64 << (self.en_passant - 8));
                        self.zobrist_hash = self.zobrist_hash ^ zobrist_keys.pawns[1][(self.en_passant - 8) as usize];
                    },
                    PieceColor::Black => {
                        self.pawns[0] = self.pawns[0] & !(1u64 << (self.en_passant + 8));
                        self.zobrist_hash = self.zobrist_hash ^ zobrist_keys.pawns[0][(self.en_passant + 8) as usize];
                    },
                }
            }
            let ghost h1 = self.zobrist_hash;
            if self.en_passant != 65 {
                self.zobrist_hash = self.zobrist_hash ^ zobrist_keys.en_passant[self.en_passant as usize];
            } else {
                proof { lemma_xor_unit(h1, 0); }
            }
            let ghost h2 = self.zobrist_hash;
            if to > 16 && (to - 16) == from && from > 7 && from < 16 {
                self.en_passant = (to as u8) - 8;
                self.zobrist_hash = self.zobrist_hash ^ zobrist_keys.en_passant[self.en_passant as usize];
            } else if to < 48 && (to + 16) == from && from > 47 && from < 56 {
                self.en_passant = (to as u8) + 8;
                self.zobrist_hash = self.zobrist_hash ^ zobrist_keys.en_passant[self.en_passant as usize];
            } else {
                self.en_passant = 65;
                proof { lemma_xor_unit(h2, 0); }
            }
        } else {
            self.en_passant = 65;
        }
    }


    /// Moves the piece on `from` to `to`, taking whatever stands on `to` (and
    /// a pawn en passant), and updating castling rights, the en-passant square,
    /// the counters, the side to move and the hash.
    #[verifier::rlimit(50)]
    #[verifier::spinoff_prover]
    pub fn move_piece(&self, to: usize, from: usize, zobrist_keys: &ZobristKeys) -> (m: Move)
        requires
            to < 64,
            from < 64,
            lookup_spec(*self, from as u64) is Some,
            lookup_spec(*self, from as u64).unwrap().1 == PieceType::Pawn ==> ep_in_range(self.en_passant),
            takes_en_passant(*self, to as int, lookup_spec(*self, from as u64).unwrap().1) ==> ep_capture_in_range(
                self.turn,
                self.en_passant,
            ),
            self.half_moves < u16::MAX,
            self.turn == PieceColor::Black ==> self.full_move < u64::MAX,
        ensures
            move_piece_post(*self, to as int, from as int, *zobrist_keys, m),
            self.wf() ==> m.board.wf(),
            self.wf() && self.zobrist_hash == zobrist_keys.key(*self) && move_keeps_hash(*self, to as int, from as int)
                ==> m.board.zobrist_hash == zobrist_keys.key(m.board),
    {
        let mut new_board = *self;
        let (pc, pt) = self.lookup(from).unwrap();
        proof {
            lemma_castle_index_bounds(new_board.castling);
        }
        new_board.zobrist_hash = new_board.zobrist_hash
            ^ zobrist_keys.white_castling_rights[((new_board.castling & 0b1100) >> 2) as usize];
        new_board.zobrist_hash = new_board.zobrist_hash
            ^ zobrist_keys.black_castling_rights[(new_board.castling & 0b0011) as usize];
        let ghost b1 = new_board;
        assert(same_pieces(*self, b1));
        new_board.en_passant_check(to, from, &pt, zobrist_keys);
        if new_board.castling != 0 && (pt == PieceType::Rook || pt == PieceType::King) {
            if pt == PieceType::King {
                let values: u8 = match pc {
                    PieceColor::White => 0b0011_0011,
                    PieceColor::Black => 0b1100_1100,
                };
                new_board.castling = new_board.castling & values;
            } else {
                if from == 0 {
                    new_board.castling = new_board.castling & 0b0111_0111;
                } else if from == 7 {
                    new_board.castling = new_board.castling & 0b1011_1011;
                } else if from == 56 {
                    new_board.castling = new_board.castling & 0b1101_1101;
                } else if from == 63 {
                    new_board.castling = new_board.castling & 0b1110_1110;
                }
            }
        }
        let ghost b3 = new_board;
        let cap = self.lookup(to);
        let capture = cap.is_some();
        new_board.relocate(to, from, pc, pt, cap, zobrist_keys);
        let ghost b6 = new_board;
        new_board.recalc_board();
        new_board.next_turn(zobrist_keys);
        proof {
            assert forall|c: PieceColor, t: PieceType| #[trigger] bb(new_board, c, t) == bb_after_move(*self, c, t, to as u64, from as u64, pc, pt, cap) by {
                assert(bb(b1, c, t) == bb(*self, c, t));
                assert(bb(new_board, c, t) == bb(b6, c, t));
                assert(bb(b6, c, t) == relocated(bb(b3, c, t), c, t, to as u64, from as u64, pc, pt, cap));
            }
            lemma_castle_index_bounds(new_board.castling);
        }
        new_board.zobrist_hash = new_board.zobrist_hash
            ^ zobrist_keys.white_castling_rights[((new_board.castling & 0b1100) >> 2) as usize];
        new_board.zobrist_hash = new_board.zobrist_hash
            ^ zobrist_keys.black_castling_rights[(new_board.castling & 0b0011) as usize];
        let m = Move { from, to, board: new_board, promote_to: None, capture };
        proof {
            if self.wf() {
                lemma_move_piece_hash(*self, to as int, from as int, *zobrist_keys, m);
            }
        }
        m
    }


    /// Takes whatever `cap` says stands on `to` (withdrawing a castling right
    /// of a rook taken on its corner), then moves the piece `pc`/`pt` from
    /// `from` to `to`. The colour summaries are not updated.
    fn relocate(
        &mut self,
        to: usize,
        from: usize,
        pc: PieceColor,
        pt: PieceType,
        cap: Option<(PieceColor, PieceType)>,
        zobrist_keys: &ZobristKeys,
    )
        requires
            to < 64,
            from < 64,
        ensures
            forall|c: PieceColor, t: PieceType|
                #[trigger] bb(*final(self), c, t) == relocated(bb(*old(self), c, t), c, t, to as u64, from as u64, pc, pt, cap),
            final(self).castling == (match cap {
                Some(x) => castling_after_capture(old(self).castling, to as int, x.1),
                None => old(self).castling,
            }),
            final(self).zobrist_hash == ((match cap {
                Some(x) => old(self).zobrist_hash ^ zobrist_keys.table(x.0, x.1)[to as int],
                None => old(self).zobrist_hash,
            }) ^ zobrist_keys.table(pc, pt)[from as int]) ^ zobrist_keys.table(pc, pt)[to as int],
            final(self).turn == old(self).turn,
            final(self).en_passant == old(self).en_passant,
            final(self).check_real == old(self).check_real,
            final(self).check_full == old(self).check_full,
            final(self).half_moves == old(self).half_moves,
            final(self).full_move == old(self).full_move,
            same_summary(*old(self), *final(self)),
    {
        let ghost b0 = *self;
        match cap {
            Some((old_pc, old_pt)) => {
                self.remove_castling(to, old_pt);
                self.remove_piece(to, &old_pt, old_pc, zobrist_keys);
            },
            None => {},
        }
        let ghost b1 = *self;
        self.remove_piece(from, &pt, pc, zobrist_keys);
        let ghost b2 = *self;
        self.add_piece(to, &pt, pc, zobrist_keys);
        proof {
            assert forall|c: PieceColor, t: PieceType|
                #[trigger] bb(*self, c, t) == relocated(bb(b0, c, t), c, t, to as u64, from as u64, pc, pt, cap) by {
                if cap is Some && cap.unwrap() == (c, t) {
                    assert(bb(b1, c, t) == bb(b0, c, t) & !sq(to as u64));
                } else {
                    assert(bb(b1, c, t) == bb(b0, c, t));
                }
                if c == pc && t == pt {
                    assert(bb(b2, c, t) == bb(b1, c, t) & !sq(from as u64));
                } else {
                    assert(bb(b2, c, t) == bb(b1, c, t));
                }
            }
        }
    }


    /// Castles for the side to move: on the queen side for the code 88, on
    /// the king side otherwise. The side loses both castling rights (and the
    /// other side's upper bits are cleared) and the en-passant square closes.
    pub fn castle(&self, code: u8, zobrist_keys: &ZobristKeys) -> (m: Move)
        requires
            ep_in_range(self.en_passant),
            self.half_moves < u16::MAX,
            self.turn == PieceColor::Black ==> self.full_move < u64::MAX,
        ensures
            castle_post(*self, code, *zobrist_keys, m),
            self.wf() && castle_keeps_hash(*self, code) ==> m.board.wf(),
            self.wf() && castle_keeps_hash(*self, code) && self.zobrist_hash == zobrist_keys.key(*self)
                ==> m.board.zobrist_hash == zobrist_keys.key(m.board),
    {
        let mut new_board = *self;
        let king_from_pos: usize;
        let rook_from_pos: usize;
        let king_to_pos: usize;
        let rook_to_pos: usize;
        proof {
            lemma_castle_index_bounds(new_board.castling);
        }
        new_board.zobrist_hash = new_board.zobrist_hash
            ^ zobrist_keys.white_castling_rights[((new_board.castling & 0b1100) >> 2) as usize];
        new_board.zobrist_hash = new_board.zobrist_hash
            ^ zobrist_keys.black_castling_rights[(new_board.castling & 0b0011) as usize];
        match new_board.turn {
            PieceColor::White => {
                king_from_pos = 4;
                if code == 88 {
                    rook_from_pos = 0;
                    rook_to_pos = 3;
                    king_to_pos = 2;
                } else {
                    rook_from_pos = 7;
                    rook_to_pos = 5;
                    king_to_pos = 6;
                }
                new_board.castling = new_board.castling & 0b0011;
            },
            PieceColor::Black => {
                king_from_pos = 60;
                if code == 88 {
                    rook_from_pos = 56;
                    rook_to_pos = 59;
                    king_to_pos = 58;
                } else {
                    rook_from_pos = 63;
                    rook_to_pos = 61;
                    king_to_pos = 62;
                }
                new_board.castling = new_board.castling & 0b1100;
            },
        }
        let ghost h0 = new_board.zobrist_hash;
        if new_board.en_passant != 65 {
            new_board.zobrist_hash = new_board.zobrist_hash ^ zobrist_keys.en_passant[self.en_passant as usize];
            new_board.en_passant = 65;
        } else {
            proof {
                lemma_xor_unit(h0, 0);
            }
        }
        let ghost b1 = new_board;
        let turn = new_board.turn;
        new_board.remove_piece(king_from_pos, &PieceType::King, turn, zobrist_keys);
        let ghost b2 = new_board;
        new_board.remove_piece(rook_from_pos, &PieceType::Rook, turn, zobrist_keys);
        let ghost b3 = new_board;
        new_board.add_piece(king_to_pos, &PieceType::King, turn, zobrist_keys);
        let ghost b4 = new_board;
        new_board.add_piece(rook_to_pos, &PieceType::Rook, turn, zobrist_keys);
        let ghost b5 = new_board;
        new_board.recalc_board();
        new_board.next_turn(zobrist_keys);
        proof {
            assert forall|c: PieceColor, t: PieceType| #[trigger] bb(new_board, c, t) == bb_after_castle(*self, c, t, code) by {
                assert(bb(b1, c, t) == bb(*self, c, t));
                assert(bb(new_board, c, t) == bb(b5, c, t));
                if c == turn && t == PieceType::King {
                    assert(bb(b2, c, t) == bb(b1, c, t) & !sq(king_from_pos as u64));
                    assert(bb(b3, c, t) == bb(b2, c, t));
                    assert(bb(b4, c, t) == bb(b3, c, t) | sq(king_to_pos as u64));
                } else if c == turn && t == PieceType::Rook {
                    assert(bb(b2, c, t) == bb(b1, c, t));
                    assert(bb(b3, c, t) == bb(b2, c, t) & !sq(rook_from_pos as u64));
                    assert(bb(b4, c, t) == bb(b3, c, t));
                } else {
                    assert(bb(b2, c, t) == bb(b1, c, t));
                    assert(bb(b3, c, t) == bb(b2, c, t));
                    assert(bb(b4, c, t) == bb(b3, c, t));
                }
            }
            lemma_castle_index_bounds(new_board.castling);
        }
        new_board.zobrist_hash = new_board.zobrist_hash
            ^ zobrist_keys.white_castling_rights[((new_board.castling & 0b1100) >> 2) as usize];
        new_board.zobrist_hash = new_board.zobrist_hash
            ^ zobrist_keys.black_castling_rights[(new_board.castling & 0b0011) as usize];
        let m = Move { from: code as usize, to: code as usize, board: new_board, promote_to: None, capture: false };
        proof {
            if self.wf() && castle_keeps_hash(*self, code) {
                lemma_castle_hash(*self, code, *zobrist_keys, m);
            }
        }
        m
    }


    /// The four promotions of the pawn on `from` moving to `to`, to knight,
    /// bishop, rook and queen in that order. Whatever stands on `to` is taken,
    /// the side to move changes and the en-passant square closes.
    pub fn promote(&self, from: usize, to: usize, zobrist_keys: &ZobristKeys) -> (out: Vec<Move>)
        requires
            from < 64,
            to < 64,
            lookup_spec(*self, from as u64) is Some,
            ep_in_range(self.en_passant),
            self.half_moves < u16::MAX,
            self.turn == PieceColor::Black ==> self.full_move < u64::MAX,
        ensures
            promote_post(*self, from as int, to as int, *zobrist_keys, out@),
            self.wf() && promote_keeps_hash(*self, from as int, to as int) ==> forall|k: int|
                0 <= k < 4 ==> (#[trigger] out@[k]).board.wf() && (self.zobrist_hash == zobrist_keys.key(*self)
                    ==> out@[k].board.zobrist_hash == zobrist_keys.key(out@[k].board)),
    {
        let mut new_board = *self;
        proof {
            lemma_castle_index_bounds(new_board.castling);
        }
        new_board.zobrist_hash = new_board.zobrist_hash
            ^ zobrist_keys.white_castling_rights[((new_board.castling & 0b1100) >> 2) as usize];
        new_board.zobrist_hash = new_board.zobrist_hash
            ^ zobrist_keys.black_castling_rights[(new_board.castling & 0b0011) as usize];
        let ghost b1 = new_board;
        assert(same_pieces(*self, b1));
        let (pc, _) = new_board.lookup(from).unwrap();
        let cap = self.lookup(to);
        let capture = match cap {
            Some((old_pc, old_pt)) => {
                new_board.remove_castling(to, old_pt);
                new_board.remove_piece(to, &old_pt, old_pc, zobrist_keys);
                true
            },
            None => false,
        };
        let ghost b2 = new_board;
        proof {
            lemma_castle_index_bounds(new_board.castling);
        }
        new_board.zobrist_hash = new_board.zobrist_hash
            ^ zobrist_keys.white_castling_rights[((new_board.castling & 0b1100) >> 2) as usize];
        new_board.zobrist_hash = new_board.zobrist_hash
            ^ zobrist_keys.black_castling_rights[(new_board.castling & 0b0011) as usize];
        let ghost b2h = new_board;
        new_board.next_turn(zobrist_keys);
        let ghost b3 = new_board;
        new_board.remove_piece(from, &PieceType::Pawn, pc, zobrist_keys);
        let ghost b3r = new_board;
        let ghost h5 = new_board.zobrist_hash;
        if new_board.en_passant != 65 {
            new_board.zobrist_hash = new_board.zobrist_hash ^ zobrist_keys.en_passant[self.en_passant as usize];
            new_board.en_passant = 65;
        } else {
            proof {
                lemma_xor_unit(h5, 0);
            }
        }
        let ghost b4 = new_board;
        proof {
            assert forall|c: PieceColor, t: PieceType| #[trigger] bb(b4, c, t) == bb_promotion_base(*self, c, t, to as u64, from as u64, pc, cap) by {
                assert(bb(b1, c, t) == bb(*self, c, t));
                assert(bb(b2h, c, t) == bb(b2, c, t));
                assert(bb(b3, c, t) == bb(b2h, c, t));
                assert(bb(b4, c, t) == bb(b3r, c, t));
                if cap is Some && cap.unwrap() == (c, t) {
                    assert(bb(b2, c, t) == bb(b1, c, t) & !sq(to as u64));
                } else {
                    assert(bb(b2, c, t) == bb(b1, c, t));
                }
                if c == pc && t == PieceType::Pawn {
                    assert(bb(b3r, c, t) == bb(b3, c, t) & !sq(from as u64));
                } else {
                    assert(bb(b3r, c, t) == bb(b3, c, t));
                }
            }
        }
        let mut out: Vec<Move> = Vec::new();
        let knight_board = Self::promoted(&new_board, to, pc, PieceType::Knight, zobrist_keys);
        out.push(Move { from, to, board: knight_board, promote_to: Some(PieceType::Knight), capture });
        let bishop_board = Self::promoted(&new_board, to, pc, PieceType::Bishop, zobrist_keys);
        out.push(Move { from, to, board: bishop_board, promote_to: Some(PieceType::Bishop), capture });
        let rook_board = Self::promoted(&new_board, to, pc, PieceType::Rook, zobrist_keys);
        out.push(Move { from, to, board: rook_board, promote_to: Some(PieceType::Rook), capture });
        let queen_board = Self::promoted(&new_board, to, pc, PieceType::Queen, zobrist_keys);
        out.push(Move { from, to, board: queen_board, promote_to: Some(PieceType::Queen), capture });
        proof {
            assert forall|k: int| 0 <= k < 4 implies promotion_board(*self, from as int, to as int, *zobrist_keys, promotion_kind(k), (#[trigger] out@[k]).board) by {
                let pk = promotion_kind(k);
                let r = out@[k].board;
                assert forall|c: PieceColor, t: PieceType| #[trigger] bb(r, c, t) == bb_after_promotion(*self, c, t, to as u64, from as u64, pc, cap, pk) by {
                    assert(bb(b4, c, t) == bb_promotion_base(*self, c, t, to as u64, from as u64, pc, cap));
                }
            }
            if self.wf() && promote_keeps_hash(*self, from as int, to as int) {
                assert forall|k: int| 0 <= k < 4 implies (#[trigger] out@[k]).board.wf() && (self.zobrist_hash
                    == zobrist_keys.key(*self) ==> out@[k].board.zobrist_hash == zobrist_keys.key(out@[k].board)) by {
                    lemma_promote_hash(*self, from as int, to as int, *zobrist_keys, promotion_kind(k), out@[k].board);
                }
            }
        }
        out
    }

    /// `base` with a piece of colour `pc` and kind `pk` added on `to`, its key
    /// added to the hash, and the colour summaries recomputed.
    fn promoted(base: &Board, to: usize, pc: PieceColor, pk: PieceType, zobrist_keys: &ZobristKeys) -> (r: Board)
        requires
            to < 64,
        ensures
            forall|c: PieceColor, t: PieceType| #[trigger] bb(r, c, t) == (if c == pc && t == pk {
                bb(*base, c, t) | sq(to as u64)
            } else {
                bb(*base, c, t)
            }),
            same_state(*base, r),
            r.zobrist_hash == base.zobrist_hash ^ zobrist_keys.table(pc, pk)[to as int],
            r.pieces[0] == union_of(r, PieceColor::White),
            r.pieces[1] == union_of(r, PieceColor::Black),
            r.occupied == r.pieces[0] | r.pieces[1],
    {
        let mut r = *base;
        r.add_piece(to, &pk, pc, zobrist_keys);
        r.recalc_board();
        r
    }


    /// Promotes the pawn on `from` moving to `to` to a piece of kind `pt`,
    /// taking whatever stands on `to`. Unlike `promote`, the hash is not
    /// adjusted for castling rights a capture withdraws nor for the
    /// en-passant square it closes.
    pub(crate) fn promote_pawn_to(&self, from: usize, to: usize, pt: PieceType, zobrist_keys: &ZobristKeys) -> (m: Move)
        requires
            from < 64,
            to < 64,
            lookup_spec(*self, from as u64) is Some,
            self.half_moves < u16::MAX,
            self.turn == PieceColor::Black ==> self.full_move < u64::MAX,
        ensures
            promote_pawn_to_post(*self, from as int, to as int, pt, *zobrist_keys, m),
            self.wf() && promote_keeps_hash(*self, from as int, to as int) ==> m.board.wf(),
            self.wf() && promote_pawn_to_keeps_hash(*self, from as int, to as int) && self.zobrist_hash
                == zobrist_keys.key(*self) ==> m.board.zobrist_hash == zobrist_keys.key(m.board),
    {
        let mut new_board = *self;
        let (pc, _) = new_board.lookup(from).unwrap();
        let cap = self.lookup(to);
        let capture = match cap {
            Some((old_pc, old_pt)) => {
                new_board.remove_castling(to, old_pt);
                new_board.remove_piece(to, &old_pt, old_pc, zobrist_keys);
                true
            },
            None => false,
        };
        let ghost b2 = new_board;
        new_board.next_turn(zobrist_keys);
        let ghost b3 = new_board;
        new_board.remove_piece(from, &PieceType::Pawn, pc, zobrist_keys);
        let ghost b4 = new_board;
        new_board.add_piece(to, &pt, pc, zobrist_keys);
        let ghost b5 = new_board;
        new_board.recalc_board();
        new_board.en_passant = 65;
        proof {
            assert forall|c: PieceColor, t: PieceType| #[trigger] bb(new_board, c, t) == bb_after_promotion(*self, c, t, to as u64, from as u64, pc, cap, pt) by {
                assert(bb(b3, c, t) == bb(b2, c, t));
                assert(bb(new_board, c, t) == bb(b5, c, t));
                if cap is Some && cap.unwrap() == (c, t) {
                    assert(bb(b2, c, t) == bb(*self, c, t) & !sq(to as u64));
                } else {
                    assert(bb(b2, c, t) == bb(*self, c, t));
                }
                if c == pc && t == PieceType::Pawn {
                    assert(bb(b4, c, t) == bb(b3, c, t) & !sq(from as u64));
                } else {
                    assert(bb(b4, c, t) == bb(b3, c, t));
                }
            }
        }
        let m = Move { from, to, board: new_board, promote_to: Some(pt), capture };
        proof {
            if self.wf() && promote_keeps_hash(*self, from as int, to as int) {
                lemma_promote_pawn_to_hash(*self, from as int, to as int, *zobrist_keys, pt, m);
            }
        }
        m
    }

    /// Recomputes the colour summaries from the piece bitboards.
    pub fn recalc_board(&mut self)
        ensures
            same_pieces(*old(self), *final(self)),
            same_state(*old(self), *final(self)),
            final(self).zobrist_hash == old(self).zobrist_hash,
            final(self).pieces[0] == union_of(*old(self), PieceColor::White),
            final(self).pieces[1] == union_of(*old(self), PieceColor::Black),
            final(self).occupied == final(self).pieces[0] | final(self).pieces[1],
    {
        let white_pieces = self.pawns[0] | self.bishops[0] | self.knights[0] | self.rooks[0]
            | self.queens[0] | self.kings[0];
        let black_pieces = self.pawns[1] | self.bishops[1] | self.knights[1] | self.rooks[1]
            | self.queens[1] | self.kings[1];
        self.occupied = white_pieces | black_pieces;
        self.pieces = [white_pieces, black_pieces];
    }
}

} // verus!
