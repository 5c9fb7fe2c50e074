//! What the board operations keep: well-formedness of a position, and the
//! agreement of the incrementally updated hash with the hash computed from
//! scratch.
use vstd::prelude::*;
use crate::bits::{has_bit, sq, lemma_or_bit, lemma_set_bit, lemma_clear_bit, lemma_xor_unit};
use crate::board::{
    Board, Move, PieceColor, PieceType, bb, union_of, lookup_spec, takes_en_passant,
    ep_capture_square, ep_in_range, ep_capture_in_range, bb_after_move, move_piece_post,
    NO_EN_PASSANT, castle_squares, bb_after_castle, castle_post, toggle_castle,
    promotion_board, bb_after_promotion, bb_promotion_base, promote_pawn_to_post,
    castling_after_capture, same_pieces, castling_after_move, same_state, same_summary, only_board_changed,
    lemma_board_ext, piece_added, piece_removed, lemma_opposite_involution,
};
use crate::tables::{white_castle_index, black_castle_index, ZobristKeys, board_fn, lemma_clear_toggles, lemma_set_toggles};

verus! {

/// A square belongs to the union of a colour's bitboards iff it belongs to
/// one of them.
pub proof fn lemma_union_bit(b: Board, c: PieceColor, i: u64)
    requires
        i < 64,
    ensures
        has_bit(union_of(b, c), i) == (has_bit(bb(b, c, PieceType::Pawn), i) || has_bit(
            bb(b, c, PieceType::Bishop),
            i,
        ) || has_bit(bb(b, c, PieceType::Knight), i) || has_bit(bb(b, c, PieceType::Rook), i)
            || has_bit(bb(b, c, PieceType::Queen), i) || has_bit(bb(b, c, PieceType::King), i)),
{
    let p = bb(b, c, PieceType::Pawn);
    let bi = bb(b, c, PieceType::Bishop);
    let n = bb(b, c, PieceType::Knight);
    let r = bb(b, c, PieceType::Rook);
    let q = bb(b, c, PieceType::Queen);
    let k = bb(b, c, PieceType::King);
    lemma_or_bit(p, bi, i);
    lemma_or_bit(p | bi, n, i);
    lemma_or_bit(p | bi | n, r, i);
    lemma_or_bit(p | bi | n | r, q, i);
    lemma_or_bit(p | bi | n | r | q, k, i);
}

/// On a well-formed position `lookup` reports exactly the piece that stands
/// on the square, and nothing on an empty square.
pub proof fn lemma_lookup_wf(b: Board, pos: u64)
    requires
        b.wf(),
        pos < 64,
    ensures
        forall|c: PieceColor, t: PieceType|
            #[trigger] has_bit(bb(b, c, t), pos) ==> lookup_spec(b, pos) == Some((c, t)),
        lookup_spec(b, pos) is Some ==> has_bit(
            bb(b, lookup_spec(b, pos).unwrap().0, lookup_spec(b, pos).unwrap().1),
            pos,
        ),
        lookup_spec(b, pos) is None ==> forall|c: PieceColor, t: PieceType|
            !#[trigger] has_bit(bb(b, c, t), pos),
{
    lemma_union_bit(b, PieceColor::White, pos);
    lemma_union_bit(b, PieceColor::Black, pos);
    assert forall|c: PieceColor, t: PieceType| #[trigger] has_bit(bb(b, c, t), pos) implies lookup_spec(
        b,
        pos,
    ) == Some((c, t)) by {
        let l = lookup_spec(b, pos);
        assert(l is Some);
        assert(has_bit(bb(b, l.unwrap().0, l.unwrap().1), pos));
    }
}

/// The conditions under which a piece move keeps the hash in step with the
/// position: the move goes somewhere else, a non-pawn move starts with no
/// en-passant square (such a move closes it without removing its key), and
/// an en-passant capture finds a pawn to take, on a square other than `from`.
pub open spec fn move_keeps_hash(b: Board, to: int, from: int) -> bool {
    let pt = lookup_spec(b, from as u64).unwrap().1;
    let cs = ep_capture_square(b.turn, b.en_passant);
    &&& to != from
    &&& (pt == PieceType::Pawn || b.en_passant == NO_EN_PASSANT)
    &&& takes_en_passant(b, to, pt) ==> (has_bit(
        bb(b, b.turn.opposite(), PieceType::Pawn),
        cs as u64,
    ) && cs != from)
}

/// After a move, a square is held by the mover on `to`, or by a piece that
/// held it before (and it is not `to`).
proof fn lemma_after_move_bit(
    b: Board,
    c: PieceColor,
    t: PieceType,
    i: u64,
    to: u64,
    from: u64,
    pc: PieceColor,
    pt: PieceType,
)
    requires
        b.wf(),
        i < 64,
        to < 64,
        from < 64,
        takes_en_passant(b, to as int, pt) ==> ep_capture_in_range(b.turn, b.en_passant),
    ensures
        has_bit(bb_after_move(b, c, t, to, from, pc, pt, lookup_spec(b, to)), i) ==> ((c == pc && t
            == pt && i == to) || (i != to && has_bit(bb(b, c, t), i))),
{
    let cap = lookup_spec(b, to);
    let x0 = bb(b, c, t);
    let epc = takes_en_passant(b, to as int, pt) && c == b.turn.opposite() && t == PieceType::Pawn;
    let cs = ep_capture_square(b.turn, b.en_passant) as u64;
    let x1 = if epc {
        x0 & !sq(cs)
    } else {
        x0
    };
    if epc {
        lemma_clear_bit(x0, cs, i);
    }
    let x2 = if cap == Some((c, t)) {
        x1 & !sq(to)
    } else {
        x1
    };
    if cap == Some((c, t)) {
        lemma_clear_bit(x1, to, i);
    }
    if c == pc && t == pt {
        lemma_clear_bit(x2, from, i);
        lemma_set_bit(x2 & !sq(from), to, i);
    }
    lemma_lookup_wf(b, to);
    if i == to && !(c == pc && t == pt) && has_bit(bb_after_move(b, c, t, to, from, pc, pt, cap), i) {
        assert(has_bit(x2, i));
        assert(cap != Some((c, t)));
        assert(has_bit(x1, i));
        assert(has_bit(x0, i));
        assert(false);
    }
}

/// Moving a piece keeps a position well formed and, under
/// `move_keeps_hash`, keeps its hash equal to the hash computed from scratch.
pub proof fn lemma_move_piece_hash(b: Board, to: int, from: int, keys: ZobristKeys, m: Move)
    requires
        0 <= to < 64,
        0 <= from < 64,
        lookup_spec(b, from as u64) is Some,
        lookup_spec(b, from as u64).unwrap().1 == PieceType::Pawn ==> ep_in_range(b.en_passant),
        takes_en_passant(b, to, lookup_spec(b, from as u64).unwrap().1) ==> ep_capture_in_range(
            b.turn,
            b.en_passant,
        ),
        move_piece_post(b, to, from, keys, m),
        b.wf(),
    ensures
        m.board.wf(),
        b.zobrist_hash == keys.key(b) && move_keeps_hash(b, to, from) ==> m.board.zobrist_hash
            == keys.key(m.board),
{
    let r = m.board;
    let pc = lookup_spec(b, from as u64).unwrap().0;
    let pt = lookup_spec(b, from as u64).unwrap().1;
    let cap = lookup_spec(b, to as u64);
    lemma_lookup_wf(b, from as u64);
    lemma_lookup_wf(b, to as u64);
    // well-formedness
    assert forall|i: u64, c1: PieceColor, t1: PieceType, c2: PieceColor, t2: PieceType|
        i < 64 && #[trigger] has_bit(bb(r, c1, t1), i) && #[trigger] has_bit(bb(r, c2, t2), i)
        implies c1 == c2 && t1 == t2 by {
        assert(bb(r, c1, t1) == bb_after_move(b, c1, t1, to as u64, from as u64, pc, pt, cap));
        assert(bb(r, c2, t2) == bb_after_move(b, c2, t2, to as u64, from as u64, pc, pt, cap));
        lemma_after_move_bit(b, c1, t1, i, to as u64, from as u64, pc, pt);
        lemma_after_move_bit(b, c2, t2, i, to as u64, from as u64, pc, pt);
    }
    assert(r.wf());
    if b.zobrist_hash == keys.key(b) && move_keeps_hash(b, to, from) {
        lemma_move_piece_hash_value(b, to, from, keys, m);
    }
}

/// The hash part of `lemma_move_piece_hash`.
proof fn lemma_move_piece_hash_value(b: Board, to: int, from: int, keys: ZobristKeys, m: Move)
    requires
        0 <= to < 64,
        0 <= from < 64,
        lookup_spec(b, from as u64) is Some,
        lookup_spec(b, from as u64).unwrap().1 == PieceType::Pawn ==> ep_in_range(b.en_passant),
        takes_en_passant(b, to, lookup_spec(b, from as u64).unwrap().1) ==> ep_capture_in_range(
            b.turn,
            b.en_passant,
        ),
        move_piece_post(b, to, from, keys, m),
        b.wf(),
        b.zobrist_hash == keys.key(b),
        move_keeps_hash(b, to, from),
    ensures
        m.board.zobrist_hash == keys.key(m.board),
{
    let r = m.board;
    let pc = lookup_spec(b, from as u64).unwrap().0;
    let pt = lookup_spec(b, from as u64).unwrap().1;
    let cap = lookup_spec(b, to as u64);
    let to64 = to as u64;
    let from64 = from as u64;
    lemma_lookup_wf(b, from64);
    lemma_lookup_wf(b, to64);
    let epc = takes_en_passant(b, to, pt);
    let cc = b.turn.opposite();
    let cs = ep_capture_square(b.turn, b.en_passant) as u64;
    let f0 = board_fn(b);
    let f1 = |c: PieceColor, t: PieceType|
        if epc && c == cc && t == PieceType::Pawn {
            f0(c, t) & !sq(cs)
        } else {
            f0(c, t)
        };
    let f2 = |c: PieceColor, t: PieceType|
        if cap == Some((c, t)) {
            f1(c, t) & !sq(to64)
        } else {
            f1(c, t)
        };
    let f3 = |c: PieceColor, t: PieceType|
        if c == pc && t == pt {
            f2(c, t) & !sq(from64)
        } else {
            f2(c, t)
        };
    let f4 = |c: PieceColor, t: PieceType|
        if c == pc && t == pt {
            f3(c, t) | sq(to64)
        } else {
            f3(c, t)
        };
    let p0 = keys.pieces_key(f0);
    let p1 = keys.pieces_key(f1);
    let p2 = keys.pieces_key(f2);
    let p3 = keys.pieces_key(f3);
    let p4 = keys.pieces_key(f4);
    // step 1: the pawn taken en passant
    let ke: u64 = if epc {
        keys.table(cc, PieceType::Pawn)[cs as int]
    } else {
        0
    };
    if epc {
        assert(cs < 64);
        lemma_clear_toggles(f0(cc, PieceType::Pawn), cs);
        keys.lemma_pieces_toggle(f0, f1, cc, PieceType::Pawn, cs);
    } else {
        keys.lemma_pieces_ext(f0, f1);
        lemma_xor_unit(p0, 0);
    }
    assert(p1 == p0 ^ ke);
    // step 2: the piece on `to`
    let kc: u64 = if cap is Some {
        keys.table(cap.unwrap().0, cap.unwrap().1)[to]
    } else {
        0
    };
    if cap is Some {
        let oc = cap.unwrap().0;
        let ot = cap.unwrap().1;
        assert(has_bit(f0(oc, ot), to64));
        if epc && oc == cc && ot == PieceType::Pawn {
            lemma_clear_bit(f0(oc, ot), cs, to64);
        }
        assert(has_bit(f1(oc, ot), to64));
        lemma_clear_toggles(f1(oc, ot), to64);
        keys.lemma_pieces_toggle(f1, f2, oc, ot, to64);
    } else {
        keys.lemma_pieces_ext(f1, f2);
        lemma_xor_unit(p1, 0);
    }
    assert(p2 == p1 ^ kc);
    // step 3: the mover leaves `from`
    let kf = keys.table(pc, pt)[from];
    assert(has_bit(f0(pc, pt), from64));
    if epc && pc == cc && pt == PieceType::Pawn {
        lemma_clear_bit(f0(pc, pt), cs, from64);
    }
    assert(has_bit(f1(pc, pt), from64));
    if cap == Some((pc, pt)) {
        lemma_clear_bit(f1(pc, pt), to64, from64);
    }
    assert(has_bit(f2(pc, pt), from64));
    lemma_clear_toggles(f2(pc, pt), from64);
    keys.lemma_pieces_toggle(f2, f3, pc, pt, from64);
    // step 4: the mover lands on `to`
    let kt = keys.table(pc, pt)[to];
    if cap == Some((pc, pt)) {
        lemma_clear_bit(f1(pc, pt), to64, to64);
    } else {
        assert(!has_bit(f0(pc, pt), to64));
        if epc && pc == cc && pt == PieceType::Pawn {
            lemma_clear_bit(f0(pc, pt), cs, to64);
        }
    }
    assert(!has_bit(f2(pc, pt), to64));
    lemma_clear_bit(f2(pc, pt), from64, to64);
    assert(!has_bit(f3(pc, pt), to64));
    lemma_set_toggles(f3(pc, pt), to64);
    keys.lemma_pieces_toggle(f3, f4, pc, pt, to64);
    // the final bitboards
    assert forall|c: PieceColor, t: PieceType| #[trigger] f4(c, t) == board_fn(r)(c, t) by {
        assert(bb(r, c, t) == bb_after_move(b, c, t, to64, from64, pc, pt, cap));
    }
    keys.lemma_pieces_ext(f4, board_fn(r));
    // the hash
    keys.lemma_key_split(b);
    keys.lemma_key_split(r);
    let e0 = keys.ep_term(b.en_passant);
    let e1 = keys.ep_term(r.en_passant);
    let t0 = keys.turn_term(b.turn);
    let t1 = keys.turn_term(r.turn);
    let bt = keys.black_turn;
    lemma_xor_unit(bt, 0);
    lemma_xor_unit(0, bt);
    assert(t1 == t0 ^ bt);
    let w0 = keys.white_castling_rights[crate::tables::white_castle_index(b.castling)];
    let b0 = keys.black_castling_rights[crate::tables::black_castle_index(b.castling)];
    let h0 = b.zobrist_hash;
    let h1 = (h0 ^ w0) ^ b0;
    let kw0 = keys.key_without_castling(b);
    assert(h0 == kw0 ^ (w0 ^ b0));
    assert(h0 == kw0 ^ (w0 ^ b0) ==> (h0 ^ w0) ^ b0 == kw0) by (bit_vector);
    assert(h1 == (p0 ^ e0) ^ t0);
    let h2 = crate::board::hash_after_ep(keys, b, to, from, pt, h1);
    if pt == PieceType::Pawn {
        if to != b.en_passant {
            lemma_xor_unit(h1, 0);
        }
    } else {
        lemma_xor_unit(h1, 0);
        lemma_xor_unit(h1 ^ 0, 0);
        lemma_xor_unit((h1 ^ 0) ^ 0, 0);
    }
    assert(h2 == ((h1 ^ ke) ^ e0) ^ e1);
    let h3 = if cap is Some {
        h2 ^ keys.table(cap.unwrap().0, cap.unwrap().1)[to]
    } else {
        h2
    };
    if cap is None {
        lemma_xor_unit(h2, 0);
    }
    assert(h3 == h2 ^ kc);
    let h4 = (h3 ^ kf) ^ kt;
    let wf_ = keys.white_castling_rights[crate::tables::white_castle_index(r.castling)];
    let bf_ = keys.black_castling_rights[crate::tables::black_castle_index(r.castling)];
    let rh = r.zobrist_hash;
    assert(rh == ((h4 ^ bt) ^ wf_) ^ bf_);
    assert(p4 == (((p0 ^ ke) ^ kc) ^ kf) ^ kt);
    assert(keys.key(r) == ((p4 ^ e1) ^ t1) ^ (wf_ ^ bf_));
    assert(rh == ((p4 ^ e1) ^ t1) ^ (wf_ ^ bf_)) by (bit_vector)
        requires
            h1 == (p0 ^ e0) ^ t0,
            h2 == ((h1 ^ ke) ^ e0) ^ e1,
            h3 == h2 ^ kc,
            h4 == (h3 ^ kf) ^ kt,
            p4 == (((p0 ^ ke) ^ kc) ^ kf) ^ kt,
            t1 == t0 ^ bt,
            rh == ((h4 ^ bt) ^ wf_) ^ bf_,
    ;
}

/// The conditions under which castling keeps the hash in step with the
/// position: the side's king and rook stand on their home squares and the
/// squares they move to are empty.
pub open spec fn castle_keeps_hash(b: Board, code: u8) -> bool {
    let (kf, rf, kt, rt) = castle_squares(b.turn, code);
    &&& lookup_spec(b, kf) == Some((b.turn, PieceType::King))
    &&& lookup_spec(b, rf) == Some((b.turn, PieceType::Rook))
    &&& lookup_spec(b, kt) is None
    &&& lookup_spec(b, rt) is None
}

/// Castling keeps a position well formed and its hash equal to the hash
/// computed from scratch, when the king and rook stand at home and their
/// target squares are empty.
pub proof fn lemma_castle_hash(b: Board, code: u8, keys: ZobristKeys, m: Move)
    requires
        castle_post(b, code, keys, m),
        b.wf(),
        ep_in_range(b.en_passant),
        castle_keeps_hash(b, code),
    ensures
        m.board.wf(),
        b.zobrist_hash == keys.key(b) ==> m.board.zobrist_hash == keys.key(m.board),
{
    let r = m.board;
    let (kf, rf, kt, rt) = castle_squares(b.turn, code);
    let turn = b.turn;
    lemma_lookup_wf(b, kf);
    lemma_lookup_wf(b, rf);
    lemma_lookup_wf(b, kt);
    lemma_lookup_wf(b, rt);
    assert forall|c: PieceColor, t: PieceType, i: u64| i < 64 implies #[trigger] has_bit(bb(r, c, t), i) == (if c == turn && t == PieceType::King {
        i == kt || (i != kf && has_bit(bb(b, c, t), i))
    } else if c == turn && t == PieceType::Rook {
        i == rt || (i != rf && has_bit(bb(b, c, t), i))
    } else {
        has_bit(bb(b, c, t), i)
    }) by {
        assert(bb(r, c, t) == bb_after_castle(b, c, t, code));
        if c == turn && t == PieceType::King {
            lemma_clear_bit(bb(b, c, t), kf, i);
            lemma_set_bit(bb(b, c, t) & !sq(kf), kt, i);
        } else if c == turn && t == PieceType::Rook {
            lemma_clear_bit(bb(b, c, t), rf, i);
            lemma_set_bit(bb(b, c, t) & !sq(rf), rt, i);
        }
    }
    assert forall|i: u64, c1: PieceColor, t1: PieceType, c2: PieceColor, t2: PieceType|
        i < 64 && #[trigger] has_bit(bb(r, c1, t1), i) && #[trigger] has_bit(bb(r, c2, t2), i)
        implies c1 == c2 && t1 == t2 by {
        if i != kt && i != rt {
            assert(has_bit(bb(b, c1, t1), i));
            assert(has_bit(bb(b, c2, t2), i));
        }
    }
    assert(r.wf());
    if b.zobrist_hash == keys.key(b) {
        let f0 = board_fn(b);
        let f1 = |c: PieceColor, t: PieceType|
            if c == turn && t == PieceType::King {
                f0(c, t) & !sq(kf)
            } else {
                f0(c, t)
            };
        let f2 = |c: PieceColor, t: PieceType|
            if c == turn && t == PieceType::Rook {
                f1(c, t) & !sq(rf)
            } else {
                f1(c, t)
            };
        let f3 = |c: PieceColor, t: PieceType|
            if c == turn && t == PieceType::King {
                f2(c, t) | sq(kt)
            } else {
                f2(c, t)
            };
        let f4 = |c: PieceColor, t: PieceType|
            if c == turn && t == PieceType::Rook {
                f3(c, t) | sq(rt)
            } else {
                f3(c, t)
            };
        let x = bb(b, turn, PieceType::King);
        let y = bb(b, turn, PieceType::Rook);
        lemma_clear_toggles(x, kf);
        keys.lemma_pieces_toggle(f0, f1, turn, PieceType::King, kf);
        lemma_clear_toggles(y, rf);
        keys.lemma_pieces_toggle(f1, f2, turn, PieceType::Rook, rf);
        lemma_clear_bit(x, kf, kt);
        lemma_set_toggles(x & !sq(kf), kt);
        keys.lemma_pieces_toggle(f2, f3, turn, PieceType::King, kt);
        lemma_clear_bit(y, rf, rt);
        lemma_set_toggles(y & !sq(rf), rt);
        keys.lemma_pieces_toggle(f3, f4, turn, PieceType::Rook, rt);
        assert forall|c: PieceColor, t: PieceType| #[trigger] f4(c, t) == board_fn(r)(c, t) by {
            assert(bb(r, c, t) == bb_after_castle(b, c, t, code));
        }
        keys.lemma_pieces_ext(f4, board_fn(r));
        keys.lemma_key_split(b);
        keys.lemma_key_split(r);
        let p0 = keys.pieces_key(f0);
        let p4 = keys.pieces_key(f4);
        let ka = keys.table(turn, PieceType::King)[kf as int];
        let kb = keys.table(turn, PieceType::Rook)[rf as int];
        let kc = keys.table(turn, PieceType::King)[kt as int];
        let kd = keys.table(turn, PieceType::Rook)[rt as int];
        assert(p4 == (((p0 ^ ka) ^ kb) ^ kc) ^ kd);
        let e0 = keys.ep_term(b.en_passant);
        let e1 = keys.ep_term(r.en_passant);
        assert(e1 == 0);
        let t0 = keys.turn_term(b.turn);
        let t1 = keys.turn_term(r.turn);
        let bt = keys.black_turn;
        lemma_xor_unit(bt, 0);
        lemma_xor_unit(0, bt);
        assert(t1 == t0 ^ bt);
        let w0 = keys.white_castling_rights[crate::tables::white_castle_index(b.castling)];
        let b0 = keys.black_castling_rights[crate::tables::black_castle_index(b.castling)];
        let h0 = b.zobrist_hash;
        let kw0 = keys.key_without_castling(b);
        assert(h0 == kw0 ^ (w0 ^ b0));
        assert(kw0 == (p0 ^ e0) ^ t0);
        let h1 = toggle_castle(keys, b.castling, h0) ^ e0;
        assert(h1 == ((h0 ^ w0) ^ b0) ^ e0);
        let h2 = (((h1 ^ ka) ^ kb) ^ kc) ^ kd;
        let wf_ = keys.white_castling_rights[crate::tables::white_castle_index(r.castling)];
        let bf_ = keys.black_castling_rights[crate::tables::black_castle_index(r.castling)];
        let rh = r.zobrist_hash;
        assert(rh == ((h2 ^ bt) ^ wf_) ^ bf_);
        assert(keys.key(r) == ((p4 ^ e1) ^ t1) ^ (wf_ ^ bf_));
        assert(rh == ((p4 ^ e1) ^ t1) ^ (wf_ ^ bf_)) by (bit_vector)
            requires
                h0 == ((p0 ^ e0) ^ t0) ^ (w0 ^ b0),
                h1 == ((h0 ^ w0) ^ b0) ^ e0,
                h2 == (((h1 ^ ka) ^ kb) ^ kc) ^ kd,
                p4 == (((p0 ^ ka) ^ kb) ^ kc) ^ kd,
                t1 == t0 ^ bt,
                e1 == 0u64,
                rh == ((h2 ^ bt) ^ wf_) ^ bf_,
        ;
    }
}

/// The conditions under which a promotion keeps the hash in step with the
/// position: a pawn stands on `from` (the promotion always removes a pawn's
/// key there) and `to` is another square.
pub open spec fn promote_keeps_hash(b: Board, from: int, to: int) -> bool {
    &&& lookup_spec(b, from as u64) is Some
    &&& lookup_spec(b, from as u64).unwrap().1 == PieceType::Pawn
    &&& to != from
}

/// The bitboards a promotion produces keep a position well formed, and
/// their hash contribution changes by the keys of the piece taken on `to`,
/// the pawn leaving `from` and the new piece on `to`.
pub proof fn lemma_promotion_pieces(
    b: Board,
    from: int,
    to: int,
    keys: ZobristKeys,
    pk: PieceType,
    r: Board,
)
    requires
        0 <= from < 64,
        0 <= to < 64,
        forall|c: PieceColor, t: PieceType|
            #[trigger] bb(r, c, t) == bb_after_promotion(
                b,
                c,
                t,
                to as u64,
                from as u64,
                lookup_spec(b, from as u64).unwrap().0,
                lookup_spec(b, to as u64),
                pk,
            ),
        r.pieces[0] == union_of(r, PieceColor::White),
        r.pieces[1] == union_of(r, PieceColor::Black),
        r.occupied == r.pieces[0] | r.pieces[1],
        b.wf(),
        promote_keeps_hash(b, from, to),
    ensures
        r.wf(),
        keys.pieces_key(board_fn(r)) == ((keys.pieces_key(board_fn(b)) ^ (if lookup_spec(
            b,
            to as u64,
        ) is Some {
            keys.table(lookup_spec(b, to as u64).unwrap().0, lookup_spec(b, to as u64).unwrap().1)[to]
        } else {
            0u64
        })) ^ keys.table(lookup_spec(b, from as u64).unwrap().0, PieceType::Pawn)[from]) ^ keys.table(
            lookup_spec(b, from as u64).unwrap().0,
            pk,
        )[to],
{
    let pc = lookup_spec(b, from as u64).unwrap().0;
    let cap = lookup_spec(b, to as u64);
    let to64 = to as u64;
    let from64 = from as u64;
    lemma_lookup_wf(b, from64);
    lemma_lookup_wf(b, to64);
    assert forall|c: PieceColor, t: PieceType, i: u64| i < 64 && #[trigger] has_bit(bb(r, c, t), i)
        implies (c == pc && t == pk && i == to64) || (i != to64 && has_bit(bb(b, c, t), i)) by {
        assert(bb(r, c, t) == bb_after_promotion(b, c, t, to64, from64, pc, cap, pk));
        let x = bb(b, c, t);
        let x2 = if cap == Some((c, t)) { x & !sq(to64) } else { x };
        if cap == Some((c, t)) {
            lemma_clear_bit(x, to64, i);
        }
        let x3 = bb_promotion_base(b, c, t, to64, from64, pc, cap);
        if c == pc && t == PieceType::Pawn {
            lemma_clear_bit(x2, from64, i);
        }
        if c == pc && t == pk {
            lemma_set_bit(x3, to64, i);
        }
        if i == to64 && !(c == pc && t == pk) {
            assert(has_bit(x, i));
            assert(false);
        }
    }
    assert forall|i: u64, c1: PieceColor, t1: PieceType, c2: PieceColor, t2: PieceType|
        i < 64 && #[trigger] has_bit(bb(r, c1, t1), i) && #[trigger] has_bit(bb(r, c2, t2), i)
        implies c1 == c2 && t1 == t2 by {
    }
    let f0 = board_fn(b);
    let f1 = |c: PieceColor, t: PieceType|
        if cap == Some((c, t)) {
            f0(c, t) & !sq(to64)
        } else {
            f0(c, t)
        };
    let f2 = |c: PieceColor, t: PieceType|
        if c == pc && t == PieceType::Pawn {
            f1(c, t) & !sq(from64)
        } else {
            f1(c, t)
        };
    let f3 = |c: PieceColor, t: PieceType|
        if c == pc && t == pk {
            f2(c, t) | sq(to64)
        } else {
            f2(c, t)
        };
    let p0 = keys.pieces_key(f0);
    if cap is Some {
        let oc = cap.unwrap().0;
        let ot = cap.unwrap().1;
        lemma_clear_toggles(f0(oc, ot), to64);
        keys.lemma_pieces_toggle(f0, f1, oc, ot, to64);
    } else {
        keys.lemma_pieces_ext(f0, f1);
        lemma_xor_unit(p0, 0);
    }
    if cap == Some((pc, PieceType::Pawn)) {
        lemma_clear_bit(f0(pc, PieceType::Pawn), to64, from64);
    }
    lemma_clear_toggles(f1(pc, PieceType::Pawn), from64);
    keys.lemma_pieces_toggle(f1, f2, pc, PieceType::Pawn, from64);
    if cap == Some((pc, pk)) {
        lemma_clear_bit(f0(pc, pk), to64, to64);
    }
    assert(!has_bit(f1(pc, pk), to64));
    if pk == PieceType::Pawn {
        lemma_clear_bit(f1(pc, pk), from64, to64);
    }
    assert(!has_bit(f2(pc, pk), to64));
    lemma_set_toggles(f2(pc, pk), to64);
    keys.lemma_pieces_toggle(f2, f3, pc, pk, to64);
    assert forall|c: PieceColor, t: PieceType| #[trigger] f3(c, t) == board_fn(r)(c, t) by {
        assert(bb(r, c, t) == bb_after_promotion(b, c, t, to64, from64, pc, cap, pk));
    }
    keys.lemma_pieces_ext(f3, board_fn(r));
}

/// A promotion keeps a position well formed and its hash equal to the hash
/// computed from scratch, when a pawn stands on `from` and `to` is another
/// square.
pub proof fn lemma_promote_hash(b: Board, from: int, to: int, keys: ZobristKeys, pk: PieceType, r: Board)
    requires
        0 <= from < 64,
        0 <= to < 64,
        promotion_board(b, from, to, keys, pk, r),
        b.wf(),
        promote_keeps_hash(b, from, to),
    ensures
        r.wf(),
        b.zobrist_hash == keys.key(b) ==> r.zobrist_hash == keys.key(r),
{
    let pc = lookup_spec(b, from as u64).unwrap().0;
    let cap = lookup_spec(b, to as u64);
    lemma_promotion_pieces(b, from, to, keys, pk, r);
    if b.zobrist_hash == keys.key(b) {
        let p0 = keys.pieces_key(board_fn(b));
        let p3 = keys.pieces_key(board_fn(r));
        let kc: u64 = if cap is Some {
            keys.table(cap.unwrap().0, cap.unwrap().1)[to]
        } else {
            0
        };
        let kf = keys.table(pc, PieceType::Pawn)[from];
        let kt = keys.table(pc, pk)[to];
        keys.lemma_key_split(b);
        keys.lemma_key_split(r);
        let e0 = keys.ep_term(b.en_passant);
        let e1 = keys.ep_term(r.en_passant);
        assert(e1 == 0);
        let t0 = keys.turn_term(b.turn);
        let t1 = keys.turn_term(r.turn);
        let bt = keys.black_turn;
        lemma_xor_unit(bt, 0);
        lemma_xor_unit(0, bt);
        assert(t1 == t0 ^ bt);
        let w0 = keys.white_castling_rights[crate::tables::white_castle_index(b.castling)];
        let b0 = keys.black_castling_rights[crate::tables::black_castle_index(b.castling)];
        let wf_ = keys.white_castling_rights[crate::tables::white_castle_index(r.castling)];
        let bf_ = keys.black_castling_rights[crate::tables::black_castle_index(r.castling)];
        let h0 = b.zobrist_hash;
        assert(h0 == ((p0 ^ e0) ^ t0) ^ (w0 ^ b0));
        let h1 = (h0 ^ w0) ^ b0;
        let h2 = if cap is Some {
            h1 ^ keys.table(cap.unwrap().0, cap.unwrap().1)[to]
        } else {
            h1
        };
        if cap is None {
            lemma_xor_unit(h1, 0);
        }
        assert(h2 == h1 ^ kc);
        let h3 = ((h2 ^ wf_) ^ bf_) ^ bt;
        let rh = r.zobrist_hash;
        assert(rh == ((h3 ^ kf) ^ e0) ^ kt);
        assert(keys.key(r) == ((p3 ^ e1) ^ t1) ^ (wf_ ^ bf_));
        assert(rh == ((p3 ^ e1) ^ t1) ^ (wf_ ^ bf_)) by (bit_vector)
            requires
                h0 == ((p0 ^ e0) ^ t0) ^ (w0 ^ b0),
                h1 == (h0 ^ w0) ^ b0,
                h2 == h1 ^ kc,
                h3 == ((h2 ^ wf_) ^ bf_) ^ bt,
                rh == ((h3 ^ kf) ^ e0) ^ kt,
                p3 == ((p0 ^ kc) ^ kf) ^ kt,
                t1 == t0 ^ bt,
                e1 == 0u64,
        ;
    }
}

/// The conditions under which `promote_pawn_to` keeps the hash in step: those
/// of a promotion, no en-passant square, and no change of the castling rights
/// the hash reads (the function adjusts neither).
pub open spec fn promote_pawn_to_keeps_hash(b: Board, from: int, to: int) -> bool {
    let cap = lookup_spec(b, to as u64);
    let cf = match cap {
        Some(x) => castling_after_capture(b.castling, to, x.1),
        None => b.castling,
    };
    &&& promote_keeps_hash(b, from, to)
    &&& b.en_passant == NO_EN_PASSANT
    &&& white_castle_index(cf) == white_castle_index(b.castling)
    &&& black_castle_index(cf) == black_castle_index(b.castling)
}

/// `promote_pawn_to` keeps a position well formed, and its hash in step under
/// `promote_pawn_to_keeps_hash`.
pub proof fn lemma_promote_pawn_to_hash(b: Board, from: int, to: int, keys: ZobristKeys, pk: PieceType, m: Move)
    requires
        0 <= from < 64,
        0 <= to < 64,
        promote_pawn_to_post(b, from, to, pk, keys, m),
        b.wf(),
        promote_keeps_hash(b, from, to),
    ensures
        m.board.wf(),
        promote_pawn_to_keeps_hash(b, from, to) && b.zobrist_hash == keys.key(b) ==> m.board.zobrist_hash
            == keys.key(m.board),
{
    let r = m.board;
    let pc = lookup_spec(b, from as u64).unwrap().0;
    let cap = lookup_spec(b, to as u64);
    lemma_promotion_pieces(b, from, to, keys, pk, r);
    if promote_pawn_to_keeps_hash(b, from, to) && b.zobrist_hash == keys.key(b) {
        let p0 = keys.pieces_key(board_fn(b));
        let p3 = keys.pieces_key(board_fn(r));
        let kc: u64 = if cap is Some {
            keys.table(cap.unwrap().0, cap.unwrap().1)[to]
        } else {
            0
        };
        let kf = keys.table(pc, PieceType::Pawn)[from];
        let kt = keys.table(pc, pk)[to];
        keys.lemma_key_split(b);
        keys.lemma_key_split(r);
        let e0 = keys.ep_term(b.en_passant);
        let e1 = keys.ep_term(r.en_passant);
        assert(e0 == 0 && e1 == 0);
        let t0 = keys.turn_term(b.turn);
        let t1 = keys.turn_term(r.turn);
        let bt = keys.black_turn;
        lemma_xor_unit(bt, 0);
        lemma_xor_unit(0, bt);
        assert(t1 == t0 ^ bt);
        let w0 = keys.white_castling_rights[white_castle_index(b.castling)];
        let b0 = keys.black_castling_rights[black_castle_index(b.castling)];
        let h0 = b.zobrist_hash;
        assert(h0 == ((p0 ^ e0) ^ t0) ^ (w0 ^ b0));
        let h1 = if cap is Some {
            h0 ^ keys.table(cap.unwrap().0, cap.unwrap().1)[to]
        } else {
            h0
        };
        if cap is None {
            lemma_xor_unit(h0, 0);
        }
        assert(h1 == h0 ^ kc);
        let rh = r.zobrist_hash;
        assert(rh == ((h1 ^ bt) ^ kf) ^ kt);
        assert(keys.key(r) == ((p3 ^ e1) ^ t1) ^ (w0 ^ b0));
        assert(rh == ((p3 ^ e1) ^ t1) ^ (w0 ^ b0)) by (bit_vector)
            requires
                h0 == ((p0 ^ e0) ^ t0) ^ (w0 ^ b0),
                h1 == h0 ^ kc,
                rh == ((h1 ^ bt) ^ kf) ^ kt,
                p3 == ((p0 ^ kc) ^ kf) ^ kt,
                t1 == t0 ^ bt,
                e0 == 0u64,
                e1 == 0u64,
        ;
    }
}

/// The hash does not depend on how a position was reached: two positions
/// whose hashes are in step, with the same pieces, castling rights,
/// en-passant square and side to move, have the same hash (so moving pieces
/// away and back again restores it).
pub proof fn hash_ignores_path(keys: ZobristKeys, a: Board, b: Board)
    requires
        a.zobrist_hash == keys.key(a),
        b.zobrist_hash == keys.key(b),
        same_pieces(a, b),
        a.castling == b.castling,
        a.en_passant == b.en_passant,
        a.turn == b.turn,
    ensures
        a.zobrist_hash == b.zobrist_hash,
{
    keys.lemma_same_parts(a, b);
    keys.lemma_key_split(a);
    keys.lemma_key_split(b);
}

/// Moving a piece other than a pawn to an empty square and straight back
/// again gives back the pieces, the castling rights, the en-passant square,
/// the side to move and the hash, for a well-formed position whose hash is in
/// step, no en-passant square open, and moves that leave the castling rights
/// as they are.
pub proof fn move_there_and_back(b: Board, keys: ZobristKeys, from: u64, to: u64, m1: Move, m2: Move)
    requires
        b.wf(),
        b.zobrist_hash == keys.key(b),
        from < 64,
        to < 64,
        from != to,
        lookup_spec(b, from) is Some,
        lookup_spec(b, from).unwrap().1 != PieceType::Pawn,
        lookup_spec(b, to) is None,
        b.en_passant == NO_EN_PASSANT,
        castling_after_move(b.castling, lookup_spec(b, from).unwrap().0, lookup_spec(b, from).unwrap().1, from as int)
            == b.castling,
        castling_after_move(b.castling, lookup_spec(b, from).unwrap().0, lookup_spec(b, from).unwrap().1, to as int)
            == b.castling,
        move_piece_post(b, to as int, from as int, keys, m1),
        move_piece_post(m1.board, from as int, to as int, keys, m2),
    ensures
        same_pieces(m2.board, b),
        m2.board.castling == b.castling,
        m2.board.en_passant == b.en_passant,
        m2.board.turn == b.turn,
        m2.board.zobrist_hash == b.zobrist_hash,
{
    let pc = lookup_spec(b, from).unwrap().0;
    let pt = lookup_spec(b, from).unwrap().1;
    let r1 = m1.board;
    let r2 = m2.board;
    lemma_lookup_wf(b, from);
    lemma_lookup_wf(b, to);
    lemma_move_piece_hash(b, to as int, from as int, keys, m1);
    let x = bb(b, pc, pt);
    assert(has_bit(x, from));
    assert(!has_bit(x, to));
    assert(bb(r1, pc, pt) == (x & !sq(from)) | sq(to));
    assert(has_bit(bb(r1, pc, pt), to)) by {
        lemma_set_bit(x & !sq(from), to, to);
    }
    assert forall|c: PieceColor, t: PieceType| !#[trigger] has_bit(bb(r1, c, t), from) by {
        if c == pc && t == pt {
            lemma_clear_bit(x, from, from);
            lemma_set_bit(x & !sq(from), to, from);
        } else {
            assert(bb(r1, c, t) == bb(b, c, t));
            if has_bit(bb(b, c, t), from) {
                assert(has_bit(bb(b, pc, pt), from));
            }
        }
    }
    lemma_lookup_wf(r1, to);
    lemma_lookup_wf(r1, from);
    assert(lookup_spec(r1, to) == Some((pc, pt)));
    assert(lookup_spec(r1, from) is None);
    lemma_move_piece_hash(r1, from as int, to as int, keys, m2);
    assert(same_pieces(r2, b)) by {
        assert forall|c: PieceColor, t: PieceType| #[trigger] bb(r2, c, t) == bb(b, c, t) by {
            if c == pc && t == pt {
                assert(bb(r2, c, t) == (bb(r1, c, t) & !sq(to)) | sq(from));
                assert(from < 64 && to < 64 && from != to && (x >> from) & 1u64 == 1u64 && (x >> to) & 1u64
                    != 1u64 ==> ((((x & !(1u64 << from)) | (1u64 << to)) & !(1u64 << to)) | (1u64 << from))
                    == x) by (bit_vector);
            }
        }
    }
    lemma_opposite_involution(b.turn);
    hash_ignores_path(keys, r2, b);
}

/// Adding a piece on a square its bitboard does not hold and taking it away
/// again gives back the position: the bit is cleared again and the same key
/// is toggled twice.
pub proof fn remove_undoes_add(
    b0: Board,
    b1: Board,
    b2: Board,
    pos: u64,
    pc: PieceColor,
    pt: PieceType,
    keys: ZobristKeys,
)
    requires
        pos < 64,
        !has_bit(bb(b0, pc, pt), pos),
        piece_added(b0, b1, pos, pc, pt, keys),
        piece_removed(b1, b2, pos, pc, pt, keys),
    ensures
        b2 == b0,
{
    let x = bb(b0, pc, pt);
    assert((x | (1u64 << pos)) & !(1u64 << pos) == x) by (bit_vector)
        requires
            pos < 64,
            (x >> pos) & 1u64 != 1u64,
    ;
    let k = keys.table(pc, pt)[pos as int];
    let h = b0.zobrist_hash;
    assert((h ^ k) ^ k == h) by (bit_vector);
    assert(same_pieces(b2, b0)) by {
        assert forall|c: PieceColor, t: PieceType| #[trigger] bb(b2, c, t) == bb(b0, c, t) by {
            if c != pc || t != pt {
                assert(bb(b1, c, t) == bb(b0, c, t));
            }
        }
    }
    lemma_board_ext(b2, b0);
}

/// Castling rights and piece moves: a king move withdraws both rights of its
/// side (white's `Q` and `K`, bits 3 and 2, or black's `q` and `k`, bits 1
/// and 0, with their copies four bits up); a rook leaving a corner withdraws
/// the one right of that corner (a1 `Q`, h1 `K`, a8 `q`, h8 `k`) with its
/// copy; every other right is kept, and any other move keeps them all. (This
/// is for moves that take no rook; taking one is stated by the move itself.)
pub proof fn move_withdraws_rights(b: Board, to: int, from: int, keys: ZobristKeys, m: Move)
    requires
        0 <= from < 64,
        0 <= to < 64,
        lookup_spec(b, from as u64) is Some,
        lookup_spec(b, to as u64) is None || lookup_spec(b, to as u64).unwrap().1 != PieceType::Rook,
        move_piece_post(b, to, from, keys, m),
    ensures
        ({
            let pc = lookup_spec(b, from as u64).unwrap().0;
            let pt = lookup_spec(b, from as u64).unwrap().1;
            let c = b.castling;
            let r = m.board.castling;
            let lost: u8 = if pt == PieceType::King {
                if pc == PieceColor::White {
                    0xccu8
                } else {
                    0x33u8
                }
            } else if pt == PieceType::Rook && from == 0 {
                0x88u8
            } else if pt == PieceType::Rook && from == 7 {
                0x44u8
            } else if pt == PieceType::Rook && from == 56 {
                0x22u8
            } else if pt == PieceType::Rook && from == 63 {
                0x11u8
            } else {
                0u8
            };
            &&& r & lost == 0
            &&& r & !lost == c & !lost
        }),
{
    let c = b.castling;
    assert(c & 0x33u8 & 0xccu8 == 0 && c & 0x33u8 & !0xccu8 == c & !0xccu8) by (bit_vector);
    assert(c & 0xccu8 & 0x33u8 == 0 && c & 0xccu8 & !0x33u8 == c & !0x33u8) by (bit_vector);
    assert(c & 0x77u8 & 0x88u8 == 0 && c & 0x77u8 & !0x88u8 == c & !0x88u8) by (bit_vector);
    assert(c & 0xbbu8 & 0x44u8 == 0 && c & 0xbbu8 & !0x44u8 == c & !0x44u8) by (bit_vector);
    assert(c & 0xddu8 & 0x22u8 == 0 && c & 0xddu8 & !0x22u8 == c & !0x22u8) by (bit_vector);
    assert(c & 0xeeu8 & 0x11u8 == 0 && c & 0xeeu8 & !0x11u8 == c & !0x11u8) by (bit_vector);
    assert(c == 0 ==> (c & 0x88u8 == 0 && c & 0x44u8 == 0 && c & 0x22u8 == 0 && c & 0x11u8 == 0
        && c & 0xccu8 == 0 && c & 0x33u8 == 0)) by (bit_vector);
    assert(c & 0u8 == 0 && c & !0u8 == c) by (bit_vector);
}

/// Castling moves the king of the side to move two squares along its home
/// rank, towards the a-file for the code 88 and towards the h-file otherwise,
/// and the rook from that corner to the square the king passed over; no other
/// piece moves.
pub proof fn castle_moves_king_and_rook(b: Board, code: u8, keys: ZobristKeys, m: Move)
    requires
        castle_post(b, code, keys, m),
    ensures
        ({
            let side = b.turn;
            let home: u64 = if side == PieceColor::White {
                0
            } else {
                56
            };
            let kf: u64 = (home + 4) as u64;
            let kt: u64 = if code == 88 {
                (home + 2) as u64
            } else {
                (home + 6) as u64
            };
            let rf: u64 = if code == 88 {
                home
            } else {
                (home + 7) as u64
            };
            let rt: u64 = ((kf + kt) / 2) as u64;
            &&& bb(m.board, side, PieceType::King) == (bb(b, side, PieceType::King) & !sq(kf)) | sq(kt)
            &&& bb(m.board, side, PieceType::Rook) == (bb(b, side, PieceType::Rook) & !sq(rf)) | sq(rt)
            &&& forall|c: PieceColor, t: PieceType|
                !(c == side && (t == PieceType::King || t == PieceType::Rook)) ==> #[trigger] bb(m.board, c, t)
                    == bb(b, c, t)
        }),
        b.turn == PieceColor::White ==> m.board.castling & 0xfc == 0 && m.board.castling & 3 == b.castling & 3,
        b.turn == PieceColor::Black ==> m.board.castling & 0xf3 == 0 && m.board.castling & 12 == b.castling & 12,
        m.board.turn == b.turn.opposite(),
        m.board.en_passant == NO_EN_PASSANT,
{
    let c = b.castling;
    assert(c & 3u8 & 0xfcu8 == 0 && c & 3u8 & 3u8 == c & 3u8) by (bit_vector);
    assert(c & 12u8 & 0xf3u8 == 0 && c & 12u8 & 12u8 == c & 12u8) by (bit_vector);
}

/// A pawn's double step from its home rank opens the square it passed over
/// for capture en passant, and any other move closes it; a pawn moving onto
/// the open square takes the enemy pawn just behind that square (seen from
/// the mover), and every move passes the turn and counts a half move, and a
/// full move after black's.
pub proof fn move_en_passant_and_counters(b: Board, to: int, from: int, keys: ZobristKeys, m: Move)
    requires
        0 <= from < 64,
        0 <= to < 64,
        lookup_spec(b, from as u64) is Some,
        move_piece_post(b, to, from, keys, m),
    ensures
        ({
            let pt = lookup_spec(b, from as u64).unwrap().1;
            let double_white = pt == PieceType::Pawn && 8 <= from < 16 && to == from + 16;
            let double_black = pt == PieceType::Pawn && 48 <= from < 56 && to == from - 16;
            &&& double_white ==> m.board.en_passant == from + 8
            &&& double_black ==> m.board.en_passant == from - 8
            &&& !double_white && !double_black ==> m.board.en_passant == NO_EN_PASSANT
        }),
        ({
            let pt = lookup_spec(b, from as u64).unwrap().1;
            let behind: int = if b.turn == PieceColor::White {
                to - 8
            } else {
                to + 8
            };
            pt == PieceType::Pawn && to == b.en_passant && 0 <= behind < 64 && behind != to && lookup_spec(b, to as u64)
                is None ==> !has_bit(bb(m.board, b.turn.opposite(), PieceType::Pawn), behind as u64)
        }),
        m.board.turn == b.turn.opposite(),
        m.board.half_moves == b.half_moves + 1,
        m.board.full_move == b.full_move + (if b.turn == PieceColor::Black {
            1int
        } else {
            0int
        }),
{
    let pc = lookup_spec(b, from as u64).unwrap().0;
    let pt = lookup_spec(b, from as u64).unwrap().1;
    let behind: int = if b.turn == PieceColor::White {
        to - 8
    } else {
        to + 8
    };
    if pt == PieceType::Pawn && to == b.en_passant && 0 <= behind < 64 && behind != to && lookup_spec(b, to as u64) is None {
        let cc = b.turn.opposite();
        let x0 = bb(b, cc, PieceType::Pawn);
        let x1 = x0 & !sq(behind as u64);
        lemma_clear_bit(x0, behind as u64, behind as u64);
        assert(bb(m.board, cc, PieceType::Pawn) == bb_after_move(b, cc, PieceType::Pawn, to as u64, from as u64, pc, pt, None));
        if pc == cc {
            lemma_clear_bit(x1, from as u64, behind as u64);
            lemma_set_bit(x1 & !sq(from as u64), to as u64, behind as u64);
        }
    }
}

} // verus!
