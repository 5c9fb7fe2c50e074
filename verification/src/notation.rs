//! Long algebraic notation: squares such as `e4`, and moves such as `e2e4`,
//! `e7e8q` or `e1g1`.
use vstd::prelude::*;
use vstd::string::StrSliceExecFns;
use crate::board::{
    Board, Move, PieceColor, PieceType, lookup_spec, ep_in_range, ep_capture_in_range,
    takes_en_passant, move_piece_post, castle_post, promote_pawn_to_post, bb, union_of, same_pieces, lemma_board_ext,
};
use crate::bits::has_bit;
use crate::laws::{move_keeps_hash, castle_keeps_hash, promote_keeps_hash, promote_pawn_to_keeps_hash};
use crate::tables::ZobristKeys;

verus! {

/// The byte a character keeps after ASCII lower-casing and truncation to
/// eight bits.
pub open spec fn lower_byte(c: char) -> int {
    let v = c as int;
    let l = if 65 <= v <= 90 {
        v + 32
    } else {
        v
    };
    l % 256
}

/// The value of a decimal digit character.
pub open spec fn digit_value(c: char) -> Option<int> {
    if '0' <= c <= '9' {
        Some(c as int - 48)
    } else {
        None
    }
}

/// A square name that `lan_to_pos` reads without failing: a file letter
/// (any character whose lower-cased byte is at least `a`) and a rank digit
/// from 1 to 9.
pub open spec fn lan_valid(code: Seq<char>) -> bool {
    &&& code.len() >= 2
    &&& lower_byte(code[0]) >= 97
    &&& digit_value(code[1]) is Some
    &&& digit_value(code[1]).unwrap() >= 1
}

/// The square a valid square name denotes: eight squares per rank, files
/// counted from `a`.
pub open spec fn lan_square(code: Seq<char>) -> int {
    (digit_value(code[1]).unwrap() - 1) * 8 + (lower_byte(code[0]) - 97)
}

/// The character of a decimal digit.
pub open spec fn digit_char(d: int) -> char {
    (d + 48) as char
}

/// The decimal digits of a number below one hundred.
pub open spec fn small_decimal(n: int) -> Seq<char> {
    if n < 10 {
        seq![digit_char(n)]
    } else {
        seq![digit_char(n / 10), digit_char(n % 10)]
    }
}

/// The name `pos_to_lan` gives a square: the square is first truncated to a
/// byte, then named by its file letter and its rank number.
pub open spec fn lan_of(pos: int) -> Seq<char> {
    let p = pos % 256;
    seq![((p % 8) + 97) as char] + small_decimal(p / 8 + 1)
}

/// The suffix naming the kind a pawn promotes to.
pub open spec fn promotion_suffix(p: Option<PieceType>) -> Seq<char> {
    match p {
        Some(PieceType::Queen) => seq!['q'],
        Some(PieceType::Rook) => seq!['r'],
        Some(PieceType::Bishop) => seq!['b'],
        Some(PieceType::Knight) => seq!['n'],
        _ => Seq::empty(),
    }
}

/// The notation of a move: castling moves (codes 80 and 88) by the king's
/// squares of the side that made them, other moves by their two squares and
/// the promotion suffix.
pub open spec fn move_lan(m: Move) -> Seq<char> {
    if m.to == 80 {
        match m.board.turn.opposite() {
            PieceColor::White => seq!['e', '1', 'g', '1'],
            PieceColor::Black => seq!['e', '8', 'g', '8'],
        }
    } else if m.to == 88 {
        match m.board.turn.opposite() {
            PieceColor::White => seq!['e', '1', 'c', '1'],
            PieceColor::Black => seq!['e', '8', 'c', '8'],
        }
    } else {
        lan_of(m.from as int) + lan_of(m.to as int) + promotion_suffix(m.promote_to)
    }
}


/// A move text whose first four characters `make_move` reads: ASCII, two
/// valid square names.
pub open spec fn lan_text_ok(s: Seq<char>) -> bool {
    &&& s.len() >= 4
    &&& forall|i: int| 0 <= i < 4 ==> (#[trigger] s[i] as int) < 128
    &&& lan_valid(s.subrange(0, 2))
    &&& lan_valid(s.subrange(2, 4))
}

/// A move text of five bytes: four squares' characters and a promotion letter.
pub open spec fn is_promotion_text(s: Seq<char>) -> bool {
    s.len() == 5 && (s[4] as int) < 128
}

/// The kind a promotion letter names, in either case.
pub open spec fn promotion_letter(c: char) -> Option<PieceType> {
    if c == 'n' || c == 'N' {
        Some(PieceType::Knight)
    } else if c == 'b' || c == 'B' {
        Some(PieceType::Bishop)
    } else if c == 'r' || c == 'R' {
        Some(PieceType::Rook)
    } else if c == 'q' || c == 'Q' {
        Some(PieceType::Queen)
    } else {
        None
    }
}

/// The castling code a move text stands for: the king moves of castling,
/// when that side's king stands on its home square.
pub open spec fn castle_code_of(b: Board, s: Seq<char>) -> Option<u8> {
    if s == seq!['e', '1', 'g', '1'] && has_bit(b.kings[0], 4) {
        Some(80u8)
    } else if s == seq!['e', '1', 'c', '1'] && has_bit(b.kings[0], 4) {
        Some(88u8)
    } else if s == seq!['e', '8', 'g', '8'] && has_bit(b.kings[1], 60) {
        Some(80u8)
    } else if s == seq!['e', '8', 'c', '8'] && has_bit(b.kings[1], 60) {
        Some(88u8)
    } else {
        None
    }
}

/// The inputs `make_move` accepts: the text's squares can be read, and the
/// move it stands for can be made on the position.
pub open spec fn make_move_requires(b: Board, s: Seq<char>) -> bool {
    let from = lan_square(s.subrange(0, 2));
    let to = lan_square(s.subrange(2, 4));
    &&& lan_text_ok(s)
    &&& (is_promotion_text(s) ==> promotion_letter(s[4]) is Some) ==> counters_have_room(b)
    &&& if is_promotion_text(s) {
        promotion_letter(s[4]) is Some ==> (from < 64 && to < 64 && lookup_spec(b, from as u64) is Some)
    } else if castle_code_of(b, s) is Some {
        ep_in_range(b.en_passant)
    } else {
        &&& from < 64
        &&& to < 64
        &&& lookup_spec(b, from as u64) is Some
        &&& lookup_spec(b, from as u64).unwrap().1 == PieceType::Pawn ==> ep_in_range(b.en_passant)
        &&& takes_en_passant(b, to, lookup_spec(b, from as u64).unwrap().1) ==> ep_capture_in_range(b.turn, b.en_passant)
    }
}

/// The counters can be advanced by a move: the half-move count, and the
/// full-move number when black moves.
pub open spec fn counters_have_room(b: Board) -> bool {
    &&& b.half_moves < u16::MAX
    &&& b.turn == PieceColor::Black ==> b.full_move < u64::MAX
}

/// `r` with the check fields of `b`.
pub open spec fn with_checks_of(r: Board, b: Board) -> Board {
    Board { check_real: b.check_real, check_full: b.check_full, ..r }
}

/// The position `make_move` produces for the move text `s`: the position the
/// text's move leads to (or `b` itself for a promotion letter that names no
/// kind), with the check fields cleared when the side that did not move has
/// no king, and otherwise kept from `b`.
pub open spec fn make_move_post(b: Board, s: Seq<char>, keys: ZobristKeys, r: Board) -> bool {
    &&& text_move_post(b, s, keys, with_checks_of(r, b))
    &&& if bb(r, b.turn.opposite(), PieceType::King) == 0 {
        r.check_real == 0 && r.check_full == 0
    } else {
        r.check_real == b.check_real && r.check_full == b.check_full
    }
}

/// The position the move text `s` leads to from `b`, with `b`'s check fields.
pub open spec fn text_move_post(b: Board, s: Seq<char>, keys: ZobristKeys, r: Board) -> bool {
    let from = lan_square(s.subrange(0, 2));
    let to = lan_square(s.subrange(2, 4));
    let capture = lookup_spec(b, to as u64) is Some;
    if is_promotion_text(s) {
        match promotion_letter(s[4]) {
            Some(pk) => promote_pawn_to_post(
                b,
                from,
                to,
                pk,
                keys,
                Move { from: from as usize, to: to as usize, board: r, promote_to: Some(pk), capture },
            ),
            None => r == b,
        }
    } else if castle_code_of(b, s) is Some {
        let code = castle_code_of(b, s).unwrap();
        castle_post(b, code, keys, Move { from: code as usize, to: code as usize, board: r, promote_to: None, capture: false })
    } else {
        move_piece_post(b, to, from, keys, Move { from: from as usize, to: to as usize, board: r, promote_to: None, capture })
    }
}

/// The conditions under which `make_move` keeps the hash in step with the
/// position: those of the move function the text selects.
pub open spec fn make_move_keeps_hash(b: Board, s: Seq<char>) -> bool {
    let from = lan_square(s.subrange(0, 2));
    let to = lan_square(s.subrange(2, 4));
    if is_promotion_text(s) {
        promotion_letter(s[4]) is Some ==> promote_pawn_to_keeps_hash(b, from, to)
    } else if castle_code_of(b, s) is Some {
        castle_keeps_hash(b, castle_code_of(b, s).unwrap())
    } else {
        move_keeps_hash(b, to, from)
    }
}

/// A move text leads to one position: `make_move_post` determines it.
pub proof fn lemma_make_move_post_unique(b: Board, s: Seq<char>, keys: ZobristKeys, r1: Board, r2: Board)
    requires
        make_move_post(b, s, keys, r1),
        make_move_post(b, s, keys, r2),
    ensures
        r1 == r2,
{
    let q1 = with_checks_of(r1, b);
    let q2 = with_checks_of(r2, b);
    assert(same_pieces(q1, q2)) by {
        assert forall|c: PieceColor, t: PieceType| #[trigger] bb(q1, c, t) == bb(q2, c, t) by {
            if is_promotion_text(s) && promotion_letter(s[4]) is Some {
                assert(bb(q1, c, t) == bb(q2, c, t));
            } else if is_promotion_text(s) {
                assert(q1 == b && q2 == b);
            } else if castle_code_of(b, s) is Some {
                assert(bb(q1, c, t) == bb(q2, c, t));
            } else {
                assert(bb(q1, c, t) == bb(q2, c, t));
            }
        }
    }
    assert(union_of(q1, PieceColor::White) == union_of(q2, PieceColor::White));
    assert(union_of(q1, PieceColor::Black) == union_of(q2, PieceColor::Black));
    lemma_board_ext(q1, q2);
    assert(same_pieces(r1, r2)) by {
        assert forall|c: PieceColor, t: PieceType| #[trigger] bb(r1, c, t) == bb(r2, c, t) by {
            assert(bb(r1, c, t) == bb(q1, c, t));
            assert(bb(r2, c, t) == bb(q2, c, t));
        }
    }
    assert(bb(r1, b.turn.opposite(), PieceType::King) == bb(r2, b.turn.opposite(), PieceType::King));
    lemma_board_ext(r1, r2);
}

/// Tells whether the two characters of `text` from `i` on name a square that
/// `lan_to_pos` reads.
fn lan_valid_at(text: &str, i: usize) -> (r: bool)
    requires
        i <= 2,
        i + 2 <= text@.len(),
    ensures
        r == lan_valid(text@.subrange(i as int, i as int + 2)),
{
    let c0 = text.get_char(i);
    let c1 = text.get_char(i + 1);
    lower_byte_of(c0) >= 97 && '1' <= c1 && c1 <= '9'
}

/// Tells whether `s` holds exactly the four characters given.
fn text_is(s: &str, a: char, b: char, c: char, d: char) -> (r: bool)
    ensures
        r == (s@ == seq![a, b, c, d]),
{
    if s.unicode_len() != 4 {
        assert(s@.len() != 4);
        return false;
    }
    let r = s.get_char(0) == a && s.get_char(1) == b && s.get_char(2) == c && s.get_char(3) == d;
    if r {
        assert(s@ =~= seq![a, b, c, d]);
    }
    r
}

/// The byte `c` keeps after ASCII lower-casing and truncation to eight bits.
pub(crate) fn lower_byte_of(c: char) -> (b: u32)
    ensures
        b as int == lower_byte(c),
        b < 256,
{
    let lower: u32 = if 'A' <= c && c <= 'Z' {
        (c as u32) + 32
    } else {
        c as u32
    };
    lower % 256
}

/// Calls `String::push`, which appends the character to the string.
#[verifier::external_body]
pub(crate) fn push_char(s: &mut String, c: char)
    ensures
        final(s)@ == old(s)@.push(c),
{
    s.push(c);
}

/// A string of four characters.
fn four_chars(a: char, b: char, c: char, d: char) -> (s: String)
    ensures
        s@ == seq![a, b, c, d],
{
    let mut s = String::new();
    push_char(&mut s, a);
    push_char(&mut s, b);
    push_char(&mut s, c);
    push_char(&mut s, d);
    assert(s@ =~= seq![a, b, c, d]);
    s
}

/// Naming a square and reading the name back gives the square.
pub proof fn lemma_lan_round_trip(pos: int)
    requires
        0 <= pos < 64,
    ensures
        lan_valid(lan_of(pos)),
        lan_square(lan_of(pos)) == pos,
{
    let s = lan_of(pos);
    assert(pos % 256 == pos);
    assert(s[0] == ((pos % 8) + 97) as char);
    assert(s[1] == digit_char(pos / 8 + 1));
}

impl Board {
    /// The square named by the first two characters of `code`.
    pub fn lan_to_pos(code: &str) -> (pos: usize)
        requires
            lan_valid(code@),
        ensures
            pos == lan_square(code@),
    {
        let c0 = code.get_char(0);
        let c1 = code.get_char(1);
        let f: u32 = lower_byte_of(c0) - 96;
        let r: u32 = (c1 as u32) - 48;
        (((r - 1) * 8) + (f - 1)) as usize
    }

    /// The name of a square: its file letter and rank number (the square is
    /// first truncated to a byte).
    pub fn pos_to_lan(pos: usize) -> (s: String)
        ensures
            s@ == lan_of(pos as int),
    {
        let p: u32 = (pos % 256) as u32;
        let file = ((p % 8) + 97) as u8 as char;
        let rank: u32 = p / 8 + 1;
        let mut out = String::new();
        push_char(&mut out, file);
        if rank < 10 {
            push_char(&mut out, ((rank + 48) as u8) as char);
        } else {
            push_char(&mut out, ((rank / 10 + 48) as u8) as char);
            push_char(&mut out, ((rank % 10 + 48) as u8) as char);
        }
        assert(out@ =~= lan_of(pos as int));
        out
    }


    /// The position after the move written `text` in long algebraic notation:
    /// a five-byte text promotes (to the kind its last letter names, or leaves
    /// the position as it is for another letter), a king move of castling
    /// castles when that king is at home, and any other text moves the piece
    /// on its first square to its second. When the side that did not move has
    /// no king the check fields are cleared; otherwise they are kept from this
    /// position, computing them being the move generator's work.
    pub fn make_move(&self, text: &str, zobrist_keys: &ZobristKeys) -> (r: Board)
        requires
            make_move_requires(*self, text@),
        ensures
            make_move_post(*self, text@, *zobrist_keys, r),
            self.wf() && make_move_keeps_hash(*self, text@) && (is_promotion_text(text@) ==> promotion_letter(text@[4]) is Some ==> promote_keeps_hash(*self, lan_square(text@.subrange(0, 2)), lan_square(text@.subrange(2, 4)))) ==> r.wf(),
            self.wf() && make_move_keeps_hash(*self, text@) && self.zobrist_hash == zobrist_keys.key(*self)
                ==> r.zobrist_hash == zobrist_keys.key(r),
    {
        let mut r = self.play_text(text, zobrist_keys);
        let ghost r0 = r;
        let other = self.turn.not();
        if r.kings[other.idx()] == 0 {
            r.check_real = 0;
            r.check_full = 0;
        }
        proof {
            assert(with_checks_of(r, *self) == r0);
            assert(same_pieces(r0, r));
            zobrist_keys.lemma_same_parts(r0, r);
            zobrist_keys.lemma_key_split(r0);
            zobrist_keys.lemma_key_split(r);
        }
        r
    }

    /// The position the move text `text` leads to, with this position's check
    /// fields.
    fn play_text(&self, text: &str, zobrist_keys: &ZobristKeys) -> (r: Board)
        requires
            make_move_requires(*self, text@),
        ensures
            text_move_post(*self, text@, *zobrist_keys, r),
            r.check_real == self.check_real,
            r.check_full == self.check_full,
            self.wf() && make_move_keeps_hash(*self, text@) && (is_promotion_text(text@) ==> promotion_letter(text@[4]) is Some ==> promote_keeps_hash(*self, lan_square(text@.subrange(0, 2)), lan_square(text@.subrange(2, 4)))) ==> r.wf(),
            self.wf() && make_move_keeps_hash(*self, text@) && self.zobrist_hash == zobrist_keys.key(*self)
                ==> r.zobrist_hash == zobrist_keys.key(r),
    {
        let n = text.unicode_len();
        let from = Board::lan_to_pos(text.substring_char(0, 2));
        let to = Board::lan_to_pos(text.substring_char(2, 4));
        let fifth_ascii = n == 5 && (text.get_char(4) as u32) < 128;
        if fifth_ascii {
            let c = text.get_char(4);
            let new_move = if c == 'n' || c == 'N' {
                self.promote_pawn_to(from, to, PieceType::Knight, zobrist_keys)
            } else if c == 'b' || c == 'B' {
                self.promote_pawn_to(from, to, PieceType::Bishop, zobrist_keys)
            } else if c == 'r' || c == 'R' {
                self.promote_pawn_to(from, to, PieceType::Rook, zobrist_keys)
            } else if c == 'q' || c == 'Q' {
                self.promote_pawn_to(from, to, PieceType::Queen, zobrist_keys)
            } else {
                Move { from: 100, to: 100, board: *self, promote_to: None, capture: false }
            };
            return new_move.board;
        }
        proof {
            let kw = self.kings[0];
            let kb = self.kings[1];
            assert(((kw & 0x10u64) != 0) == ((kw >> 4u64) & 1u64 == 1u64)) by (bit_vector);
            assert(((kb & 0x1000000000000000u64) != 0) == ((kb >> 60u64) & 1u64 == 1u64)) by (bit_vector);
        }
        let white_home = self.kings[0] & 0x10 != 0;
        let black_home = self.kings[1] & 0x1000000000000000 != 0;
        let new_move = if text_is(text, 'e', '1', 'g', '1') && white_home {
            self.castle(80, zobrist_keys)
        } else if text_is(text, 'e', '1', 'c', '1') && white_home {
            self.castle(88, zobrist_keys)
        } else if text_is(text, 'e', '8', 'g', '8') && black_home {
            self.castle(80, zobrist_keys)
        } else if text_is(text, 'e', '8', 'c', '8') && black_home {
            self.castle(88, zobrist_keys)
        } else {
            self.move_piece(to, from, zobrist_keys)
        };
        new_move.board
    }

    /// Tells whether `make_move` can play the move text `text` on this
    /// position.
    pub fn move_playable(&self, text: &str) -> (r: bool)
        ensures
            r == make_move_requires(*self, text@),
    {
        let n = text.unicode_len();
        if n < 4 {
            return false;
        }
        let ascii = (text.get_char(0) as u32) < 128 && (text.get_char(1) as u32) < 128
            && (text.get_char(2) as u32) < 128 && (text.get_char(3) as u32) < 128;
        if !ascii {
            assert(!lan_text_ok(text@)) by {
                if lan_text_ok(text@) {
                    assert((text@[0] as int) < 128);
                    assert((text@[1] as int) < 128);
                    assert((text@[2] as int) < 128);
                    assert((text@[3] as int) < 128);
                }
            }
            return false;
        }
        if !lan_valid_at(text, 0) || !lan_valid_at(text, 2) {
            return false;
        }
        assert(lan_text_ok(text@));
        let room = self.half_moves < u16::MAX && !(self.turn == PieceColor::Black && self.full_move == u64::MAX);
        let from = Board::lan_to_pos(text.substring_char(0, 2));
        let to = Board::lan_to_pos(text.substring_char(2, 4));
        if n == 5 && (text.get_char(4) as u32) < 128 {
            let c = text.get_char(4);
            let letter = c == 'n' || c == 'N' || c == 'b' || c == 'B' || c == 'r' || c == 'R' || c == 'q'
                || c == 'Q';
            if !letter {
                return true;
            }
            return room && from < 64 && to < 64 && self.lookup(from).is_some();
        }
        proof {
            let kw = self.kings[0];
            let kb = self.kings[1];
            assert(((kw & 0x10u64) != 0) == ((kw >> 4u64) & 1u64 == 1u64)) by (bit_vector);
            assert(((kb & 0x1000000000000000u64) != 0) == ((kb >> 60u64) & 1u64 == 1u64)) by (bit_vector);
        }
        let white_home = self.kings[0] & 0x10 != 0;
        let black_home = self.kings[1] & 0x1000000000000000 != 0;
        let castles = (text_is(text, 'e', '1', 'g', '1') && white_home) || (text_is(text, 'e', '1', 'c', '1')
            && white_home) || (text_is(text, 'e', '8', 'g', '8') && black_home) || (text_is(
            text,
            'e',
            '8',
            'c',
            '8',
        ) && black_home);
        if castles {
            return room && (self.en_passant < 64 || self.en_passant == 65);
        }
        if !room || from >= 64 || to >= 64 {
            return false;
        }
        match self.lookup(from) {
            None => false,
            Some((_, pt)) => {
                let ep = self.en_passant;
                let ep_ok = ep < 64 || ep == 65;
                let capture_ok = match self.turn {
                    PieceColor::White => 8 <= ep && ep < 64,
                    PieceColor::Black => ep < 56,
                };
                let is_pawn = match pt {
                    PieceType::Pawn => true,
                    _ => false,
                };
                (!is_pawn || ep_ok) && (!(is_pawn && to == ep as usize) || capture_ok)
            },
        }
    }

    /// The long algebraic notation of a move.
    pub fn move_to_lan(cur_move: &Move) -> (s: String)
        ensures
            s@ == move_lan(*cur_move),
    {
        if cur_move.to == 80 {
            return match cur_move.board.turn.not() {
                PieceColor::White => four_chars('e', '1', 'g', '1'),
                PieceColor::Black => four_chars('e', '8', 'g', '8'),
            };
        } else if cur_move.to == 88 {
            return match cur_move.board.turn.not() {
                PieceColor::White => four_chars('e', '1', 'c', '1'),
                PieceColor::Black => four_chars('e', '8', 'c', '8'),
            };
        }
        let mut out = Board::pos_to_lan(cur_move.from);
        let to = Board::pos_to_lan(cur_move.to);
        out.append(to.as_str());
        match cur_move.promote_to {
            Some(PieceType::Queen) => push_char(&mut out, 'q'),
            Some(PieceType::Rook) => push_char(&mut out, 'r'),
            Some(PieceType::Bishop) => push_char(&mut out, 'b'),
            Some(PieceType::Knight) => push_char(&mut out, 'n'),
            _ => {},
        }
        assert(out@ =~= move_lan(*cur_move));
        out
    }
}

} // verus!
