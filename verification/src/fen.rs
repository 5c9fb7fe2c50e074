//! Reading a position from Forsyth-Edwards Notation.
use vstd::prelude::*;
use crate::bits::{has_bit, sq, lemma_or_bit};
use crate::board::{Board, PieceColor, PieceType, bb, union_of, ep_in_range, NO_EN_PASSANT, same_pieces, lemma_board_ext};
use crate::notation::{lan_valid, lan_square, lower_byte_of};
use crate::tables::ZobristKeys;
use crate::text::{
    split_on, split_spaces, str_chars, is_digit, digit_of, parse_unsigned_spec, parse_unsigned,
    all_digits, decimal_value, unsigned_digits, lemma_split_append, lemma_split_single,
};

verus! {

/// What `char::is_numeric` answers for a character.
pub uninterp spec fn char_is_numeric(c: char) -> bool;

/// Calls `char::is_numeric`, which tells whether the character belongs to one
/// of Unicode's numeric general categories. Among ASCII characters these are
/// exactly the digits 0 to 9.
#[verifier::external_body]
fn is_numeric(c: char) -> (r: bool)
    ensures
        r == char_is_numeric(c),
        (c as int) < 128 ==> r == is_digit(c),
{
    c.is_numeric()
}

/// The index of a piece letter among the twelve bitboards: white pawn,
/// bishop, knight, rook, queen, king, then the same for black.
pub open spec fn piece_index(c: char) -> Option<int> {
    if c == 'P' {
        Some(0)
    } else if c == 'B' {
        Some(1)
    } else if c == 'N' {
        Some(2)
    } else if c == 'R' {
        Some(3)
    } else if c == 'Q' {
        Some(4)
    } else if c == 'K' {
        Some(5)
    } else if c == 'p' {
        Some(6)
    } else if c == 'b' {
        Some(7)
    } else if c == 'n' {
        Some(8)
    } else if c == 'r' {
        Some(9)
    } else if c == 'q' {
        Some(10)
    } else if c == 'k' {
        Some(11)
    } else {
        None
    }
}

/// The index among the twelve bitboards of colour `c` and kind `t`.
pub open spec fn board_index(c: PieceColor, t: PieceType) -> int {
    6 * c.spec_idx() + t.spec_idx()
}

/// Reading the piece-placement field character by character: the twelve
/// bitboards, the current rank and file, and whether reading can go on.
/// `/` moves to the next rank down (failing below the first), a digit skips
/// that many files (another numeric character fails), and any other
/// character occupies the current square (failing off the board) and moves
/// one file on; only the twelve piece letters place a piece. (The only ASCII
/// numeric characters are the digits.)
pub open spec fn placement_scan(s: Seq<char>) -> (Seq<u64>, int, int, bool)
    decreases s.len(),
{
    if s.len() == 0 {
        (Seq::new(12, |i: int| 0u64), 7, 0, true)
    } else {
        let prev = placement_scan(s.drop_last());
        let bbs = prev.0;
        let r = prev.1;
        let f = prev.2;
        let c = s.last();
        if !prev.3 {
            prev
        } else if c == '/' {
            if r == 0 {
                (bbs, r, f, false)
            } else {
                (bbs, r - 1, 0, true)
            }
        } else if is_digit(c) {
            (bbs, r, f + digit_of(c), true)
        } else if (c as int) >= 128 && char_is_numeric(c) {
            (bbs, r, f, false)
        } else if r * 8 + f >= 64 {
            (bbs, r, f, false)
        } else {
            let b2 = match piece_index(c) {
                Some(j) => bbs.update(j, bbs[j] | sq((r * 8 + f) as u64)),
                None => bbs,
            };
            (b2, r, f + 1, true)
        }
    }
}

/// The castling bit a letter of the castling field sets.
pub open spec fn castle_letter_bit(c: char) -> u8 {
    if c == 'Q' {
        8
    } else if c == 'K' {
        4
    } else if c == 'q' {
        2
    } else if c == 'k' {
        1
    } else {
        0
    }
}

/// The castling bits of a castling field.
pub open spec fn castle_field_bits(s: Seq<char>) -> u8
    decreases s.len(),
{
    if s.len() == 0 {
        0
    } else {
        castle_field_bits(s.drop_last()) | castle_letter_bit(s.last())
    }
}

/// Each letter of a castling field sets its own right and nothing else: the
/// rights read hold `Q` (bit 3) exactly when the field has a `Q`, `K` (bit 2)
/// exactly when it has a `K`, `q` (bit 1) exactly when it has a `q`, and `k`
/// (bit 0) exactly when it has a `k`; no higher bit is set.
pub proof fn castling_letters_set_their_rights(s: Seq<char>)
    ensures
        castle_field_bits(s) < 16,
        (castle_field_bits(s) & 8 != 0) == s.contains('Q'),
        (castle_field_bits(s) & 4 != 0) == s.contains('K'),
        (castle_field_bits(s) & 2 != 0) == s.contains('q'),
        (castle_field_bits(s) & 1 != 0) == s.contains('k'),
    decreases s.len(),
{
    if s.len() == 0 {
        assert(castle_field_bits(s) == 0);
        assert(0u8 & 8u8 == 0 && 0u8 & 4u8 == 0 && 0u8 & 2u8 == 0 && 0u8 & 1u8 == 0) by (bit_vector);
    } else {
        let p = s.drop_last();
        let c = s.last();
        castling_letters_set_their_rights(p);
        assert forall|x: char| s.contains(x) == (p.contains(x) || c == x) by {
            if s.contains(x) {
                let i = choose|i: int| 0 <= i < s.len() && s[i] == x;
                if i < s.len() - 1 {
                    assert(p[i] == x);
                }
            }
            if p.contains(x) {
                let i = choose|i: int| 0 <= i < p.len() && p[i] == x;
                assert(s[i] == x);
            }
            if c == x {
                assert(s[s.len() - 1] == x);
            }
        }
        let a = castle_field_bits(p);
        let l = castle_letter_bit(c);
        assert(l == 8 || l == 4 || l == 2 || l == 1 || l == 0);
        assert(a < 16 && (l == 8u8 || l == 4u8 || l == 2u8 || l == 1u8 || l == 0u8) ==> {
            &&& (a | l) < 16
            &&& ((a | l) & 8 != 0) == ((a & 8 != 0) || l == 8)
            &&& ((a | l) & 4 != 0) == ((a & 4 != 0) || l == 4)
            &&& ((a | l) & 2 != 0) == ((a & 2 != 0) || l == 2)
            &&& ((a | l) & 1 != 0) == ((a & 1 != 0) || l == 1)
        }) by (bit_vector);
    }
}

/// A position read from text holds the castling rights its castling field
/// names, each letter its own (`Q` bit 3, `K` bit 2, `q` bit 1, `k` bit 0),
/// none for `-`, with the four copies above them set.
pub proof fn read_position_has_named_rights(s: Seq<char>, keys: ZobristKeys, b: Board)
    requires
        fen_board(s, keys, b),
    ensures
        ({
            let f = split_on(s, ' ')[2];
            let named = !is_dash(f);
            &&& b.castling & 0xf0 == 0xf0
            &&& (b.castling & 8 != 0) == (named && f.contains('Q'))
            &&& (b.castling & 4 != 0) == (named && f.contains('K'))
            &&& (b.castling & 2 != 0) == (named && f.contains('q'))
            &&& (b.castling & 1 != 0) == (named && f.contains('k'))
        }),
{
    let f = split_on(s, ' ')[2];
    castling_letters_set_their_rights(f);
    let x: u8 = if is_dash(f) {
        0u8
    } else {
        castle_field_bits(f)
    };
    assert(x < 16 ==> {
        &&& (0xf0u8 | x) & 0xf0 == 0xf0
        &&& ((0xf0u8 | x) & 8 != 0) == (x & 8 != 0)
        &&& ((0xf0u8 | x) & 4 != 0) == (x & 4 != 0)
        &&& ((0xf0u8 | x) & 2 != 0) == (x & 2 != 0)
        &&& ((0xf0u8 | x) & 1 != 0) == (x & 1 != 0)
    }) by (bit_vector);
    assert(0u8 & 8 == 0 && 0u8 & 4 == 0 && 0u8 & 2 == 0 && 0u8 & 1 == 0) by (bit_vector);
}

/// The one-character field `-`.
pub open spec fn is_dash(s: Seq<char>) -> bool {
    s == seq!['-']
}

/// The texts `Board::new` reads without failing: at least six fields, a
/// readable placement, a readable en-passant square naming a square of the
/// board, and half-move and full-move numbers within their types.
pub open spec fn fen_accepted(s: Seq<char>) -> bool {
    let fields = split_on(s, ' ');
    &&& fields.len() >= 6
    &&& placement_scan(fields[0]).3
    &&& !is_dash(fields[3]) ==> lan_valid(fields[3]) && ep_in_range(lan_square(fields[3]) as u8)
    &&& parse_unsigned_spec(fields[4], u16::MAX as int) is Some
    &&& parse_unsigned_spec(fields[5], u64::MAX as int) is Some
}

/// The position a readable text describes, with no check information and
/// its hash computed from scratch.
pub open spec fn fen_board(s: Seq<char>, keys: ZobristKeys, b: Board) -> bool {
    let fields = split_on(s, ' ');
    let bbs = placement_scan(fields[0]).0;
    &&& forall|c: PieceColor, t: PieceType| #[trigger] bb(b, c, t) == bbs[board_index(c, t)]
    &&& b.turn == (if fields[1] == seq!['w'] {
        PieceColor::White
    } else {
        PieceColor::Black
    })
    &&& b.castling == (0xf0u8 | (if is_dash(fields[2]) {
        0u8
    } else {
        castle_field_bits(fields[2])
    }))
    &&& b.en_passant == (if is_dash(fields[3]) {
        NO_EN_PASSANT
    } else {
        lan_square(fields[3]) as u8
    })
    &&& b.check_real == 0
    &&& b.check_full == 0
    &&& b.half_moves == parse_unsigned_spec(fields[4], u16::MAX as int).unwrap()
    &&& b.full_move == parse_unsigned_spec(fields[5], u64::MAX as int).unwrap()
    &&& b.pieces[0] == union_of(b, PieceColor::White)
    &&& b.pieces[1] == union_of(b, PieceColor::Black)
    &&& b.occupied == b.pieces[0] | b.pieces[1]
    &&& b.zobrist_hash == keys.key(b)
}

/// A readable text describes one position.
pub proof fn lemma_fen_board_unique(s: Seq<char>, keys: ZobristKeys, b1: Board, b2: Board)
    requires
        fen_board(s, keys, b1),
        fen_board(s, keys, b2),
    ensures
        b1 == b2,
{
    assert(same_pieces(b1, b2)) by {
        let bbs = placement_scan(split_on(s, ' ')[0]).0;
        assert forall|c: PieceColor, t: PieceType| #[trigger] bb(b1, c, t) == bb(b2, c, t) by {
            assert(bb(b1, c, t) == bbs[board_index(c, t)]);
            assert(bb(b2, c, t) == bbs[board_index(c, t)]);
        }
    }
    keys.lemma_same_parts(b1, b2);
    lemma_board_ext(b1, b2);
}

/// Reads the piece-placement field into the twelve bitboards.
fn scan_placement(field: &Vec<char>) -> (r: Option<[u64; 12]>)
    ensures
        r is Some == placement_scan(field@).3,
        r is Some ==> r.unwrap()@ == placement_scan(field@).0,
{
    let mut bbs = [0u64; 12];
    let mut r: usize = 7;
    let mut f: usize = 0;
    let mut i: usize = 0;
    assert(bbs@ =~= placement_scan(field@.take(0)).0);
    while i < field.len()
        invariant
            i <= field.len(),
            placement_scan(field@.take(i as int)).3,
            bbs@ == placement_scan(field@.take(i as int)).0,
            r == placement_scan(field@.take(i as int)).1,
            f as int == (if placement_scan(field@.take(i as int)).2 < 64 {
                placement_scan(field@.take(i as int)).2
            } else {
                64
            }),
            0 <= placement_scan(field@.take(i as int)).1 <= 7,
            placement_scan(field@.take(i as int)).2 >= 0,
            bbs@.len() == 12,
        decreases field.len() - i,
    {
        let c = field[i];
        assert(field@.take(i as int + 1).drop_last() =~= field@.take(i as int));
        assert(field@.take(i as int + 1).last() == c);
        if c == '/' {
            if r == 0 {
                proof {
                    lemma_scan_stops(field@, i as int + 1);
                }
                return None;
            }
            r = r - 1;
            f = 0;
        } else if is_numeric(c) {
            if !('0' <= c && c <= '9') {
                proof {
                    lemma_scan_stops(field@, i as int + 1);
                }
                return None;
            }
            let d = (c as u32 - 48) as usize;
            f = if f + d < 64 {
                f + d
            } else {
                64
            };
        } else {
            if r * 8 + f >= 64 {
                proof {
                    lemma_scan_stops(field@, i as int + 1);
                }
                return None;
            }
            let s: u64 = 1u64 << (r * 8 + f);
            let j: usize = if c == 'P' {
                0
            } else if c == 'B' {
                1
            } else if c == 'N' {
                2
            } else if c == 'R' {
                3
            } else if c == 'Q' {
                4
            } else if c == 'K' {
                5
            } else if c == 'p' {
                6
            } else if c == 'b' {
                7
            } else if c == 'n' {
                8
            } else if c == 'r' {
                9
            } else if c == 'q' {
                10
            } else if c == 'k' {
                11
            } else {
                12
            };
            if j < 12 {
                bbs[j] = bbs[j] | s;
            }
            f = f + 1;
            assert(bbs@ =~= placement_scan(field@.take(i as int + 1)).0);
        }
        i = i + 1;
    }
    assert(field@.take(field.len() as int) =~= field@);
    Some(bbs)
}

/// Once reading the placement has failed it stays failed.
proof fn lemma_scan_stops(s: Seq<char>, k: int)
    requires
        0 <= k <= s.len(),
        !placement_scan(s.take(k)).3,
    ensures
        !placement_scan(s).3,
    decreases s.len() - k,
{
    if k < s.len() {
        assert(s.take(k + 1).drop_last() =~= s.take(k));
        lemma_scan_stops(s, k + 1);
    } else {
        assert(s.take(k) =~= s);
    }
}

/// Reads the castling field.
fn castling_bits(field: &Vec<char>) -> (c: u8)
    ensures
        c == castle_field_bits(field@),
{
    let mut castling: u8 = 0;
    let mut i: usize = 0;
    while i < field.len()
        invariant
            i <= field.len(),
            castling == castle_field_bits(field@.take(i as int)),
        decreases field.len() - i,
    {
        let c = field[i];
        assert(field@.take(i as int + 1).drop_last() =~= field@.take(i as int));
        castling = castling | if c == 'Q' {
            8u8
        } else if c == 'K' {
            4u8
        } else if c == 'q' {
            2u8
        } else if c == 'k' {
            1u8
        } else {
            0u8
        };
        i = i + 1;
    }
    assert(field@.take(field.len() as int) =~= field@);
    castling
}

/// Tells whether a field is the single character `c`.
fn field_is(field: &Vec<char>, c: char) -> (r: bool)
    ensures
        r == (field@ == seq![c]),
{
    let r = field.len() == 1 && field[0] == c;
    if r {
        assert(field@ =~= seq![c]);
    }
    r
}

impl Board {
    /// Reads a position from Forsyth-Edwards Notation, or gives `None` for a
    /// text that `Board::new` cannot read.
    pub fn try_new(fen_str: &str, zobrist_keys: &ZobristKeys) -> (r: Option<Board>)
        ensures
            r is Some == fen_accepted(fen_str@),
            r is Some ==> fen_board(fen_str@, *zobrist_keys, r.unwrap()),
    {
        let chars = str_chars(fen_str);
        let fen = split_spaces(&chars);
        let ghost fields = split_on(fen_str@, ' ');
        if fen.len() < 6 {
            return None;
        }
        assert(fen@[0]@ == fields[0]);
        let placed = scan_placement(&fen[0]);
        let bbs = match placed {
            Some(b) => b,
            None => {
                return None;
            },
        };
        assert(fen@[2]@ == fields[2]);
        let castling: u8 = if !field_is(&fen[2], '-') {
            castling_bits(&fen[2])
        } else {
            0
        };
        assert(fen@[3]@ == fields[3]);
        let mut ep: u8 = 65;
        if !field_is(&fen[3], '-') {
            let square = &fen[3];
            assert(square@ == fields[3]);
            assert(!is_dash(fields[3]));
            if square.len() < 2 {
                assert(!lan_valid(fields[3]));
                assert(!fen_accepted(fen_str@));
                return None;
            }
            let c0 = square[0];
            let c1 = square[1];
            let lower = lower_byte_of(c0);
            assert(c0 == fields[3][0] && c1 == fields[3][1]);
            if lower < 97 || !('1' <= c1 && c1 <= '9') {
                assert(!lan_valid(fields[3]));
                assert(!fen_accepted(fen_str@));
                return None;
            }
            let value: u32 = ((c1 as u32) - 49) * 8 + (lower - 97);
            if !(value < 64 || value == 65) {
                return None;
            }
            ep = value as u8;
        }
        assert(fen@[4]@ == fields[4]);
        assert(fen@[5]@ == fields[5]);
        let hm = match parse_unsigned(&fen[4], 0xffff) {
            Some(v) => {
                assert(v <= 0xffff);
                v as u16
            },
            None => {
                return None;
            },
        };
        let fm = match parse_unsigned(&fen[5], 0xffff_ffff_ffff_ffff) {
            Some(v) => {
                assert(v <= 0xffff_ffff_ffff_ffff);
                v as u64
            },
            None => {
                return None;
            },
        };
        assert(fen@[1]@ == fields[1]);
        let turn = if field_is(&fen[1], 'w') {
            PieceColor::White
        } else {
            PieceColor::Black
        };
        let wp = bbs[0];
        let wb = bbs[1];
        let wn = bbs[2];
        let wr = bbs[3];
        let wq = bbs[4];
        let wk = bbs[5];
        let bp = bbs[6];
        let bb_ = bbs[7];
        let bn = bbs[8];
        let br = bbs[9];
        let bq = bbs[10];
        let bk = bbs[11];
        let occupied = wp | wb | wn | wr | wq | wk | bp | bb_ | bn | br | bq | bk;
        let white = wp | wb | wn | wr | wq | wk;
        let black = bp | bb_ | bn | br | bq | bk;
        proof {
            assert(occupied == white | black) by (bit_vector)
                requires
                    occupied == wp | wb | wn | wr | wq | wk | bp | bb_ | bn | br | bq | bk,
                    white == wp | wb | wn | wr | wq | wk,
                    black == bp | bb_ | bn | br | bq | bk,
            ;
        }
        let mut new_board = Board {
            pawns: [wp, bp],
            bishops: [wb, bb_],
            knights: [wn, bn],
            rooks: [wr, br],
            queens: [wq, bq],
            kings: [wk, bk],
            turn: turn,
            castling: 0b1111_0000 | castling,
            en_passant: ep,
            check_real: 0,
            check_full: 0,
            half_moves: hm,
            full_move: fm,
            occupied: occupied,
            pieces: [white, black],
            zobrist_hash: 0,
        };
        let ghost before = new_board;
        new_board.zobrist_hash = zobrist_keys.get_key(new_board);
        proof {
            zobrist_keys.lemma_same_parts(before, new_board);
            assert(hm as int == parse_unsigned_spec(fields[4], u16::MAX as int).unwrap());
            assert(fm as int == parse_unsigned_spec(fields[5], u64::MAX as int).unwrap());
            assert forall|c: PieceColor, t: PieceType| #[trigger] bb(new_board, c, t) == bbs@[board_index(c, t)] by {
            }
        }
        Some(new_board)
    }

    /// Reads a position from Forsyth-Edwards Notation. The check fields are
    /// left empty; finding checks is the move generator's work.
    pub fn new(fen_str: &str, zobrist_keys: &ZobristKeys) -> (b: Board)
        requires
            fen_accepted(fen_str@),
        ensures
            fen_board(fen_str@, *zobrist_keys, b),
    {
        match Board::try_new(fen_str, zobrist_keys) {
            Some(b) => b,
            None => {
                assert(false);
                Board::try_new(fen_str, zobrist_keys).unwrap()
            },
        }
    }
}

#[verifier::rlimit(50)]
/// The fields of the starting position's text.
proof fn lemma_start_fields()
    ensures split_on("rnbqkbnr/pppppppp/8/8/8/8/PPPPPPPP/RNBQKBNR w KQkq - 0 1"@, ' ') == seq!["rnbqkbnr/pppppppp/8/8/8/8/PPPPPPPP/RNBQKBNR"@, "w"@, "KQkq"@, "-"@, "0"@, "1"@],
{
    let s = "rnbqkbnr/pppppppp/8/8/8/8/PPPPPPPP/RNBQKBNR w KQkq - 0 1"@;
    let f0 = "rnbqkbnr/pppppppp/8/8/8/8/PPPPPPPP/RNBQKBNR"@;
    let f1 = "w"@; let f2 = "KQkq"@; let f3 = "-"@; let f4 = "0"@; let f5 = "1"@;
    reveal_strlit("rnbqkbnr/pppppppp/8/8/8/8/PPPPPPPP/RNBQKBNR w KQkq - 0 1");
    reveal_strlit("rnbqkbnr/pppppppp/8/8/8/8/PPPPPPPP/RNBQKBNR");
    reveal_strlit("w"); reveal_strlit("KQkq"); reveal_strlit("-"); reveal_strlit("0"); reveal_strlit("1");
    let sp = seq![' '];
    assert(s =~= f0 + sp + f1 + sp + f2 + sp + f3 + sp + f4 + sp + f5);
    lemma_split_single(f0, ' ');
    lemma_split_append(f0, f1, ' ');
    lemma_split_append(f0 + sp + f1, f2, ' ');
    lemma_split_append(f0 + sp + f1 + sp + f2, f3, ' ');
    lemma_split_append(f0 + sp + f1 + sp + f2 + sp + f3, f4, ' ');
    lemma_split_append(f0 + sp + f1 + sp + f2 + sp + f3 + sp + f4, f5, ' ');
    assert(split_on(s, ' ') =~= seq![f0, f1, f2, f3, f4, f5]);
}

#[verifier::rlimit(100)]
/// The starting position's placement reads without failing.
proof fn lemma_start_placement()
    ensures placement_scan("rnbqkbnr/pppppppp/8/8/8/8/PPPPPPPP/RNBQKBNR"@).3,
{
    let f0 = "rnbqkbnr/pppppppp/8/8/8/8/PPPPPPPP/RNBQKBNR"@;
    reveal_strlit("rnbqkbnr/pppppppp/8/8/8/8/PPPPPPPP/RNBQKBNR");
    assert(f0.take(0) =~= Seq::<char>::empty());
    assert(placement_scan(f0.take(0)).3);
    assert(placement_scan(f0.take(0)).1 == 7);
    assert(!is_digit('r'));
    assert(('r' as int) < 128);
    assert('r' != '/');
    assert(f0.take(1).drop_last() =~= f0.take(0));
    assert(f0.take(1).last() == 'r');
    assert(placement_scan(f0.take(1)).1 == 7 && placement_scan(f0.take(1)).2 == 1 && placement_scan(f0.take(1)).3);
    assert(f0.take(2).drop_last() =~= f0.take(1));
    assert(f0.take(2).last() == 'n');
    assert(placement_scan(f0.take(2)).1 == 7 && placement_scan(f0.take(2)).2 == 2 && placement_scan(f0.take(2)).3);
    assert(f0.take(3).drop_last() =~= f0.take(2));
    assert(f0.take(3).last() == 'b');
    assert(placement_scan(f0.take(3)).1 == 7 && placement_scan(f0.take(3)).2 == 3 && placement_scan(f0.take(3)).3);
    assert(f0.take(4).drop_last() =~= f0.take(3));
    assert(f0.take(4).last() == 'q');
    assert(placement_scan(f0.take(4)).1 == 7 && placement_scan(f0.take(4)).2 == 4 && placement_scan(f0.take(4)).3);
    assert(f0.take(5).drop_last() =~= f0.take(4));
    assert(f0.take(5).last() == 'k');
    assert(placement_scan(f0.take(5)).1 == 7 && placement_scan(f0.take(5)).2 == 5 && placement_scan(f0.take(5)).3);
    assert(f0.take(6).drop_last() =~= f0.take(5));
    assert(f0.take(6).last() == 'b');
    assert(placement_scan(f0.take(6)).1 == 7 && placement_scan(f0.take(6)).2 == 6 && placement_scan(f0.take(6)).3);
    assert(f0.take(7).drop_last() =~= f0.take(6));
    assert(f0.take(7).last() == 'n');
    assert(placement_scan(f0.take(7)).1 == 7 && placement_scan(f0.take(7)).2 == 7 && placement_scan(f0.take(7)).3);
    assert(f0.take(8).drop_last() =~= f0.take(7));
    assert(f0.take(8).last() == 'r');
    assert(placement_scan(f0.take(8)).1 == 7 && placement_scan(f0.take(8)).2 == 8 && placement_scan(f0.take(8)).3);
    assert(f0.take(9).drop_last() =~= f0.take(8));
    assert(f0.take(9).last() == '/');
    assert(placement_scan(f0.take(9)).1 == 6 && placement_scan(f0.take(9)).2 == 0 && placement_scan(f0.take(9)).3);
    assert(f0.take(10).drop_last() =~= f0.take(9));
    assert(f0.take(10).last() == 'p');
    assert(placement_scan(f0.take(10)).1 == 6 && placement_scan(f0.take(10)).2 == 1 && placement_scan(f0.take(10)).3);
    assert(f0.take(11).drop_last() =~= f0.take(10));
    assert(f0.take(11).last() == 'p');
    assert(placement_scan(f0.take(11)).1 == 6 && placement_scan(f0.take(11)).2 == 2 && placement_scan(f0.take(11)).3);
    assert(f0.take(12).drop_last() =~= f0.take(11));
    assert(f0.take(12).last() == 'p');
    assert(placement_scan(f0.take(12)).1 == 6 && placement_scan(f0.take(12)).2 == 3 && placement_scan(f0.take(12)).3);
    assert(f0.take(13).drop_last() =~= f0.take(12));
    assert(f0.take(13).last() == 'p');
    assert(placement_scan(f0.take(13)).1 == 6 && placement_scan(f0.take(13)).2 == 4 && placement_scan(f0.take(13)).3);
    assert(f0.take(14).drop_last() =~= f0.take(13));
    assert(f0.take(14).last() == 'p');
    assert(placement_scan(f0.take(14)).1 == 6 && placement_scan(f0.take(14)).2 == 5 && placement_scan(f0.take(14)).3);
    assert(f0.take(15).drop_last() =~= f0.take(14));
    assert(f0.take(15).last() == 'p');
    assert(placement_scan(f0.take(15)).1 == 6 && placement_scan(f0.take(15)).2 == 6 && placement_scan(f0.take(15)).3);
    assert(f0.take(16).drop_last() =~= f0.take(15));
    assert(f0.take(16).last() == 'p');
    assert(placement_scan(f0.take(16)).1 == 6 && placement_scan(f0.take(16)).2 == 7 && placement_scan(f0.take(16)).3);
    assert(f0.take(17).drop_last() =~= f0.take(16));
    assert(f0.take(17).last() == 'p');
    assert(placement_scan(f0.take(17)).1 == 6 && placement_scan(f0.take(17)).2 == 8 && placement_scan(f0.take(17)).3);
    assert(f0.take(18).drop_last() =~= f0.take(17));
    assert(f0.take(18).last() == '/');
    assert(placement_scan(f0.take(18)).1 == 5 && placement_scan(f0.take(18)).2 == 0 && placement_scan(f0.take(18)).3);
    assert(f0.take(19).drop_last() =~= f0.take(18));
    assert(f0.take(19).last() == '8');
    assert(placement_scan(f0.take(19)).1 == 5 && placement_scan(f0.take(19)).2 == 8 && placement_scan(f0.take(19)).3);
    assert(f0.take(20).drop_last() =~= f0.take(19));
    assert(f0.take(20).last() == '/');
    assert(placement_scan(f0.take(20)).1 == 4 && placement_scan(f0.take(20)).2 == 0 && placement_scan(f0.take(20)).3);
    assert(f0.take(21).drop_last() =~= f0.take(20));
    assert(f0.take(21).last() == '8');
    assert(placement_scan(f0.take(21)).1 == 4 && placement_scan(f0.take(21)).2 == 8 && placement_scan(f0.take(21)).3);
    assert(f0.take(22).drop_last() =~= f0.take(21));
    assert(f0.take(22).last() == '/');
    assert(placement_scan(f0.take(22)).1 == 3 && placement_scan(f0.take(22)).2 == 0 && placement_scan(f0.take(22)).3);
    assert(f0.take(23).drop_last() =~= f0.take(22));
    assert(f0.take(23).last() == '8');
    assert(placement_scan(f0.take(23)).1 == 3 && placement_scan(f0.take(23)).2 == 8 && placement_scan(f0.take(23)).3);
    assert(f0.take(24).drop_last() =~= f0.take(23));
    assert(f0.take(24).last() == '/');
    assert(placement_scan(f0.take(24)).1 == 2 && placement_scan(f0.take(24)).2 == 0 && placement_scan(f0.take(24)).3);
    assert(f0.take(25).drop_last() =~= f0.take(24));
    assert(f0.take(25).last() == '8');
    assert(placement_scan(f0.take(25)).1 == 2 && placement_scan(f0.take(25)).2 == 8 && placement_scan(f0.take(25)).3);
    assert(f0.take(26).drop_last() =~= f0.take(25));
    assert(f0.take(26).last() == '/');
    assert(placement_scan(f0.take(26)).1 == 1 && placement_scan(f0.take(26)).2 == 0 && placement_scan(f0.take(26)).3);
    assert(f0.take(27).drop_last() =~= f0.take(26));
    assert(f0.take(27).last() == 'P');
    assert(placement_scan(f0.take(27)).1 == 1 && placement_scan(f0.take(27)).2 == 1 && placement_scan(f0.take(27)).3);
    assert(f0.take(28).drop_last() =~= f0.take(27));
    assert(f0.take(28).last() == 'P');
    assert(placement_scan(f0.take(28)).1 == 1 && placement_scan(f0.take(28)).2 == 2 && placement_scan(f0.take(28)).3);
    assert(f0.take(29).drop_last() =~= f0.take(28));
    assert(f0.take(29).last() == 'P');
    assert(placement_scan(f0.take(29)).1 == 1 && placement_scan(f0.take(29)).2 == 3 && placement_scan(f0.take(29)).3);
    assert(f0.take(30).drop_last() =~= f0.take(29));
    assert(f0.take(30).last() == 'P');
    assert(placement_scan(f0.take(30)).1 == 1 && placement_scan(f0.take(30)).2 == 4 && placement_scan(f0.take(30)).3);
    assert(f0.take(31).drop_last() =~= f0.take(30));
    assert(f0.take(31).last() == 'P');
    assert(placement_scan(f0.take(31)).1 == 1 && placement_scan(f0.take(31)).2 == 5 && placement_scan(f0.take(31)).3);
    assert(f0.take(32).drop_last() =~= f0.take(31));
    assert(f0.take(32).last() == 'P');
    assert(placement_scan(f0.take(32)).1 == 1 && placement_scan(f0.take(32)).2 == 6 && placement_scan(f0.take(32)).3);
    assert(f0.take(33).drop_last() =~= f0.take(32));
    assert(f0.take(33).last() == 'P');
    assert(placement_scan(f0.take(33)).1 == 1 && placement_scan(f0.take(33)).2 == 7 && placement_scan(f0.take(33)).3);
    assert(f0.take(34).drop_last() =~= f0.take(33));
    assert(f0.take(34).last() == 'P');
    assert(placement_scan(f0.take(34)).1 == 1 && placement_scan(f0.take(34)).2 == 8 && placement_scan(f0.take(34)).3);
    assert(f0.take(35).drop_last() =~= f0.take(34));
    assert(f0.take(35).last() == '/');
    assert(placement_scan(f0.take(35)).1 == 0 && placement_scan(f0.take(35)).2 == 0 && placement_scan(f0.take(35)).3);
    assert(f0.take(36).drop_last() =~= f0.take(35));
    assert(f0.take(36).last() == 'R');
    assert(placement_scan(f0.take(36)).1 == 0 && placement_scan(f0.take(36)).2 == 1 && placement_scan(f0.take(36)).3);
    assert(f0.take(37).drop_last() =~= f0.take(36));
    assert(f0.take(37).last() == 'N');
    assert(placement_scan(f0.take(37)).1 == 0 && placement_scan(f0.take(37)).2 == 2 && placement_scan(f0.take(37)).3);
    assert(f0.take(38).drop_last() =~= f0.take(37));
    assert(f0.take(38).last() == 'B');
    assert(placement_scan(f0.take(38)).1 == 0 && placement_scan(f0.take(38)).2 == 3 && placement_scan(f0.take(38)).3);
    assert(f0.take(39).drop_last() =~= f0.take(38));
    assert(f0.take(39).last() == 'Q');
    assert(placement_scan(f0.take(39)).1 == 0 && placement_scan(f0.take(39)).2 == 4 && placement_scan(f0.take(39)).3);
    assert(f0.take(40).drop_last() =~= f0.take(39));
    assert(f0.take(40).last() == 'K');
    assert(placement_scan(f0.take(40)).1 == 0 && placement_scan(f0.take(40)).2 == 5 && placement_scan(f0.take(40)).3);
    assert(f0.take(41).drop_last() =~= f0.take(40));
    assert(f0.take(41).last() == 'B');
    assert(placement_scan(f0.take(41)).1 == 0 && placement_scan(f0.take(41)).2 == 6 && placement_scan(f0.take(41)).3);
    assert(f0.take(42).drop_last() =~= f0.take(41));
    assert(f0.take(42).last() == 'N');
    assert(placement_scan(f0.take(42)).1 == 0 && placement_scan(f0.take(42)).2 == 7 && placement_scan(f0.take(42)).3);
    assert(f0.take(43).drop_last() =~= f0.take(42));
    assert(f0.take(43).last() == 'R');
    assert(placement_scan(f0.take(43)).1 == 0 && placement_scan(f0.take(43)).2 == 8 && placement_scan(f0.take(43)).3);
    assert(f0.take(43) =~= f0);
}

/// The text of the starting position is accepted by `Board::new`.
pub proof fn lemma_start_position_accepted()
    ensures fen_accepted("rnbqkbnr/pppppppp/8/8/8/8/PPPPPPPP/RNBQKBNR w KQkq - 0 1"@),
{
    lemma_start_fields();
    lemma_start_placement();
    reveal_strlit("-"); reveal_strlit("0"); reveal_strlit("1");
    assert(all_digits(Seq::<char>::empty()));
    assert(decimal_value(Seq::<char>::empty()) == 0);
    assert("0"@.len() == 1);
    assert("0"@[0] == '0');
    assert("0"@.last() == '0');
    assert(is_digit('0'));
    assert("0"@.drop_last() =~= Seq::<char>::empty());
    assert("1"@.drop_last() =~= Seq::<char>::empty());
    assert(all_digits("0"@));
    assert(all_digits("1"@));
    assert(decimal_value("0"@) == 0);
    assert(decimal_value("1"@) == 1) by {
        assert("1"@.drop_last() =~= Seq::<char>::empty());
    }
    assert("-"@ =~= seq!['-']);
    assert(unsigned_digits("0"@) == "0"@);
    assert(unsigned_digits("1"@) == "1"@);
    assert(parse_unsigned_spec("0"@, u16::MAX as int) is Some);
    assert(parse_unsigned_spec("1"@, u64::MAX as int) is Some);
    let fields = split_on("rnbqkbnr/pppppppp/8/8/8/8/PPPPPPPP/RNBQKBNR w KQkq - 0 1"@, ' ');
    assert(fields[0] == "rnbqkbnr/pppppppp/8/8/8/8/PPPPPPPP/RNBQKBNR"@);
    assert(fields[3] == "-"@);
    assert(fields[4] == "0"@);
    assert(fields[5] == "1"@);
}

} // verus!
