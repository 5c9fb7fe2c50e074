//! Zobrist keys and the hash of a position, and the entries of the
//! transposition table.
use vstd::prelude::*;
use std::collections::hash_map::{DefaultHasher, RandomState};
use std::hash::{BuildHasher, Hasher};
use crate::bits::{has_bit, sq, lemma_xor_bit, lemma_xor_set_bit_decreases, lemma_zero_no_bit, lemma_set_bit, lemma_clear_bit, lemma_xor_assoc, lemma_xor_comm, lemma_xor_unit, lemma_xor_swap};
use crate::board::{Board, Move, PieceColor, PieceType, bb, color_of_idx, type_of_idx, only_board_changed, ep_in_range};

verus! {

/// How an entry's evaluation bounds the true score.
pub enum Flag {
    EXACT,
    ALPHA,
    BETA,
}

/// A transposition-table entry.
pub struct Entry {
    pub zobrist_hash: u64,
    pub depth: usize,
    pub flag: Flag,
    pub eval: i32,
    pub move_info: Move,
}

/// The random keys from which position hashes are built: one per colour,
/// piece kind and square, one per castling-rights pair of each side, one per
/// en-passant square and one for black to move.
#[derive(Debug)]
pub struct ZobristKeys {
    pub pawns: [[u64; 64]; 2],
    pub bishops: [[u64; 64]; 2],
    pub knights: [[u64; 64]; 2],
    pub rooks: [[u64; 64]; 2],
    pub queens: [[u64; 64]; 2],
    pub kings: [[u64; 64]; 2],
    pub white_castling_rights: [u64; 4],
    pub black_castling_rights: [u64; 4],
    pub en_passant: [u64; 64],
    pub black_turn: u64,
}

/// The exclusive-or of `table[i]` over the squares `i < n` set in `bb`.
pub open spec fn xor_bits(bb: u64, table: Seq<u64>, n: nat) -> u64
    decreases n,
{
    if n == 0 {
        0
    } else {
        let rest = xor_bits(bb, table, (n - 1) as nat);
        if has_bit(bb, (n - 1) as u64) {
            rest ^ table[n - 1]
        } else {
            rest
        }
    }
}

/// The exclusive-or of `table[i]` over all squares `i` set in `bb`.
pub open spec fn board_key(bb: u64, table: Seq<u64>) -> u64 {
    xor_bits(bb, table, 64)
}

/// The twelve bitboards of `b` as a function of colour and kind.
pub open spec fn board_fn(b: Board) -> spec_fn(PieceColor, PieceType) -> u64 {
    |c: PieceColor, t: PieceType| bb(b, c, t)
}

/// The exclusive-or of all elements of `s`, folded from the left.
pub open spec fn xor_all(s: Seq<u64>) -> u64
    decreases s.len(),
{
    if s.len() == 0 {
        0
    } else {
        xor_all(s.drop_last()) ^ s.last()
    }
}

/// Index of the castling key of the white side for the rights `c`.
pub open spec fn white_castle_index(c: u8) -> int {
    ((c & 12u8) >> 2u8) as int
}

/// Index of the castling key of the black side for the rights `c`.
pub open spec fn black_castle_index(c: u8) -> int {
    (c & 3u8) as int
}

impl ZobristKeys {
    /// The keys of colour `c` and kind `t`, indexed by square.
    pub open spec fn table(&self, c: PieceColor, t: PieceType) -> Seq<u64> {
        let i = c.spec_idx();
        match t {
            PieceType::Pawn => self.pawns[i]@,
            PieceType::Bishop => self.bishops[i]@,
            PieceType::Knight => self.knights[i]@,
            PieceType::Rook => self.rooks[i]@,
            PieceType::Queen => self.queens[i]@,
            PieceType::King => self.kings[i]@,
        }
    }

    /// The hash contributions of the twelve bitboards given by `f`, in the
    /// order pawns, bishops, knights, rooks, queens, kings, white before black.
    pub open spec fn terms_of(&self, f: spec_fn(PieceColor, PieceType) -> u64) -> Seq<u64> {
        Seq::new(
            12,
            |j: int|
                board_key(
                    f(color_of_idx(j % 2), type_of_idx(j / 2)),
                    self.table(color_of_idx(j % 2), type_of_idx(j / 2)),
                ),
        )
    }

    /// The hash contribution of the twelve bitboards given by `f`.
    pub open spec fn pieces_key(&self, f: spec_fn(PieceColor, PieceType) -> u64) -> u64 {
        xor_all(self.terms_of(f))
    }

    /// The hash contributions of the twelve piece bitboards of `b`.
    pub open spec fn piece_terms(&self, b: Board) -> Seq<u64> {
        self.terms_of(board_fn(b))
    }

    /// The hash contribution of the castling rights `c`.
    pub open spec fn castle_term(&self, c: u8) -> u64 {
        self.white_castling_rights[white_castle_index(c)] ^ self.black_castling_rights[black_castle_index(c)]
    }

    /// The hash contribution of the en-passant square `ep` (none for 65).
    pub open spec fn ep_term(&self, ep: u8) -> u64 {
        if ep != 65 {
            self.en_passant[ep as int]
        } else {
            0
        }
    }

    /// The hash contribution of the side to move.
    pub open spec fn turn_term(&self, turn: PieceColor) -> u64 {
        if turn == PieceColor::Black {
            self.black_turn
        } else {
            0
        }
    }

    /// The Zobrist hash of a position.
    pub open spec fn key(&self, b: Board) -> u64 {
        (((xor_all(self.piece_terms(b)) ^ self.white_castling_rights[white_castle_index(
            b.castling,
        )]) ^ self.black_castling_rights[black_castle_index(b.castling)]) ^ self.ep_term(
            b.en_passant,
        )) ^ self.turn_term(b.turn)
    }

    /// The hash of a position without its castling contribution.
    pub open spec fn key_without_castling(&self, b: Board) -> u64 {
        (xor_all(self.piece_terms(b)) ^ self.ep_term(b.en_passant)) ^ self.turn_term(b.turn)
    }
}

/// `b2` is `b1` with exactly square `pos` flipped.
pub open spec fn toggled(b1: u64, b2: u64, pos: u64) -> bool {
    forall|i: u64| i < 64 ==> #[trigger] has_bit(b2, i) == (if i == pos {
        !has_bit(b1, i)
    } else {
        has_bit(b1, i)
    })
}

/// Flipping one square flips its key in the fold over the squares below `n`.
pub proof fn lemma_xor_bits_toggle(b1: u64, b2: u64, table: Seq<u64>, pos: u64, n: nat)
    requires
        pos < 64,
        n <= 64,
        toggled(b1, b2, pos),
    ensures
        xor_bits(b2, table, n) == (if (pos as int) < n {
            xor_bits(b1, table, n) ^ table[pos as int]
        } else {
            xor_bits(b1, table, n)
        }),
    decreases n,
{
    if n > 0 {
        let m = (n - 1) as nat;
        lemma_xor_bits_toggle(b1, b2, table, pos, m);
        let r1 = xor_bits(b1, table, m);
        let t = table[pos as int];
        let tm = table[m as int];
        assert(has_bit(b2, m as u64) == (if m as u64 == pos {
            !has_bit(b1, m as u64)
        } else {
            has_bit(b1, m as u64)
        }));
        lemma_xor_unit(r1, t);
        lemma_xor_swap(r1, t, tm);
        lemma_xor_swap(r1, tm, t);
    }
}

/// Setting a square that was empty flips exactly that square.
pub proof fn lemma_set_toggles(b: u64, pos: u64)
    requires
        pos < 64,
        !has_bit(b, pos),
    ensures
        toggled(b, b | sq(pos), pos),
{
    assert forall|i: u64| i < 64 implies #[trigger] has_bit(b | sq(pos), i) == (if i == pos {
        !has_bit(b, i)
    } else {
        has_bit(b, i)
    }) by {
        lemma_set_bit(b, pos, i);
    }
}

/// Clearing a square that was occupied flips exactly that square.
pub proof fn lemma_clear_toggles(b: u64, pos: u64)
    requires
        pos < 64,
        has_bit(b, pos),
    ensures
        toggled(b, b & !sq(pos), pos),
{
    assert forall|i: u64| i < 64 implies #[trigger] has_bit(b & !sq(pos), i) == (if i == pos {
        !has_bit(b, i)
    } else {
        has_bit(b, i)
    }) by {
        lemma_clear_bit(b, pos, i);
    }
}

/// Changing one element of a fold by `k` changes the fold by `k`.
pub proof fn lemma_xor_all_update(s: Seq<u64>, j: int, k: u64)
    requires
        0 <= j < s.len(),
    ensures
        xor_all(s.update(j, s[j] ^ k)) == xor_all(s) ^ k,
    decreases s.len(),
{
    let s2 = s.update(j, s[j] ^ k);
    let x = xor_all(s.drop_last());
    if j == s.len() - 1 {
        assert(s2.drop_last() =~= s.drop_last());
        lemma_xor_assoc(x, s.last(), k);
    } else {
        lemma_xor_all_update(s.drop_last(), j, k);
        assert(s2.drop_last() =~= s.drop_last().update(j, s[j] ^ k));
        lemma_xor_swap(x, k, s.last());
    }
}

/// The position of a colour and kind among the twelve piece terms.
proof fn lemma_type_color_index(c: PieceColor, t: PieceType)
    ensures
        ({
            let j = 2 * t.spec_idx() + c.spec_idx();
            &&& 0 <= j < 12
            &&& color_of_idx(j % 2) == c
            &&& type_of_idx(j / 2) == t
        }),
{
}

impl ZobristKeys {
    /// Bitboard functions that agree everywhere give the same contribution.
    pub proof fn lemma_pieces_ext(&self, f: spec_fn(PieceColor, PieceType) -> u64, g: spec_fn(PieceColor, PieceType) -> u64)
        requires
            forall|c: PieceColor, t: PieceType| #[trigger] f(c, t) == g(c, t),
        ensures
            self.pieces_key(f) == self.pieces_key(g),
    {
        assert(self.terms_of(f) =~= self.terms_of(g)) by {
            assert forall|i: int| 0 <= i < 12 implies self.terms_of(f)[i] == self.terms_of(g)[i] by {
                assert(f(color_of_idx(i % 2), type_of_idx(i / 2)) == g(color_of_idx(i % 2), type_of_idx(i / 2)));
            }
        }
    }

    /// Flipping square `pos` of the bitboard of colour `c` and kind `t`
    /// changes the contribution by the key of that piece on `pos`.
    pub proof fn lemma_pieces_toggle(
        &self,
        f1: spec_fn(PieceColor, PieceType) -> u64,
        f2: spec_fn(PieceColor, PieceType) -> u64,
        c: PieceColor,
        t: PieceType,
        pos: u64,
    )
        requires
            pos < 64,
            toggled(f1(c, t), f2(c, t), pos),
            forall|c2: PieceColor, t2: PieceType| (c2 != c || t2 != t) ==> #[trigger] f2(c2, t2) == f1(c2, t2),
        ensures
            self.pieces_key(f2) == self.pieces_key(f1) ^ self.table(c, t)[pos as int],
    {
        let k = self.table(c, t)[pos as int];
        let j = 2 * t.spec_idx() + c.spec_idx();
        lemma_type_color_index(c, t);
        let s1 = self.terms_of(f1);
        let s2 = self.terms_of(f2);
        lemma_xor_bits_toggle(f1(c, t), f2(c, t), self.table(c, t), pos, 64);
        assert forall|i: int| 0 <= i < 12 && i != j implies s2[i] == s1[i] by {
            let ci = color_of_idx(i % 2);
            let ti = type_of_idx(i / 2);
            assert(ci != c || ti != t);
            assert(f2(ci, ti) == f1(ci, ti));
        }
        assert(s2 =~= s1.update(j, s1[j] ^ k));
        lemma_xor_all_update(s1, j, k);
    }
}

impl ZobristKeys {
    /// The hash is its castling-free part combined with the castling term.
    pub proof fn lemma_key_split(&self, b: Board)
        ensures
            self.key(b) == self.key_without_castling(b) ^ self.castle_term(b.castling),
    {
        let p = xor_all(self.piece_terms(b));
        let w = self.white_castling_rights[white_castle_index(b.castling)];
        let k = self.black_castling_rights[black_castle_index(b.castling)];
        let e = self.ep_term(b.en_passant);
        let t = self.turn_term(b.turn);
        assert((((p ^ w) ^ k) ^ e) ^ t == ((p ^ e) ^ t) ^ (w ^ k)) by (bit_vector);
    }
}

/// Both castling key indices are below four.
pub proof fn lemma_castle_index_bounds(c: u8)
    ensures
        0 <= white_castle_index(c) < 4,
        0 <= black_castle_index(c) < 4,
{
    assert((c & 12u8) >> 2u8 < 4u8 && c & 3u8 < 4u8) by (bit_vector);
}

impl ZobristKeys {
    /// Positions with the same bitboards, en-passant square and side to move
    /// have the same castling-free hash.
    pub proof fn lemma_same_parts(&self, b1: Board, b2: Board)
        requires
            forall|c: PieceColor, t: PieceType| #[trigger] bb(b1, c, t) == bb(b2, c, t),
            b1.en_passant == b2.en_passant,
            b1.turn == b2.turn,
        ensures
            self.key_without_castling(b1) == self.key_without_castling(b2),
            self.piece_terms(b1) == self.piece_terms(b2),
    {
        assert(self.piece_terms(b1) =~= self.piece_terms(b2)) by {
            assert forall|i: int| 0 <= i < 12 implies self.piece_terms(b1)[i] == self.piece_terms(b2)[i] by {
                assert(bb(b1, color_of_idx(i % 2), type_of_idx(i / 2)) == bb(b2, color_of_idx(i % 2), type_of_idx(i / 2)));
            }
        }
    }
}

/// The fold over an empty bitboard is zero.
pub proof fn lemma_xor_bits_empty(table: Seq<u64>, n: nat)
    ensures
        xor_bits(0u64, table, n) == 0,
    decreases n,
{
    if n > 0 {
        lemma_xor_bits_empty(table, (n - 1) as nat);
        lemma_zero_no_bit((n - 1) as u64);
    }
}

/// The fold of a twelve-element sequence, spelled out.
proof fn lemma_xor_all_12(s: Seq<u64>)
    requires
        s.len() == 12,
    ensures
        xor_all(s) == (((((((((((0u64 ^ s[0]) ^ s[1]) ^ s[2]) ^ s[3]) ^ s[4]) ^ s[5]) ^ s[6]) ^ s[7])
            ^ s[8]) ^ s[9]) ^ s[10]) ^ s[11],
{
    assert(xor_all(s.take(0)) == 0);
    assert(s.take(1).drop_last() =~= s.take(0));
    assert(xor_all(s.take(1)) == xor_all(s.take(0)) ^ s[0]);
    assert(s.take(2).drop_last() =~= s.take(1));
    assert(xor_all(s.take(2)) == xor_all(s.take(1)) ^ s[1]);
    assert(s.take(3).drop_last() =~= s.take(2));
    assert(xor_all(s.take(3)) == xor_all(s.take(2)) ^ s[2]);
    assert(s.take(4).drop_last() =~= s.take(3));
    assert(xor_all(s.take(4)) == xor_all(s.take(3)) ^ s[3]);
    assert(s.take(5).drop_last() =~= s.take(4));
    assert(xor_all(s.take(5)) == xor_all(s.take(4)) ^ s[4]);
    assert(s.take(6).drop_last() =~= s.take(5));
    assert(xor_all(s.take(6)) == xor_all(s.take(5)) ^ s[5]);
    assert(s.take(7).drop_last() =~= s.take(6));
    assert(xor_all(s.take(7)) == xor_all(s.take(6)) ^ s[6]);
    assert(s.take(8).drop_last() =~= s.take(7));
    assert(xor_all(s.take(8)) == xor_all(s.take(7)) ^ s[7]);
    assert(s.take(9).drop_last() =~= s.take(8));
    assert(xor_all(s.take(9)) == xor_all(s.take(8)) ^ s[8]);
    assert(s.take(10).drop_last() =~= s.take(9));
    assert(xor_all(s.take(10)) == xor_all(s.take(9)) ^ s[9]);
    assert(s.take(11).drop_last() =~= s.take(10));
    assert(xor_all(s.take(11)) == xor_all(s.take(10)) ^ s[10]);
    assert(s.take(12).drop_last() =~= s.take(11));
    assert(xor_all(s.take(12)) == xor_all(s.take(11)) ^ s[11]);
    assert(s.take(12) =~= s);
}

/// Adds to `zorb` the keys of every square set in each of the two
/// bitboards, white's first.
fn xor_board(zorb: &mut u64, bitboards: [u64; 2], keys: [[u64; 64]; 2])
    ensures
        *final(zorb) == (*old(zorb) ^ board_key(bitboards[0], keys[0]@)) ^ board_key(bitboards[1], keys[1]@),
{
    let mut color: usize = 0;
    while color < 2
        invariant
            color <= 2,
            color == 0 ==> *zorb == *old(zorb),
            color == 1 ==> *zorb == *old(zorb) ^ board_key(bitboards[0], keys[0]@),
            color == 2 ==> *zorb == (*old(zorb) ^ board_key(bitboards[0], keys[0]@)) ^ board_key(bitboards[1], keys[1]@),
        decreases 2 - color,
    {
        let mut bitboard = bitboards[color];
        let ghost start = *zorb;
        let ghost table = keys[color as int]@;
        while bitboard != 0
            invariant
                color < 2,
                table == keys[color as int]@,
                table.len() == 64,
                *zorb ^ board_key(bitboard, table) == start ^ board_key(bitboards[color as int], table),
            decreases bitboard,
        {
            proof {
                vstd::std_specs::bits::axiom_u64_trailing_zeros(bitboard);
            }
            let i = bitboard.trailing_zeros() as usize;
            let ghost old_zorb = *zorb;
            let ghost old_bb = bitboard;
            *zorb = *zorb ^ keys[color][i];
            proof {
                assert(has_bit(old_bb, i as u64));
                lemma_xor_set_bit_decreases(old_bb, i as u64);
                assert forall|j: u64| j < 64 implies #[trigger] has_bit(old_bb ^ sq(i as u64), j) == (if j == i as u64 {
                    !has_bit(old_bb, j)
                } else {
                    has_bit(old_bb, j)
                }) by {
                    lemma_xor_bit(old_bb, i as u64, j);
                }
                lemma_xor_bits_toggle(old_bb, old_bb ^ sq(i as u64), table, i as u64, 64);
                let k = table[i as int];
                let bk = board_key(old_bb, table);
                assert((old_zorb ^ k) ^ (bk ^ k) == old_zorb ^ bk) by (bit_vector);
            }
            bitboard = bitboard ^ (1u64 << i);
        }
        proof {
            lemma_xor_bits_empty(table, 64);
            lemma_xor_unit(*zorb, 0);
        }
        color = color + 1;
    }
}

impl ZobristKeys {
    /// The Zobrist hash of `board`: the keys of every piece on its square,
    /// of both sides' castling rights, of the en-passant square if there is
    /// one, and of black to move when black is to move.
    pub fn get_key(&self, board: Board) -> (key: u64)
        requires
            ep_in_range(board.en_passant),
        ensures
            key == self.key(board),
    {
        let mut zorb: u64 = 0;
        xor_board(&mut zorb, board.pawns, self.pawns);
        xor_board(&mut zorb, board.bishops, self.bishops);
        xor_board(&mut zorb, board.knights, self.knights);
        xor_board(&mut zorb, board.rooks, self.rooks);
        xor_board(&mut zorb, board.queens, self.queens);
        xor_board(&mut zorb, board.kings, self.kings);
        proof {
            lemma_xor_all_12(self.piece_terms(board));
            lemma_castle_index_bounds(board.castling);
        }
        zorb = zorb ^ self.white_castling_rights[((board.castling & 0b1100) >> 2) as usize];
        zorb = zorb ^ self.black_castling_rights[(board.castling & 0b0011) as usize];
        let ghost z1 = zorb;
        if board.en_passant != 65 {
            zorb = zorb ^ self.en_passant[board.en_passant as usize];
        } else {
            proof {
                lemma_xor_unit(z1, 0);
            }
        }
        let ghost z2 = zorb;
        if board.turn == PieceColor::Black {
            zorb = zorb ^ self.black_turn;
        } else {
            proof {
                lemma_xor_unit(z2, 0);
            }
        }
        zorb
    }
}

/// Calls `std::collections::hash_map::RandomState::new`, which builds a hasher
/// factory seeded with random keys. Nothing is stated of the result.
#[verifier::external_body]
fn new_random_state() -> RandomState {
    RandomState::new()
}

/// Calls `<RandomState as BuildHasher>::build_hasher`, which gives a hasher
/// carrying the factory's random keys. Nothing is stated of the result.
#[verifier::external_body]
fn build_hasher(state: &RandomState) -> DefaultHasher {
    state.build_hasher()
}

/// Calls `<DefaultHasher as Hasher>::finish`. On a hasher built from a
/// `RandomState` the value depends on that state's random keys, so nothing
/// is stated of it.
#[verifier::external_body]
fn finish(hasher: &DefaultHasher) -> u64 {
    hasher.finish()
}

/// A random 64-bit key: the hash of no input under a freshly seeded hasher.
/// The value rests on the seed's chance alone, so no clause states it.
fn random_key() -> u64 {
    let state = new_random_state();
    let hasher = build_hasher(&state);
    finish(&hasher)
}

/// Sixty-four random keys, each from `random_key`; as they rest on chance,
/// no clause states them.
fn random_row() -> (row: [u64; 64]) {
    let mut row = [0u64; 64];
    let mut i: usize = 0;
    while i < 64
        invariant
            i <= 64,
        decreases 64 - i,
    {
        row[i] = random_key();
        i = i + 1;
    }
    row
}

/// One row of random keys per colour, each from `random_row`; as they rest
/// on chance, no clause states them.
fn gen_color_board_random() -> [[u64; 64]; 2] {
    let white = random_row();
    let black = random_row();
    [white, black]
}

impl ZobristKeys {
    /// A fresh set of random keys. Every key rests on chance, so no clause
    /// states them; the hash functions hold for any keys.
    pub fn new() -> Self {
        let white_castling_rights = [random_key(), random_key(), random_key(), random_key()];
        let black_castling_rights = [random_key(), random_key(), random_key(), random_key()];
        let black_turn = random_key();
        ZobristKeys {
            pawns: gen_color_board_random(),
            bishops: gen_color_board_random(),
            knights: gen_color_board_random(),
            rooks: gen_color_board_random(),
            queens: gen_color_board_random(),
            kings: gen_color_board_random(),
            white_castling_rights: white_castling_rights,
            black_castling_rights: black_castling_rights,
            en_passant: gen_color_board_random()[0],
            black_turn: black_turn,
        }
    }
}

} // verus!
