//! Static evaluation terms and move ordering.
use vstd::prelude::*;
use crate::bits::{has_bit, sq, lemma_xor_bit, lemma_xor_set_bit_decreases, lemma_zero_no_bit};
use crate::board::{Board, Move, PieceColor, PieceType, bb, only_board_changed};
use crate::tables::lemma_set_toggles;

verus! {

/// Piece-square values for black, by square.
pub const BLACK_PAWN_PS_TABLE: [i32; 64] = [
    0, 0, 0, 0, 0, 0, 0, 0,
    50, 50, 50, 50, 50, 50, 50, 50,
    10, 10, 20, 30, 30, 20, 10, 10,
    5, 5, 10, 25, 25, 10, 5, 5,
    0, 0, 0, 20, 20, 0, 0, 0,
    5, -5, -10, 0, 0, -10, -5, 5,
    5, 10, 10, -20, -20, 10, 10, 5,
    0, 0, 0, 0, 0, 0, 0, 0,
];

/// Piece-square values for black, by square.
pub const BLACK_KNIGHT_PS_TABLE: [i32; 64] = [
    -50, -40, -30, -30, -30, -30, -40, -50,
    -40, -20, 0, 0, 0, 0, -20, -40,
    -30, 0, 10, 15, 15, 10, 0, -30,
    -30, 5, 15, 20, 20, 15, 5, -30,
    -30, 0, 15, 20, 20, 15, 0, -30,
    -30, 5, 10, 15, 15, 10, 5, -30,
    -40, -20, 0, 5, 5, 0, -20, -40,
    -50, -40, -30, -30, -30, -30, -40, -50,
];

/// Piece-square values for black, by square.
pub const BLACK_BISHOP_PS_TABLE: [i32; 64] = [
    -20, -10, -10, -10, -10, -10, -10, -20,
    -10, 0, 0, 0, 0, 0, 0, -10,
    -10, 0, 5, 10, 10, 5, 0, -10,
    -10, 5, 5, 10, 10, 5, 5, -10,
    -10, 0, 10, 10, 10, 10, 0, -10,
    -10, 10, 10, 10, 10, 10, 10, -10,
    -10, 5, 0, 0, 0, 0, 5, -10,
    -20, -10, -10, -10, -10, -10, -10, -20,
];

/// Piece-square values for black, by square.
pub const BLACK_ROOK_PS_TABLE: [i32; 64] = [
    0, 0, 0, 0, 0, 0, 0, 0,
    5, 10, 10, 10, 10, 10, 10, 5,
    -5, 0, 0, 0, 0, 0, 0, -5,
    -5, 0, 0, 0, 0, 0, 0, -5,
    -5, 0, 0, 0, 0, 0, 0, -5,
    -5, 0, 0, 0, 0, 0, 0, -5,
    -5, 0, 0, 0, 0, 0, 0, -5,
    0, 0, 0, 5, 5, 0, 0, 0,
];

/// Piece-square values for black, by square.
pub const BLACK_QUEEN_PS_TABLE: [i32; 64] = [
    -20, -10, -10, -5, -5, -10, -10, -20,
    -10, 0, 0, 0, 0, 0, 0, -10,
    -10, 0, 5, 5, 5, 5, 0, -10,
    -5, 0, 5, 5, 5, 5, 0, -5,
    0, 0, 5, 5, 5, 5, 0, -5,
    -10, 5, 5, 5, 5, 5, 0, -10,
    -10, 0, 5, 0, 0, 0, 0, -10,
    -20, -10, -10, -5, -5, -10, -10, -20,
];

/// Piece-square values for black, by square.
pub const BLACK_KING_MID_PS_TABLE: [i32; 64] = [
    -30, -40, -40, -50, -50, -40, -40, -30,
    -30, -40, -40, -50, -50, -40, -40, -30,
    -30, -40, -40, -50, -50, -40, -40, -30,
    -30, -40, -40, -50, -50, -40, -40, -30,
    -20, -30, -30, -40, -40, -30, -30, -20,
    -10, -20, -20, -20, -20, -20, -20, -10,
    20, 20, 0, 0, 0, 0, 20, 20,
    20, 30, 10, 0, 0, 10, 30, 20,
];

/// Piece-square values for black, by square.
pub const BLACK_KING_END_PS_TABLE: [i32; 64] = [
    -50, -40, -30, -20, -20, -30, -40, -50,
    -30, -20, -10, 0, 0, -10, -20, -30,
    -30, -10, 20, 30, 30, 20, -10, -30,
    -30, -10, 30, 40, 40, 30, -10, -30,
    -30, -10, 30, 40, 40, 30, -10, -30,
    -30, -10, 20, 30, 30, 20, -10, -30,
    -30, -30, 0, 0, 0, 0, -30, -30,
    -50, -30, -30, -30, -30, -30, -30, -50,
];


/// The sum of `table[i]` over the squares `i < n` set in `bb`.
pub open spec fn sum_bits(bb: u64, table: Seq<i32>, n: nat) -> int
    decreases n,
{
    if n == 0 {
        0
    } else {
        sum_bits(bb, table, (n - 1) as nat) + if has_bit(bb, (n - 1) as u64) {
            table[n - 1] as int
        } else {
            0
        }
    }
}

/// The sum of `table[i]` over all squares `i` set in `bb`.
pub open spec fn table_sum(bb: u64, table: Seq<i32>) -> int {
    sum_bits(bb, table, 64)
}

/// The number of squares set in `bb`.
pub open spec fn popcount(bb: u64) -> int {
    table_sum(bb, Seq::new(64, |i: int| 1i32))
}

/// Flipping one square changes the sum by that square's value.
proof fn lemma_sum_bits_toggle(b1: u64, b2: u64, table: Seq<i32>, pos: u64, n: nat)
    requires
        pos < 64,
        n <= 64,
        crate::tables::toggled(b1, b2, pos),
    ensures
        sum_bits(b2, table, n) == sum_bits(b1, table, n) + (if (pos as int) < n {
            if has_bit(b1, pos) {
                -(table[pos as int] as int)
            } else {
                table[pos as int] as int
            }
        } else {
            0
        }),
    decreases n,
{
    if n > 0 {
        lemma_sum_bits_toggle(b1, b2, table, pos, (n - 1) as nat);
        assert(has_bit(b2, (n - 1) as u64) == (if (n - 1) as u64 == pos {
            !has_bit(b1, (n - 1) as u64)
        } else {
            has_bit(b1, (n - 1) as u64)
        }));
    }
}

/// The sum over an empty bitboard is zero.
proof fn lemma_sum_bits_empty(table: Seq<i32>, n: nat)
    ensures
        sum_bits(0u64, table, n) == 0,
    decreases n,
{
    if n > 0 {
        lemma_sum_bits_empty(table, (n - 1) as nat);
        lemma_zero_no_bit((n - 1) as u64);
    }
}

/// A sum over at most `n` squares of values bounded by `bound` is bounded by
/// `n * bound`.
proof fn lemma_sum_bits_bound(bb: u64, table: Seq<i32>, n: nat, bound: int)
    requires
        n <= table.len(),
        forall|i: int| 0 <= i < table.len() ==> -bound <= #[trigger] table[i] <= bound,
    ensures
        -(n * bound) <= sum_bits(bb, table, n) <= n * bound,
    decreases n,
{
    if n > 0 {
        lemma_sum_bits_bound(bb, table, (n - 1) as nat, bound);
        assert(table[n - 1] <= bound);
        assert((n - 1) * bound + bound == n * bound) by (nonlinear_arith);
    }
}

/// Every running total of the sum over `bb`, square by square upwards, fits
/// in an `i32`.
pub open spec fn partial_sums_fit(bb: u64, table: Seq<i32>) -> bool {
    forall|n: nat| n <= 64 ==> i32::MIN <= #[trigger] sum_bits(bb, table, n) <= i32::MAX
}

/// Squares from `k` up to `m` that are not set add nothing to the sum.
proof fn lemma_sum_bits_flat(bb: u64, table: Seq<i32>, k: nat, m: nat)
    requires
        k <= m <= 64,
        forall|j: u64| k <= j < m ==> !#[trigger] has_bit(bb, j),
    ensures
        sum_bits(bb, table, m) == sum_bits(bb, table, k),
    decreases m - k,
{
    if m > k {
        assert(!has_bit(bb, (m - 1) as u64));
        lemma_sum_bits_flat(bb, table, k, (m - 1) as nat);
    }
}

/// With every value of the table between -1000 and 1000, every running total
/// over any bitboard lies between -64000 and 64000.
proof fn lemma_bounded_table_sums(table: Seq<i32>)
    requires
        table.len() == 64,
        forall|i: int| 0 <= i < 64 ==> -1000 <= #[trigger] table[i] <= 1000,
    ensures
        forall|bb: u64, n: nat| n <= 64 ==> -64000 <= #[trigger] sum_bits(bb, table, n) <= 64000,
{
    assert forall|bb: u64, n: nat| n <= 64 implies -64000 <= #[trigger] sum_bits(bb, table, n) <= 64000 by {
        lemma_sum_bits_bound(bb, table, n, 1000);
        assert(n * 1000 <= 64000) by (nonlinear_arith)
            requires
                n <= 64,
        ;
    }
}

/// The sum of the table values of the squares set in `bitboard`, added
/// square by square upwards.
fn bit_cal(bitboard: u64, table: [i32; 64]) -> (score: i32)
    requires
        partial_sums_fit(bitboard, table@),
    ensures
        score == table_sum(bitboard, table@),
{
    let mut bitboard = bitboard;
    let ghost orig = bitboard;
    let ghost mut k: nat = 0;
    let mut score: i32 = 0;
    while bitboard != 0
        invariant
            k <= 64,
            score == sum_bits(orig, table@, k),
            partial_sums_fit(orig, table@),
            forall|j: u64| j < 64 ==> #[trigger] has_bit(bitboard, j) == (j >= k && has_bit(orig, j)),
        decreases bitboard,
    {
        proof {
            vstd::std_specs::bits::axiom_u64_trailing_zeros(bitboard);
        }
        let i = bitboard.trailing_zeros() as usize;
        let ghost old_bb = bitboard;
        proof {
            assert(has_bit(old_bb, i as u64));
            assert(i >= k);
            assert forall|j: u64| k <= j < i implies !#[trigger] has_bit(orig, j) by {
                assert((old_bb >> j) & 1u64 == 0u64);
                assert(!has_bit(old_bb, j));
            }
            lemma_sum_bits_flat(orig, table@, k, i as nat);
            assert(sum_bits(orig, table@, (i + 1) as nat) == sum_bits(orig, table@, i as nat) + table@[i as int]);
            assert(i32::MIN <= sum_bits(orig, table@, (i + 1) as nat) <= i32::MAX);
            lemma_xor_set_bit_decreases(old_bb, i as u64);
            assert forall|j: u64| j < 64 implies #[trigger] has_bit(old_bb ^ sq(i as u64), j) == (j >= i + 1
                && has_bit(orig, j)) by {
                lemma_xor_bit(old_bb, i as u64, j);
            }
        }
        score = score + table[i];
        bitboard = bitboard ^ (1u64 << i);
        proof {
            k = (i + 1) as nat;
        }
    }
    proof {
        assert forall|j: u64| k <= j < 64 implies !#[trigger] has_bit(orig, j) by {
            lemma_zero_no_bit(j);
            assert(!has_bit(bitboard, j));
        }
        lemma_sum_bits_flat(orig, table@, k, 64);
    }
    score
}

/// The number of squares set in `bitboard`.
fn count_ones(bitboard: u64) -> (n: i32)
    ensures
        n == popcount(bitboard),
        0 <= n <= 64,
{
    let ones = [1i32; 64];
    proof {
        assert(ones@ =~= Seq::new(64, |i: int| 1i32));
        lemma_sum_bits_bound(bitboard, ones@, 64, 1);
        lemma_sum_bits_nonneg(bitboard, ones@, 64);
        assert forall|n: nat| n <= 64 implies i32::MIN <= #[trigger] sum_bits(bitboard, ones@, n) <= i32::MAX by {
            lemma_sum_bits_bound(bitboard, ones@, n, 1);
        }
    }
    bit_cal(bitboard, ones)
}

/// A sum of non-negative values is not negative.
proof fn lemma_sum_bits_nonneg(bb: u64, table: Seq<i32>, n: nat)
    requires
        n <= table.len(),
        forall|i: int| 0 <= i < table.len() ==> 0 <= #[trigger] table[i],
    ensures
        0 <= sum_bits(bb, table, n),
    decreases n,
{
    if n > 0 {
        lemma_sum_bits_nonneg(bb, table, (n - 1) as nat);
        assert(0 <= table[n - 1]);
    }
}

/// The table read from the other side: square `i` gets the value of square
/// `63 - i`.
fn reverse_array(array: [i32; 64]) -> (out: [i32; 64])
    ensures
        forall|i: int| 0 <= i < 64 ==> #[trigger] out@[i] == array@[63 - i],
{
    let mut out = array;
    let mut i: usize = 0;
    while i < 64
        invariant
            i <= 64,
            forall|j: int| 0 <= j < i ==> #[trigger] out@[j] == array@[63 - j],
        decreases 64 - i,
    {
        out[i] = array[63 - i];
        i = i + 1;
    }
    out
}

/// The table `t` read from white's side.
pub open spec fn mirrored(t: Seq<i32>) -> Seq<i32> {
    Seq::new(64, |i: int| t[63 - i])
}

/// The parts of the static evaluation that need no fractions: `score` holds
/// material, kings and the piece-square values of all pieces but the kings,
/// from white's side; the king terms are each side's king-square values for
/// the middle game and the end game, to be blended by material.
pub struct EvalTerms {
    pub score: i32,
    pub white_material: i32,
    pub black_material: i32,
    pub white_king_mid: i32,
    pub white_king_end: i32,
    pub black_king_mid: i32,
    pub black_king_end: i32,
}

/// Material of colour `c`: 100 per pawn, 320 per knight, 330 per bishop, 500
/// per rook and 900 per queen.
pub open spec fn material(b: Board, c: PieceColor) -> int {
    100 * popcount(bb(b, c, PieceType::Pawn)) + 320 * popcount(bb(b, c, PieceType::Knight)) + 330
        * popcount(bb(b, c, PieceType::Bishop)) + 500 * popcount(bb(b, c, PieceType::Rook)) + 900
        * popcount(bb(b, c, PieceType::Queen))
}

/// White's piece-square value less black's for kind `t`, with black's table `t_black`.
pub open spec fn pst_balance(b: Board, t: PieceType, t_black: Seq<i32>) -> int {
    table_sum(bb(b, PieceColor::White, t), mirrored(t_black)) - table_sum(bb(b, PieceColor::Black, t), t_black)
}


/// The part of the evaluation that needs no fractions, from white's side:
/// material, 20000 per king, and the piece-square values of all pieces but
/// the kings.
pub open spec fn static_score(b: Board) -> int {
    material(b, PieceColor::White) - material(b, PieceColor::Black) + (popcount(
        bb(b, PieceColor::White, PieceType::King),
    ) - popcount(bb(b, PieceColor::Black, PieceType::King))) * 20000 + pst_balance(
        b,
        PieceType::Pawn,
        BLACK_PAWN_PS_TABLE@,
    ) + pst_balance(b, PieceType::Knight, BLACK_KNIGHT_PS_TABLE@) + pst_balance(
        b,
        PieceType::Bishop,
        BLACK_BISHOP_PS_TABLE@,
    ) + pst_balance(b, PieceType::Rook, BLACK_ROOK_PS_TABLE@) + pst_balance(b, PieceType::Queen, BLACK_QUEEN_PS_TABLE@)
}

/// `b2` is `b` with the colours swapped and the board turned half round: a
/// piece of one colour on square `i` of `b` is a piece of the same kind and
/// the other colour on square `63 - i` of `b2`.
pub open spec fn colour_mirror(b: Board, b2: Board) -> bool {
    forall|c: PieceColor, t: PieceType, i: u64|
        i < 64 ==> #[trigger] has_bit(bb(b2, c, t), i) == has_bit(bb(b, c.opposite(), t), (63 - i) as u64)
}

/// Summing a table read from the other side over the turned bitboard gives
/// the sum over the squares from `64 - n` up.
proof fn lemma_sum_bits_turned(x: u64, y: u64, t: Seq<i32>, n: nat)
    requires
        t.len() == 64,
        n <= 64,
        forall|i: u64| i < 64 ==> #[trigger] has_bit(y, i) == has_bit(x, (63 - i) as u64),
    ensures
        sum_bits(y, mirrored(t), n) == sum_bits(x, t, 64) - sum_bits(x, t, (64 - n) as nat),
    decreases n,
{
    if n > 0 {
        lemma_sum_bits_turned(x, y, t, (n - 1) as nat);
        assert(has_bit(y, (n - 1) as u64) == has_bit(x, (64 - n) as u64));
        assert(mirrored(t)[n - 1] == t[64 - n]);
        assert(sum_bits(x, t, (65 - n) as nat) == sum_bits(x, t, (64 - n) as nat) + if has_bit(
            x,
            (64 - n) as u64,
        ) {
            t[64 - n] as int
        } else {
            0
        });
    }
}

/// A bitboard and its turned copy have the same sums, each over the table
/// read from the other side, and the same number of squares.
proof fn lemma_table_sum_turned(x: u64, y: u64, t: Seq<i32>)
    requires
        t.len() == 64,
        forall|i: u64| i < 64 ==> #[trigger] has_bit(y, i) == has_bit(x, (63 - i) as u64),
    ensures
        table_sum(y, mirrored(t)) == table_sum(x, t),
        table_sum(y, t) == table_sum(x, mirrored(t)),
        popcount(y) == popcount(x),
{
    lemma_sum_bits_turned(x, y, t, 64);
    assert forall|i: u64| i < 64 implies #[trigger] has_bit(x, i) == has_bit(y, (63 - i) as u64) by {
        assert(has_bit(y, (63 - i) as u64) == has_bit(x, (63 - (63 - i)) as u64));
    }
    lemma_sum_bits_turned(y, x, t, 64);
    lemma_sum_bits_turned(y, x, mirrored(t), 64);
    assert(mirrored(mirrored(t)) =~= t);
    let ones = Seq::new(64, |i: int| 1i32);
    assert(mirrored(ones) =~= ones);
    lemma_sum_bits_turned(x, y, ones, 64);
}

/// Swapping the colours and turning the board half round negates the
/// fraction-free part of the evaluation and swaps the two sides' material
/// and king-square values.
pub proof fn eval_terms_colour_mirror(b: Board, b2: Board)
    requires
        colour_mirror(b, b2),
    ensures
        static_score(b2) == -static_score(b),
        material(b2, PieceColor::White) == material(b, PieceColor::Black),
        material(b2, PieceColor::Black) == material(b, PieceColor::White),
        table_sum(b2.kings[0], mirrored(BLACK_KING_MID_PS_TABLE@)) == table_sum(b.kings[1], BLACK_KING_MID_PS_TABLE@),
        table_sum(b2.kings[0], mirrored(BLACK_KING_END_PS_TABLE@)) == table_sum(b.kings[1], BLACK_KING_END_PS_TABLE@),
        table_sum(b2.kings[1], BLACK_KING_MID_PS_TABLE@) == table_sum(b.kings[0], mirrored(BLACK_KING_MID_PS_TABLE@)),
        table_sum(b2.kings[1], BLACK_KING_END_PS_TABLE@) == table_sum(b.kings[0], mirrored(BLACK_KING_END_PS_TABLE@)),
{
    let w = PieceColor::White;
    let k = PieceColor::Black;
    lemma_mirror_kind(b, b2, w, PieceType::Pawn, BLACK_PAWN_PS_TABLE@);
    lemma_mirror_kind(b, b2, k, PieceType::Pawn, BLACK_PAWN_PS_TABLE@);
    lemma_mirror_kind(b, b2, w, PieceType::Knight, BLACK_KNIGHT_PS_TABLE@);
    lemma_mirror_kind(b, b2, k, PieceType::Knight, BLACK_KNIGHT_PS_TABLE@);
    lemma_mirror_kind(b, b2, w, PieceType::Bishop, BLACK_BISHOP_PS_TABLE@);
    lemma_mirror_kind(b, b2, k, PieceType::Bishop, BLACK_BISHOP_PS_TABLE@);
    lemma_mirror_kind(b, b2, w, PieceType::Rook, BLACK_ROOK_PS_TABLE@);
    lemma_mirror_kind(b, b2, k, PieceType::Rook, BLACK_ROOK_PS_TABLE@);
    lemma_mirror_kind(b, b2, w, PieceType::Queen, BLACK_QUEEN_PS_TABLE@);
    lemma_mirror_kind(b, b2, k, PieceType::Queen, BLACK_QUEEN_PS_TABLE@);
    lemma_mirror_kind(b, b2, w, PieceType::King, BLACK_KING_MID_PS_TABLE@);
    lemma_mirror_kind(b, b2, k, PieceType::King, BLACK_KING_MID_PS_TABLE@);
    lemma_mirror_kind(b, b2, w, PieceType::King, BLACK_KING_END_PS_TABLE@);
    lemma_mirror_kind(b, b2, k, PieceType::King, BLACK_KING_END_PS_TABLE@);
}

/// The bitboard of colour `c` and kind `t` of the mirrored position is the
/// turned bitboard of the other colour.
proof fn lemma_mirror_kind(b: Board, b2: Board, c: PieceColor, t: PieceType, tab: Seq<i32>)
    requires
        colour_mirror(b, b2),
        tab.len() == 64,
    ensures
        table_sum(bb(b2, c, t), mirrored(tab)) == table_sum(bb(b, c.opposite(), t), tab),
        table_sum(bb(b2, c, t), tab) == table_sum(bb(b, c.opposite(), t), mirrored(tab)),
        popcount(bb(b2, c, t)) == popcount(bb(b, c.opposite(), t)),
{
    assert forall|i: u64| i < 64 implies #[trigger] has_bit(bb(b2, c, t), i) == has_bit(
        bb(b, c.opposite(), t),
        (63 - i) as u64,
    ) by {}
    lemma_table_sum_turned(bb(b, c.opposite(), t), bb(b2, c, t), tab);
}

/// Adding one square to a bitboard adds one to its count.
proof fn lemma_popcount_add(x: u64, p: u64)
    requires
        p < 64,
        !has_bit(x, p),
    ensures
        popcount(x | sq(p)) == popcount(x) + 1,
{
    lemma_set_toggles(x, p);
    lemma_sum_bits_toggle(x, x | sq(p), Seq::new(64, |i: int| 1i32), p, 64);
}

/// Material prices each piece by its kind, whatever else stands on the
/// board: putting one more piece of colour `c` and kind `t` on a square
/// raises `c`'s material by 100 for a pawn, 320 for a knight, 330 for a
/// bishop, 500 for a rook, 900 for a queen and nothing for a king, and leaves
/// the other side's material as it was.
pub proof fn material_prices_pieces(b: Board, b2: Board, c: PieceColor, t: PieceType, p: u64)
    requires
        p < 64,
        !has_bit(bb(b, c, t), p),
        only_board_changed(b, b2, c, t, bb(b, c, t) | sq(p)),
    ensures
        material(b2, c) == material(b, c) + (if t == PieceType::Pawn {
            100int
        } else if t == PieceType::Knight {
            320int
        } else if t == PieceType::Bishop {
            330int
        } else if t == PieceType::Rook {
            500int
        } else if t == PieceType::Queen {
            900int
        } else {
            0int
        }),
        material(b2, c.opposite()) == material(b, c.opposite()),
{
    lemma_popcount_add(bb(b, c, t), p);
    assert(bb(b2, c.opposite(), PieceType::Pawn) == bb(b, c.opposite(), PieceType::Pawn));
    assert(bb(b2, c.opposite(), PieceType::Knight) == bb(b, c.opposite(), PieceType::Knight));
    assert(bb(b2, c.opposite(), PieceType::Bishop) == bb(b, c.opposite(), PieceType::Bishop));
    assert(bb(b2, c.opposite(), PieceType::Rook) == bb(b, c.opposite(), PieceType::Rook));
    assert(bb(b2, c.opposite(), PieceType::Queen) == bb(b, c.opposite(), PieceType::Queen));
    if t != PieceType::Pawn {
        assert(bb(b2, c, PieceType::Pawn) == bb(b, c, PieceType::Pawn));
    }
    if t != PieceType::Knight {
        assert(bb(b2, c, PieceType::Knight) == bb(b, c, PieceType::Knight));
    }
    if t != PieceType::Bishop {
        assert(bb(b2, c, PieceType::Bishop) == bb(b, c, PieceType::Bishop));
    }
    if t != PieceType::Rook {
        assert(bb(b2, c, PieceType::Rook) == bb(b, c, PieceType::Rook));
    }
    if t != PieceType::Queen {
        assert(bb(b2, c, PieceType::Queen) == bb(b, c, PieceType::Queen));
    }
}

/// A side with no pieces has no material.
pub proof fn material_of_no_pieces(b: Board, c: PieceColor)
    requires
        forall|t: PieceType| #[trigger] bb(b, c, t) == 0,
    ensures
        material(b, c) == 0,
{
    lemma_sum_bits_empty(Seq::new(64, |i: int| 1i32), 64);
    assert(bb(b, c, PieceType::Pawn) == 0);
    assert(bb(b, c, PieceType::Knight) == 0);
    assert(bb(b, c, PieceType::Bishop) == 0);
    assert(bb(b, c, PieceType::Rook) == 0);
    assert(bb(b, c, PieceType::Queen) == 0);
}

/// A move that promotes a pawn.
pub open spec fn is_promotion(m: Move) -> bool {
    m.promote_to is Some
}

/// A move that takes a piece.
pub open spec fn is_capture(m: Move) -> bool {
    m.capture
}

/// The order `order_moves` puts moves in: promotions, then the remaining
/// captures, then the rest, each group in its original order.
pub open spec fn ordered_moves(moves: Seq<Move>) -> Seq<Move> {
    let rest = moves.filter(|m: Move| !is_promotion(m));
    moves.filter(|m: Move| is_promotion(m)) + rest.filter(|m: Move| is_capture(m)) + rest.filter(
        |m: Move| !is_capture(m),
    )
}

/// A promotion when `promotions`, a capture otherwise.
pub open spec fn selected(promotions: bool, m: Move) -> bool {
    if promotions {
        is_promotion(m)
    } else {
        is_capture(m)
    }
}

/// Moves one element from `moves[i]` to the end of `out`, where `moves` is the
/// kept prefix followed by the unread suffix of `orig` from `k` on.
proof fn lemma_partition_step(orig: Seq<Move>, k: int, pred: spec_fn(Move) -> bool)
    requires
        0 <= k < orig.len(),
    ensures
        orig.take(k + 1).filter(pred) == (if pred(orig[k]) {
            orig.take(k).filter(pred).push(orig[k])
        } else {
            orig.take(k).filter(pred)
        }),
{
    assert(orig.take(k + 1).drop_last() =~= orig.take(k));
    reveal(Seq::filter);
}

/// Takes the elements satisfying `pred` out of `moves`, in order, and appends
/// them to `out`; the others stay in `moves`, in order.
fn take_matching(moves: &mut Vec<Move>, out: &mut Vec<Move>, promotions: bool)
    ensures
        final(out)@ == old(out)@ + old(moves)@.filter(|m: Move| selected(promotions, m)),
        final(moves)@ == old(moves)@.filter(|m: Move| !selected(promotions, m)),
{
    let ghost pred = |m: Move| selected(promotions, m);
    let ghost npred = |m: Move| !selected(promotions, m);
    let ghost orig = moves@;
    let ghost out0 = out@;
    let ghost mut k: int = 0;
    let mut i: usize = 0;
    proof {
        reveal(Seq::filter);
        assert(orig.take(0) =~= Seq::<Move>::empty());
        assert(orig.skip(0) =~= orig);
    }
    while i < moves.len()
        invariant
            0 <= k <= orig.len(),
            out@ == out0 + orig.take(k).filter(pred),
            moves@ == orig.take(k).filter(npred) + orig.skip(k),
            i == orig.take(k).filter(npred).len(),
            pred == (|m: Move| selected(promotions, m)),
            npred == (|m: Move| !selected(promotions, m)),
        decreases moves.len() - i,
    {
        proof {
            lemma_partition_step(orig, k, pred);
            lemma_partition_step(orig, k, npred);
            assert(moves@[i as int] == orig[k]);
        }
        let hit = if promotions {
            moves[i].promote_to.is_some()
        } else {
            moves[i].capture
        };
        if hit {
            let m = moves.remove(i);
            out.push(m);
            proof {
                assert(moves@ =~= orig.take(k + 1).filter(npred) + orig.skip(k + 1));
                assert(out@ =~= out0 + orig.take(k + 1).filter(pred));
                k = k + 1;
            }
        } else {
            i = i + 1;
            proof {
                assert(moves@ =~= orig.take(k + 1).filter(npred) + orig.skip(k + 1));
                k = k + 1;
            }
        }
    }
    proof {
        assert(orig.skip(k).len() == 0);
        assert(k == orig.len());
        assert(orig.take(k) =~= orig);
        assert(moves@ =~= orig.filter(npred));
    }
}

/// Orders moves for search: promotions first, then captures, then the rest,
/// each group keeping its order.
pub fn order_moves(moves: Vec<Move>) -> (out: Vec<Move>)
    ensures
        out@ == ordered_moves(moves@),
{
    let mut moves = moves;
    let ghost m0 = moves@;
    let mut out: Vec<Move> = Vec::new();
    take_matching(&mut moves, &mut out, true);
    take_matching(&mut moves, &mut out, false);
    out.append(&mut moves);
    proof {
        assert((|m: Move| selected(true, m)) =~= (|m: Move| is_promotion(m)));
        assert((|m: Move| selected(false, m)) =~= (|m: Move| is_capture(m)));
        assert((|m: Move| !selected(true, m)) =~= (|m: Move| !is_promotion(m)));
        assert((|m: Move| !selected(false, m)) =~= (|m: Move| !is_capture(m)));
        assert(out@ =~= ordered_moves(m0));
    }
    out
}

/// Splitting a sequence by a predicate keeps every element, each as often as
/// it came.
proof fn lemma_filter_split_multiset(s: Seq<Move>, p: spec_fn(Move) -> bool)
    ensures
        s.filter(p).to_multiset().add(s.filter(|m: Move| !p(m)).to_multiset()) == s.to_multiset(),
    decreases s.len(),
{
    broadcast use vstd::multiset::group_multiset_axioms;
    let np = |m: Move| !p(m);
    if s.len() == 0 {
        reveal(Seq::filter);
        assert(s.filter(p) =~= Seq::<Move>::empty());
        assert(s.filter(np) =~= Seq::<Move>::empty());
        vstd::seq_lib::to_multiset_len(s);
        vstd::multiset::lemma_multiset_empty_len(s.to_multiset());
        assert(s.filter(p) =~= s);
        assert(s.filter(np) =~= s);
        assert(s.to_multiset().add(s.to_multiset()) =~= s.to_multiset());
    } else {
        let t = s.drop_last();
        let x = s.last();
        assert(t.push(x) =~= s);
        lemma_filter_split_multiset(t, p);
        t.lemma_filter_push(x, p);
        t.lemma_filter_push(x, np);
        vstd::seq_lib::to_multiset_build(t, x);
        vstd::seq_lib::to_multiset_build(t.filter(p), x);
        vstd::seq_lib::to_multiset_build(t.filter(np), x);
        assert(s.filter(p).to_multiset().add(s.filter(np).to_multiset()) =~= s.to_multiset());
    }
}

/// Ordering moves for search keeps every move, each as often as it came:
/// the result is a rearrangement of the input.
pub proof fn order_moves_keeps_moves(moves: Seq<Move>)
    ensures
        ordered_moves(moves).to_multiset() == moves.to_multiset(),
{
    broadcast use vstd::multiset::group_multiset_axioms;
    let promo = |m: Move| is_promotion(m);
    let cap = |m: Move| is_capture(m);
    let rest = moves.filter(|m: Move| !is_promotion(m));
    let a = moves.filter(promo);
    let b = rest.filter(cap);
    let c = rest.filter(|m: Move| !is_capture(m));
    lemma_filter_split_multiset(moves, promo);
    lemma_filter_split_multiset(rest, cap);
    assert((|m: Move| !promo(m)) =~= (|m: Move| !is_promotion(m)));
    assert((|m: Move| !cap(m)) =~= (|m: Move| !is_capture(m)));
    assert(ordered_moves(moves) =~= a + b + c);
    vstd::seq_lib::lemma_multiset_commutative(a + b, c);
    vstd::seq_lib::lemma_multiset_commutative(a, b);
    assert(ordered_moves(moves).to_multiset() =~= moves.to_multiset());
}

/// A table's values lie between -1000 and 1000.
pub open spec fn table_bounded(t: Seq<i32>) -> bool {
    t.len() == 64 && forall|i: int| 0 <= i < 64 ==> -1000 <= #[trigger] t[i] <= 1000
}

/// The integer terms of the static evaluation of `board`.
pub fn eval_terms(board: &Board) -> (t: EvalTerms)
    ensures
        t.white_material == material(*board, PieceColor::White),
        t.black_material == material(*board, PieceColor::Black),
        t.score == static_score(*board),
        t.white_king_mid == table_sum(board.kings[0], mirrored(BLACK_KING_MID_PS_TABLE@)),
        t.white_king_end == table_sum(board.kings[0], mirrored(BLACK_KING_END_PS_TABLE@)),
        t.black_king_mid == table_sum(board.kings[1], BLACK_KING_MID_PS_TABLE@),
        t.black_king_end == table_sum(board.kings[1], BLACK_KING_END_PS_TABLE@),
{
    proof {
        assert(table_bounded(BLACK_PAWN_PS_TABLE@));
        assert(table_bounded(BLACK_KNIGHT_PS_TABLE@));
        assert(table_bounded(BLACK_BISHOP_PS_TABLE@));
        assert(table_bounded(BLACK_ROOK_PS_TABLE@));
        assert(table_bounded(BLACK_QUEEN_PS_TABLE@));
        assert(table_bounded(BLACK_KING_MID_PS_TABLE@));
        assert(table_bounded(BLACK_KING_END_PS_TABLE@));
    }
    let white_pawn = reverse_array(BLACK_PAWN_PS_TABLE);
    let white_knight = reverse_array(BLACK_KNIGHT_PS_TABLE);
    let white_bishop = reverse_array(BLACK_BISHOP_PS_TABLE);
    let white_rook = reverse_array(BLACK_ROOK_PS_TABLE);
    let white_queen = reverse_array(BLACK_QUEEN_PS_TABLE);
    let white_king_mid = reverse_array(BLACK_KING_MID_PS_TABLE);
    let white_king_end = reverse_array(BLACK_KING_END_PS_TABLE);
    proof {
        assert(white_pawn@ =~= mirrored(BLACK_PAWN_PS_TABLE@));
        assert(white_knight@ =~= mirrored(BLACK_KNIGHT_PS_TABLE@));
        assert(white_bishop@ =~= mirrored(BLACK_BISHOP_PS_TABLE@));
        assert(white_rook@ =~= mirrored(BLACK_ROOK_PS_TABLE@));
        assert(white_queen@ =~= mirrored(BLACK_QUEEN_PS_TABLE@));
        assert(white_king_mid@ =~= mirrored(BLACK_KING_MID_PS_TABLE@));
        assert(white_king_end@ =~= mirrored(BLACK_KING_END_PS_TABLE@));
        lemma_bounded_table_sums(BLACK_PAWN_PS_TABLE@);
        lemma_bounded_table_sums(BLACK_KNIGHT_PS_TABLE@);
        lemma_bounded_table_sums(BLACK_BISHOP_PS_TABLE@);
        lemma_bounded_table_sums(BLACK_ROOK_PS_TABLE@);
        lemma_bounded_table_sums(BLACK_QUEEN_PS_TABLE@);
        lemma_bounded_table_sums(BLACK_KING_MID_PS_TABLE@);
        lemma_bounded_table_sums(BLACK_KING_END_PS_TABLE@);
        lemma_bounded_table_sums(white_pawn@);
        lemma_bounded_table_sums(white_knight@);
        lemma_bounded_table_sums(white_bishop@);
        lemma_bounded_table_sums(white_rook@);
        lemma_bounded_table_sums(white_queen@);
        lemma_bounded_table_sums(white_king_mid@);
        lemma_bounded_table_sums(white_king_end@);
    }
    let white_mat_score = count_ones(board.pawns[0]) * 100 + count_ones(board.knights[0]) * 320
        + count_ones(board.bishops[0]) * 330 + count_ones(board.rooks[0]) * 500 + count_ones(board.queens[0]) * 900;
    let black_mat_score = count_ones(board.pawns[1]) * 100 + count_ones(board.knights[1]) * 320
        + count_ones(board.bishops[1]) * 330 + count_ones(board.rooks[1]) * 500 + count_ones(board.queens[1]) * 900;
    let mut score: i32 = white_mat_score - black_mat_score;
    score = score + (count_ones(board.kings[0]) - count_ones(board.kings[1])) * 20000;
    score = score + (bit_cal(board.pawns[0], white_pawn) - bit_cal(board.pawns[1], BLACK_PAWN_PS_TABLE));
    score = score + (bit_cal(board.knights[0], white_knight) - bit_cal(board.knights[1], BLACK_KNIGHT_PS_TABLE));
    score = score + (bit_cal(board.bishops[0], white_bishop) - bit_cal(board.bishops[1], BLACK_BISHOP_PS_TABLE));
    score = score + (bit_cal(board.rooks[0], white_rook) - bit_cal(board.rooks[1], BLACK_ROOK_PS_TABLE));
    score = score + (bit_cal(board.queens[0], white_queen) - bit_cal(board.queens[1], BLACK_QUEEN_PS_TABLE));
    EvalTerms {
        score,
        white_material: white_mat_score,
        black_material: black_mat_score,
        white_king_mid: bit_cal(board.kings[0], white_king_mid),
        white_king_end: bit_cal(board.kings[0], white_king_end),
        black_king_mid: bit_cal(board.kings[1], BLACK_KING_MID_PS_TABLE),
        black_king_end: bit_cal(board.kings[1], BLACK_KING_END_PS_TABLE),
    }
}

} // verus!
