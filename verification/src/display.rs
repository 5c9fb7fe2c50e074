//! A text diagram of a position.
use vstd::prelude::*;
use crate::bits::has_bit;
use crate::board::{Board, PieceColor, PieceType, bb};
use crate::fen::{piece_index, board_index};
use crate::notation::push_char;

verus! {

/// The character shown for square `i`: the letter of the piece on it (white
/// upper case, black lower case, looked for in the order pawn, bishop,
/// knight, rook, queen, king, white before black), `#` for an empty
/// en-passant square and `.` for another empty square.
pub open spec fn square_char(b: Board, i: u64) -> char {
    if has_bit(b.pawns[0], i) {
        'P'
    } else if has_bit(b.bishops[0], i) {
        'B'
    } else if has_bit(b.knights[0], i) {
        'N'
    } else if has_bit(b.rooks[0], i) {
        'R'
    } else if has_bit(b.queens[0], i) {
        'Q'
    } else if has_bit(b.kings[0], i) {
        'K'
    } else if has_bit(b.pawns[1], i) {
        'p'
    } else if has_bit(b.bishops[1], i) {
        'b'
    } else if has_bit(b.knights[1], i) {
        'n'
    } else if has_bit(b.rooks[1], i) {
        'r'
    } else if has_bit(b.queens[1], i) {
        'q'
    } else if has_bit(b.kings[1], i) {
        'k'
    } else if i == b.en_passant {
        '#'
    } else {
        '.'
    }
}

/// The first `n` squares of rank `r`, each followed by a space.
pub open spec fn rank_text(b: Board, r: int, n: int) -> Seq<char>
    decreases n,
{
    if n <= 0 {
        Seq::empty()
    } else {
        rank_text(b, r, n - 1) + seq![square_char(b, (r * 8 + n - 1) as u64), ' ']
    }
}

/// The top `k` ranks, from the eighth down, one line each.
pub open spec fn ranks_text(b: Board, k: int) -> Seq<char>
    decreases k,
{
    if k <= 0 {
        Seq::empty()
    } else {
        ranks_text(b, k - 1) + rank_text(b, 8 - k, 8) + seq!['\n']
    }
}

/// The castling rights held in the four bits from `shift` up, as `QK qk` with
/// `-` for a right not held.
pub open spec fn rights_text(c: u8, shift: u8) -> Seq<char> {
    seq![
        if (c >> shift) & 8 != 0 { 'Q' } else { '-' },
        if (c >> shift) & 4 != 0 { 'K' } else { '-' },
        ' ',
        if (c >> shift) & 2 != 0 { 'q' } else { '-' },
        if (c >> shift) & 1 != 0 { 'k' } else { '-' },
    ]
}

/// The diagram of a position: the side to move, the board from the eighth
/// rank down between two rules, and the castling rights in the low and the
/// high four bits.
pub open spec fn diagram_text(b: Board) -> Seq<char> {
    seq!['\n'] + (if b.turn == PieceColor::White {
        "White"@
    } else {
        "Black"@
    }) + " to move:\n-----\n"@ + ranks_text(b, 8) + "-----\n"@ + "Castling Rights: "@ + rights_text(b.castling, 0)
        + seq!['\n'] + "Temp Castling Rights: "@ + rights_text(b.castling, 4) + seq!['\n']
}

/// The diagram writes each piece with the letter a position text uses for
/// it: on a square held by one piece only, the character shown is the letter
/// that, read in a placement field, puts that colour and kind there.
pub proof fn diagram_letters_match_text(b: Board, i: u64, c: PieceColor, t: PieceType)
    requires
        i < 64,
        has_bit(bb(b, c, t), i),
        forall|c2: PieceColor, t2: PieceType| #[trigger] has_bit(bb(b, c2, t2), i) ==> c2 == c && t2 == t,
    ensures
        piece_index(square_char(b, i)) == Some(board_index(c, t)),
{
    let w = PieceColor::White;
    let k = PieceColor::Black;
    if !(c == w && t == PieceType::Pawn) {
        assert(!has_bit(bb(b, w, PieceType::Pawn), i));
    }
    if !(c == w && t == PieceType::Bishop) {
        assert(!has_bit(bb(b, w, PieceType::Bishop), i));
    }
    if !(c == w && t == PieceType::Knight) {
        assert(!has_bit(bb(b, w, PieceType::Knight), i));
    }
    if !(c == w && t == PieceType::Rook) {
        assert(!has_bit(bb(b, w, PieceType::Rook), i));
    }
    if !(c == w && t == PieceType::Queen) {
        assert(!has_bit(bb(b, w, PieceType::Queen), i));
    }
    if !(c == w && t == PieceType::King) {
        assert(!has_bit(bb(b, w, PieceType::King), i));
    }
    if !(c == k && t == PieceType::Pawn) {
        assert(!has_bit(bb(b, k, PieceType::Pawn), i));
    }
    if !(c == k && t == PieceType::Bishop) {
        assert(!has_bit(bb(b, k, PieceType::Bishop), i));
    }
    if !(c == k && t == PieceType::Knight) {
        assert(!has_bit(bb(b, k, PieceType::Knight), i));
    }
    if !(c == k && t == PieceType::Rook) {
        assert(!has_bit(bb(b, k, PieceType::Rook), i));
    }
    if !(c == k && t == PieceType::Queen) {
        assert(!has_bit(bb(b, k, PieceType::Queen), i));
    }
}

/// The character shown for square `i`.
fn square_symbol(b: &Board, i: u64) -> (c: char)
    requires
        i < 64,
    ensures
        c == square_char(*b, i),
{
    if (b.pawns[0] >> i) & 1 == 1 {
        'P'
    } else if (b.bishops[0] >> i) & 1 == 1 {
        'B'
    } else if (b.knights[0] >> i) & 1 == 1 {
        'N'
    } else if (b.rooks[0] >> i) & 1 == 1 {
        'R'
    } else if (b.queens[0] >> i) & 1 == 1 {
        'Q'
    } else if (b.kings[0] >> i) & 1 == 1 {
        'K'
    } else if (b.pawns[1] >> i) & 1 == 1 {
        'p'
    } else if (b.bishops[1] >> i) & 1 == 1 {
        'b'
    } else if (b.knights[1] >> i) & 1 == 1 {
        'n'
    } else if (b.rooks[1] >> i) & 1 == 1 {
        'r'
    } else if (b.queens[1] >> i) & 1 == 1 {
        'q'
    } else if (b.kings[1] >> i) & 1 == 1 {
        'k'
    } else if i == b.en_passant as u64 {
        '#'
    } else {
        '.'
    }
}

/// Appends the castling rights held in the four bits from `shift` up.
fn push_rights(s: &mut String, c: u8, shift: u8)
    requires
        shift < 8,
    ensures
        final(s)@ == old(s)@ + rights_text(c, shift),
{
    let v = c >> shift;
    push_char(s, if v & 8 != 0 { 'Q' } else { '-' });
    push_char(s, if v & 4 != 0 { 'K' } else { '-' });
    push_char(s, ' ');
    push_char(s, if v & 2 != 0 { 'q' } else { '-' });
    push_char(s, if v & 1 != 0 { 'k' } else { '-' });
    assert(final(s)@ =~= old(s)@ + rights_text(c, shift));
}

impl Board {
    /// The diagram of the position that `print_board` shows, up to its
    /// move counters.
    pub fn diagram(&self) -> (s: String)
        ensures
            s@ == diagram_text(*self),
    {
        let mut s = String::new();
        push_char(&mut s, '\n');
        if self.turn == PieceColor::White {
            s.append("White");
        } else {
            s.append("Black");
        }
        s.append(" to move:\n-----\n");
        let ghost head = s@;
        let mut k: u64 = 0;
        while k < 8
            invariant
                k <= 8,
                s@ == head + ranks_text(*self, k as int),
            decreases 8 - k,
        {
            let r: u64 = 7 - k;
            let ghost before = s@;
            let mut f: u64 = 0;
            while f < 8
                invariant
                    f <= 8,
                    r == 7 - k,
                    k < 8,
                    s@ == before + rank_text(*self, r as int, f as int),
                decreases 8 - f,
            {
                let c = square_symbol(self, r * 8 + f);
                push_char(&mut s, c);
                push_char(&mut s, ' ');
                assert(s@ =~= before + rank_text(*self, r as int, f as int + 1));
                f = f + 1;
            }
            push_char(&mut s, '\n');
            assert(s@ =~= head + ranks_text(*self, k as int + 1));
            k = k + 1;
        }
        s.append("-----\n");
        s.append("Castling Rights: ");
        push_rights(&mut s, self.castling, 0);
        push_char(&mut s, '\n');
        s.append("Temp Castling Rights: ");
        push_rights(&mut s, self.castling, 4);
        push_char(&mut s, '\n');
        assert(s@ =~= diagram_text(*self));
        s
    }
}

} // verus!
