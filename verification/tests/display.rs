use chicory::board::Board;
use chicory::tables::ZobristKeys;

#[test]
fn start_position_diagram() {
    let keys = ZobristKeys::new();
    let b = Board::new("rnbqkbnr/pppppppp/8/8/8/8/PPPPPPPP/RNBQKBNR w KQkq - 0 1", &keys);
    let expected = "\nWhite to move:\n-----\n\
r n b q k b n r \n\
p p p p p p p p \n\
. . . . . . . . \n\
. . . . . . . . \n\
. . . . . . . . \n\
. . . . . . . . \n\
P P P P P P P P \n\
R N B Q K B N R \n\
-----\n\
Castling Rights: QK qk\n\
Temp Castling Rights: QK qk\n";
    assert_eq!(b.diagram(), expected);
}

#[test]
fn diagram_marks_en_passant_and_rights() {
    let keys = ZobristKeys::new();
    let b = Board::new("4k3/8/8/3pP3/8/8/8/4K3 b Kq d6 0 1", &keys);
    let expected = "\nBlack to move:\n-----\n\
. . . . k . . . \n\
. . . . . . . . \n\
. . . # . . . . \n\
. . . p P . . . \n\
. . . . . . . . \n\
. . . . . . . . \n\
. . . . . . . . \n\
. . . . K . . . \n\
-----\n\
Castling Rights: -K q-\n\
Temp Castling Rights: QK qk\n";
    assert_eq!(b.diagram(), expected);
}
