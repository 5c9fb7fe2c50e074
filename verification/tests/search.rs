use std::collections::HashMap;
use chicory::board::{Board, Move, PieceColor};
use chicory::search::{
    after_child, bound_score, cutoff_flag, enter_position, leave_position, no_moves_score, probe_table,
    record_entry, worst_for, Bound, Probe,
};
use chicory::tables::{Entry, Flag, ZobristKeys};

const START: &str = "rnbqkbnr/pppppppp/8/8/8/8/PPPPPPPP/RNBQKBNR w KQkq - 0 1";

fn some_move() -> Move {
    let keys = ZobristKeys::new();
    let b = Board::new(START, &keys);
    b.move_piece(28, 12, &keys)
}

#[test]
fn enter_and_leave_restore_counts() {
    let mut m: HashMap<u64, usize> = HashMap::new();
    m.insert(7, 1);
    let before = m.clone();
    let c = enter_position(&mut m, 7);
    assert_eq!(c, Some(1));
    assert_eq!(m.get(&7), Some(&2));
    leave_position(&mut m, 7, 1);
    assert_eq!(m, before);

    let c2 = enter_position(&mut m, 9);
    assert_eq!(c2, Some(0));
    assert_eq!(m.get(&9), Some(&1));
    leave_position(&mut m, 9, 0);
    assert_eq!(m, before);
}

#[test]
fn third_visit_is_a_draw() {
    let mut m: HashMap<u64, usize> = HashMap::new();
    m.insert(5, 2);
    assert_eq!(enter_position(&mut m, 5), None);
    assert_eq!(m.get(&5), Some(&2));
    assert_eq!(m.len(), 1);
}

#[test]
fn probe_reads_stored_entries() {
    let mv = some_move();
    let mut t: HashMap<u64, Entry> = HashMap::new();
    match probe_table(&t, 42, 3, -10, 10) {
        Probe::Window(a, b) => assert_eq!((a, b), (-10, 10)),
        Probe::Cutoff(_, _) => panic!("empty table gave a score"),
    }
    record_entry(&mut t, 42, 4, Flag::EXACT, 17, mv);
    match probe_table(&t, 42, 3, -10, 10) {
        Probe::Cutoff(s, m) => {
            assert_eq!(s, 17);
            assert_eq!(m, mv);
        },
        Probe::Window(_, _) => panic!("exact entry was not used"),
    }
    match probe_table(&t, 42, 5, -10, 10) {
        Probe::Window(a, b) => assert_eq!((a, b), (-10, 10)),
        Probe::Cutoff(_, _) => panic!("shallower entry was used"),
    }
    record_entry(&mut t, 42, 4, Flag::ALPHA, 5, mv);
    match probe_table(&t, 42, 4, -10, 10) {
        Probe::Window(a, b) => assert_eq!((a, b), (-10, 5)),
        Probe::Cutoff(_, _) => panic!("upper bound closed an open window"),
    }
    match probe_table(&t, 42, 4, 6, 10) {
        Probe::Cutoff(s, _) => assert_eq!(s, 5),
        Probe::Window(_, _) => panic!("upper bound below alpha did not cut"),
    }
    record_entry(&mut t, 42, 4, Flag::BETA, 12, mv);
    match probe_table(&t, 42, 2, -10, 10) {
        Probe::Cutoff(s, _) => assert_eq!(s, 12),
        Probe::Window(_, _) => panic!("lower bound above beta did not cut"),
    }
    match probe_table(&t, 42, 2, -10, 20) {
        Probe::Window(a, b) => assert_eq!((a, b), (12, 20)),
        Probe::Cutoff(_, _) => panic!("lower bound closed an open window"),
    }
}

#[test]
fn child_scores_move_the_window() {
    assert_eq!(after_child(PieceColor::White, 30, i32::MIN, -100, 100), (30, 30, 100, true));
    assert_eq!(after_child(PieceColor::White, 20, 30, 30, 100), (30, 30, 100, false));
    assert_eq!(after_child(PieceColor::Black, -40, i32::MAX, -100, 100), (-40, -100, -40, true));
    assert_eq!(after_child(PieceColor::Black, 10, -40, -100, -40), (-40, -100, -40, false));
    assert!(matches!(cutoff_flag(PieceColor::White), Flag::BETA));
    assert!(matches!(cutoff_flag(PieceColor::Black), Flag::ALPHA));
}

#[test]
fn scores_without_moves() {
    assert_eq!(worst_for(PieceColor::White), i32::MIN);
    assert_eq!(worst_for(PieceColor::Black), i32::MAX);
    assert_eq!(no_moves_score(PieceColor::White, 0), 0);
    assert_eq!(no_moves_score(PieceColor::White, 1 << 4), i32::MIN);
    assert_eq!(no_moves_score(PieceColor::Black, 1 << 60), i32::MAX);
}

#[test]
fn capture_search_bounds() {
    assert!(matches!(bound_score(PieceColor::White, 50, -10, 40), Bound::Cut(40)));
    assert!(matches!(bound_score(PieceColor::White, 20, -10, 40), Bound::Open(20, 40)));
    assert!(matches!(bound_score(PieceColor::White, -20, -10, 40), Bound::Open(-10, 40)));
    assert!(matches!(bound_score(PieceColor::Black, -20, -10, 40), Bound::Cut(-10)));
    assert!(matches!(bound_score(PieceColor::Black, 20, -10, 40), Bound::Open(-10, 20)));
    assert!(matches!(bound_score(PieceColor::Black, 60, -10, 40), Bound::Open(-10, 40)));
}
