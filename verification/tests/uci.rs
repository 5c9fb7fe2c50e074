use chicory::board::{Board, PieceColor};
use chicory::tables::ZobristKeys;
use chicory::uci::{Cmd, SearchInfo, UciInterface};

const START: &str = "rnbqkbnr/pppppppp/8/8/8/8/PPPPPPPP/RNBQKBNR w KQkq - 0 1";

fn no_limits() -> SearchInfo {
    SearchInfo {
        current_time: [None, None],
        per_move_time: [None, None],
        depth: None,
        nodes: None,
        movetime: None,
        infinite: false,
    }
}

#[test]
fn new_interface_is_empty() {
    let keys = ZobristKeys::new();
    let u = UciInterface::new(keys);
    assert!(u.current_board.is_none());
    assert_eq!(u.max_search_depth, 99);
}

#[test]
fn position_startpos_with_moves() {
    let keys = ZobristKeys::new();
    let mut u = UciInterface::new(keys);
    let r = u.position(vec!["position", "startpos", "moves", "e2e4", "e7e5"]);
    let keys = &u.zobrist_keys;
    let expected = Board::new(START, keys).make_move("e2e4", keys).make_move("e7e5", keys);
    assert_eq!(r, Some(Cmd::SetBoard(expected)));
    assert_eq!(u.current_board, Some(expected));
    assert_eq!(expected.turn, PieceColor::White);
    assert_eq!(expected.zobrist_hash, keys.get_key(expected));
}

#[test]
fn position_fen_without_moves() {
    let keys = ZobristKeys::new();
    let mut u = UciInterface::new(keys);
    let r = u.position(vec!["position", "fen", "8/8/8/3Rr3/8/8/8/8", "b", "-", "-", "3", "9"]);
    let expected = Board::new("8/8/8/3Rr3/8/8/8/8 b - - 3 9", &u.zobrist_keys);
    assert_eq!(r, Some(Cmd::SetBoard(expected)));
    assert_eq!(u.current_board, Some(expected));
    let r2 = u.position(vec!["position", "fen", "8/8/8/3Rr3/8/8/8/8", "b", "-", "-", "3", "9", "moves", "e5e1"]);
    let moved = expected.make_move("e5e1", &u.zobrist_keys);
    assert_eq!(r2, Some(Cmd::SetBoard(moved)));
    assert_eq!(moved.rooks[1], 1u64 << 4);
}

#[test]
fn go_reads_limits() {
    let keys = ZobristKeys::new();
    let mut u = UciInterface::new(keys);
    let r = u.go(vec!["go", "wtime", "300000", "btime", "290000", "winc", "2000", "binc", "1000", "depth", "7", "nodes", "5000", "movetime", "1500"]);
    let expected = SearchInfo {
        current_time: [Some(300000), Some(290000)],
        per_move_time: [Some(2000), Some(1000)],
        depth: Some(7),
        nodes: Some(5000),
        movetime: Some(1500),
        infinite: false,
    };
    assert_eq!(r, Some(Cmd::Go(expected)));
}

#[test]
fn go_infinite_and_unknown_words() {
    let keys = ZobristKeys::new();
    let mut u = UciInterface::new(keys);
    let r = u.go(vec!["go", "infinite", "ponder", "depth", "x", "searchmoves", "12"]);
    let mut expected = no_limits();
    expected.infinite = true;
    assert_eq!(r, Some(Cmd::Go(expected)));
    assert_eq!(u.go(vec!["go"]), Some(Cmd::Go(no_limits())));
    assert_eq!(u.go(vec!["go", "infinite"]), Some(Cmd::Go(no_limits())));
    assert_eq!(u.go(vec!["go", "depth", "+4"]), Some(Cmd::Go(SearchInfo { depth: Some(4), ..no_limits() })));
}

#[test]
fn set_option_sets_depth_limit() {
    let keys = ZobristKeys::new();
    let mut u = UciInterface::new(keys);
    assert_eq!(u.set_option(vec!["setoption", "name", "MaxSearchDepth", "value", "12"]), None);
    assert_eq!(u.max_search_depth, 12);
    assert_eq!(u.set_option(vec!["setoption", "name", "Hash", "value", "64"]), None);
    assert_eq!(u.max_search_depth, 12);
    assert_eq!(u.set_option(vec!["setoption", "name", "MaxSearchDepth", "val", "3"]), None);
    assert_eq!(u.max_search_depth, 12);
}

#[test]
fn new_game_stop_and_perft() {
    let keys = ZobristKeys::new();
    let mut u = UciInterface::new(keys);
    u.position(vec!["position", "startpos"]);
    assert!(u.current_board.is_some());
    assert_eq!(u.uci_new_game(), None);
    assert!(u.current_board.is_none());
    assert_eq!(u.stop(), Some(Cmd::Stop));
    assert_eq!(u.perft(vec!["perft", "5"]), Some(Cmd::Perft(5)));
}

#[test]
fn position_playable_checks_commands() {
    let keys = ZobristKeys::new();
    let u = UciInterface::new(keys);
    assert!(u.position_playable(&vec!["position", "startpos"]));
    assert!(u.position_playable(&vec!["position", "startpos", "moves", "e2e4", "e7e5", "g1f3"]));
    assert!(!u.position_playable(&vec!["position"]));
    assert!(!u.position_playable(&vec!["position", "startpos", "moves", "e2e4", "e3e4"]));
    assert!(!u.position_playable(&vec!["position", "fen", "8/8/8", "w"]));
    assert!(u.position_playable(&vec!["position", "fen", "8/8/8/3Rr3/8/8/8/8", "w", "-", "-", "0", "1", "moves", "d5d1"]));
    assert!(!u.position_playable(&vec!["position", "fen", "8/8/8/3Rr3/8/8/8/8", "w", "-", "-", "0", "1", "moves", "a1a2"]));
}
