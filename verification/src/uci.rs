//! The Universal Chess Interface commands that set up positions and searches.
use vstd::prelude::*;
use vstd::string::StrSliceExecFns;
use crate::board::{Board, PieceColor};
use crate::fen::{fen_accepted, fen_board, lemma_start_position_accepted, lemma_fen_board_unique};
use crate::notation::{push_char, make_move_requires, make_move_post, lemma_make_move_post_unique};
use crate::tables::ZobristKeys;
use crate::text::{str_eq, str_chars, parse_unsigned, parse_unsigned_spec};

verus! {

/// What a command asks of the program around the interface.
#[derive(Debug, Clone, PartialEq)]
pub enum Cmd {
    SetBoard(Board),
    Stop,
    Go(SearchInfo),
    Perft(usize),
}

/// The limits of a search: each side's remaining time and increment (white
/// first), a depth, a node count, a fixed time per move, or no limit.
#[derive(Debug, Clone, PartialEq)]
pub struct SearchInfo {
    pub current_time: [Option<u128>; 2],
    pub per_move_time: [Option<u128>; 2],
    pub depth: Option<usize>,
    pub nodes: Option<usize>,
    pub movetime: Option<u128>,
    pub infinite: bool,
}

/// The interface's state: the current position, the search depth limit, and
/// the keys positions are hashed with.
pub struct UciInterface {
    pub current_board: Option<Board>,
    pub max_search_depth: usize,
    pub zobrist_keys: ZobristKeys,
}

/// The words of a command as character sequences.
pub open spec fn words(command: Seq<&str>) -> Seq<Seq<char>> {
    command.map_values(|w: &str| w@)
}

/// The text of the starting position.
pub open spec fn start_fen() -> Seq<char> {
    "rnbqkbnr/pppppppp/8/8/8/8/PPPPPPPP/RNBQKBNR w KQkq - 0 1"@
}

/// The index of the first word `moves` at or after `i`, or the number of words.
pub open spec fn moves_index(cmd: Seq<Seq<char>>, i: int) -> int
    decreases cmd.len() - i,
{
    if i >= cmd.len() {
        cmd.len() as int
    } else if cmd[i] == "moves"@ {
        i
    } else {
        moves_index(cmd, i + 1)
    }
}

/// Words joined with single spaces between them.
pub open spec fn join_words(ws: Seq<Seq<char>>) -> Seq<char>
    decreases ws.len(),
{
    if ws.len() == 0 {
        Seq::empty()
    } else if ws.len() == 1 {
        ws[0]
    } else {
        join_words(ws.drop_last()) + seq![' '] + ws.last()
    }
}

/// The position text of a `position` command: the starting position after
/// `startpos`, otherwise the words from the third up to `moves`.
pub open spec fn position_fen(cmd: Seq<Seq<char>>) -> Seq<char> {
    if cmd[1] == "startpos"@ {
        start_fen()
    } else {
        join_words(cmd.subrange(2, moves_index(cmd, 2)))
    }
}

/// The moves of a `position` command: the words after `moves`, when `moves`
/// follows the position.
pub open spec fn position_moves(cmd: Seq<Seq<char>>) -> Seq<Seq<char>> {
    let i = if cmd[1] == "startpos"@ {
        2
    } else {
        moves_index(cmd, 2)
    };
    if i < cmd.len() && cmd[i] == "moves"@ {
        cmd.subrange(i + 1, cmd.len() as int)
    } else {
        Seq::empty()
    }
}

/// Every move of `moves` can be made, one after the other, from `b`.
pub open spec fn moves_playable(b: Board, moves: Seq<Seq<char>>, keys: ZobristKeys) -> bool
    decreases moves.len(),
{
    if moves.len() == 0 {
        true
    } else {
        &&& make_move_requires(b, moves[0])
        &&& forall|b2: Board| #[trigger] make_move_post(b, moves[0], keys, b2) ==> moves_playable(b2, moves.drop_first(), keys)
    }
}

/// `r` is the position after making the moves of `moves` from `b`.
pub open spec fn moves_played(b: Board, moves: Seq<Seq<char>>, keys: ZobristKeys, r: Board) -> bool
    decreases moves.len(),
{
    if moves.len() == 0 {
        r == b
    } else {
        exists|b2: Board| #[trigger] make_move_post(b, moves[0], keys, b2) && moves_played(b2, moves.drop_first(), keys, r)
    }
}

/// The position after making the moves of `moves` from `b`, one after the
/// other: each step is the position `make_move` produces for the next text.
pub open spec fn fold_moves(b: Board, moves: Seq<Seq<char>>, keys: ZobristKeys) -> Board
    decreases moves.len(),
{
    if moves.len() == 0 {
        b
    } else {
        fold_moves(choose|b2: Board| make_move_post(b, moves[0], keys, b2), moves.drop_first(), keys)
    }
}

/// Making moves one after the other reaches one position only: the fold of
/// the single moves from the start.
pub proof fn played_is_fold(b: Board, moves: Seq<Seq<char>>, keys: ZobristKeys, r: Board)
    requires
        moves_played(b, moves, keys, r),
    ensures
        r == fold_moves(b, moves, keys),
    decreases moves.len(),
{
    if moves.len() > 0 {
        let b2 = choose|b2: Board| #[trigger] make_move_post(b, moves[0], keys, b2) && moves_played(
            b2,
            moves.drop_first(),
            keys,
            r,
        );
        let c = choose|b2: Board| make_move_post(b, moves[0], keys, b2);
        lemma_make_move_post_unique(b, moves[0], keys, b2, c);
        played_is_fold(b2, moves.drop_first(), keys, r);
    }
}

/// The `position` commands the interface can carry out: a position text that
/// reads, and moves that can all be made from it.
pub open spec fn position_accepted(cmd: Seq<Seq<char>>, keys: ZobristKeys) -> bool {
    &&& cmd.len() >= 2
    &&& fen_accepted(position_fen(cmd))
    &&& forall|b0: Board| #[trigger] fen_board(position_fen(cmd), keys, b0) ==> moves_playable(b0, position_moves(cmd), keys)
}

/// The search limits before any word of a `go` command is read.
pub open spec fn empty_search() -> SearchInfo {
    SearchInfo {
        current_time: [None, None],
        per_move_time: [None, None],
        depth: None,
        nodes: None,
        movetime: None,
        infinite: false,
    }
}

/// The search limits after the limit named `key` is given the value `val`.
pub open spec fn set_limit(info: SearchInfo, key: Seq<char>, val: u128) -> SearchInfo {
    if key == "wtime"@ {
        SearchInfo { current_time: [Some(val), info.current_time[1]], ..info }
    } else if key == "btime"@ {
        SearchInfo { current_time: [info.current_time[0], Some(val)], ..info }
    } else if key == "winc"@ {
        SearchInfo { per_move_time: [Some(val), info.per_move_time[1]], ..info }
    } else if key == "binc"@ {
        SearchInfo { per_move_time: [info.per_move_time[0], Some(val)], ..info }
    } else if key == "depth"@ {
        SearchInfo { depth: Some(val as usize), ..info }
    } else if key == "nodes"@ {
        SearchInfo { nodes: Some(val as usize), ..info }
    } else if key == "movetime"@ {
        SearchInfo { movetime: Some(val), ..info }
    } else {
        info
    }
}

/// Reading the words of a `go` command from index `i`: a word followed by a
/// number sets that limit and both are consumed; otherwise the word is
/// consumed alone, and `infinite` asks for an unlimited search. A last word
/// with nothing after it is not read.
pub open spec fn read_limits(cmd: Seq<Seq<char>>, i: int, info: SearchInfo) -> SearchInfo
    decreases cmd.len() - i,
{
    if i + 1 < cmd.len() {
        match parse_unsigned_spec(cmd[i + 1], u128::MAX as int) {
            Some(v) => read_limits(cmd, i + 2, set_limit(info, cmd[i], v as u128)),
            None => read_limits(
                cmd,
                i + 1,
                if cmd[i] == "infinite"@ {
                    SearchInfo { infinite: true, ..info }
                } else {
                    info
                },
            ),
        }
    } else {
        info
    }
}

/// Each side's clock and increment go to that side's place in the search
/// limits (its index among the colours), and setting one limit leaves the
/// other side's as it was.
pub proof fn limits_go_to_their_side(info: SearchInfo, v: u128)
    ensures
        set_limit(info, "wtime"@, v).current_time[PieceColor::White.spec_idx()] == Some(v),
        set_limit(info, "wtime"@, v).current_time[PieceColor::Black.spec_idx()] == info.current_time[1],
        set_limit(info, "btime"@, v).current_time[PieceColor::Black.spec_idx()] == Some(v),
        set_limit(info, "btime"@, v).current_time[PieceColor::White.spec_idx()] == info.current_time[0],
        set_limit(info, "winc"@, v).per_move_time[PieceColor::White.spec_idx()] == Some(v),
        set_limit(info, "winc"@, v).per_move_time[PieceColor::Black.spec_idx()] == info.per_move_time[1],
        set_limit(info, "binc"@, v).per_move_time[PieceColor::Black.spec_idx()] == Some(v),
        set_limit(info, "binc"@, v).per_move_time[PieceColor::White.spec_idx()] == info.per_move_time[0],
{
    reveal_strlit("wtime");
    reveal_strlit("btime");
    reveal_strlit("winc");
    reveal_strlit("binc");
    assert("wtime"@ != "btime"@) by {
        assert("wtime"@[0] != "btime"@[0]);
    }
    assert("winc"@ != "wtime"@ && "winc"@ != "btime"@) by {
        assert("winc"@.len() != "wtime"@.len());
    }
    assert("binc"@ != "wtime"@ && "binc"@ != "btime"@ && "binc"@ != "winc"@) by {
        assert("binc"@.len() != "wtime"@.len());
        assert("binc"@[0] != "winc"@[0]);
    }
}

/// The `setoption` commands the interface can carry out: those that name the
/// depth limit give a number for it.
pub open spec fn set_option_accepted(cmd: Seq<Seq<char>>) -> bool {
    &&& cmd.len() >= 2
    &&& cmd[1] == "name"@ ==> cmd.len() >= 3
    &&& cmd[1] == "name"@ && cmd[2] == "MaxSearchDepth"@ ==> cmd.len() >= 4
    &&& cmd[1] == "name"@ && cmd[2] == "MaxSearchDepth"@ && cmd[3] == "value"@ ==> cmd.len() >= 5
        && parse_unsigned_spec(cmd[4], usize::MAX as int) is Some
}

/// The depth limit after a `setoption` command.
pub open spec fn depth_after_option(cmd: Seq<Seq<char>>, depth: usize) -> usize {
    if cmd[1] == "name"@ && cmd[2] == "MaxSearchDepth"@ && cmd[3] == "value"@ {
        parse_unsigned_spec(cmd[4], usize::MAX as int).unwrap() as usize
    } else {
        depth
    }
}

/// Joins the words with single spaces between them.
fn join_with_spaces(ws: &Vec<&str>) -> (s: String)
    ensures
        s@ == join_words(words(ws@)),
{
    let ghost w = words(ws@);
    let mut s = String::new();
    let n = ws.len();
    if n == 0 {
        assert(w =~= Seq::<Seq<char>>::empty());
        return s;
    }
    s.append(ws[0]);
    assert(w.take(1).len() == 1);
    assert(w.take(1)[0] == ws@[0]@);
    let mut i: usize = 1;
    while i < n
        invariant
            1 <= i <= n,
            n == ws@.len(),
            w == words(ws@),
            s@ == join_words(w.take(i as int)),
        decreases n - i,
    {
        push_char(&mut s, ' ');
        s.append(ws[i]);
        proof {
            let t = w.take(i as int + 1);
            assert(t.drop_last() =~= w.take(i as int));
            assert(t.last() == ws@[i as int]@);
            assert(s@ =~= join_words(t));
        }
        i = i + 1;
    }
    assert(w.take(n as int) =~= w);
    s
}

/// The words of a `position fen` command from the third up to the word
/// `moves` (or the end), and the index where they stop.
fn fen_words<'a>(command: &Vec<&'a str>) -> (r: (Vec<&'a str>, usize))
    requires
        command@.len() >= 2,
    ensures
        r.1 == moves_index(words(command@), 2),
        2 <= r.1 <= command@.len(),
        r.1 < command@.len() ==> words(command@)[r.1 as int] == "moves"@,
        words(r.0@) == words(command@).subrange(2, r.1 as int),
{
    let ghost cmd = words(command@);
    let n = command.len();
    let mut i: usize = 2;
    let mut fen_tokens: Vec<&str> = Vec::new();
    while i < n
        invariant
            n == command@.len(),
            2 <= i <= n,
            cmd == words(command@),
            cmd.len() == n,
            moves_index(cmd, 2) == moves_index(cmd, i as int),
            fen_tokens@.len() == i - 2,
            forall|k: int| 0 <= k < i - 2 ==> #[trigger] fen_tokens@[k]@ == cmd[k + 2],
        ensures
            2 <= i <= n,
            i < n ==> cmd[i as int] == "moves"@,
            moves_index(cmd, 2) == moves_index(cmd, i as int),
            fen_tokens@.len() == i - 2,
            forall|k: int| 0 <= k < i - 2 ==> #[trigger] fen_tokens@[k]@ == cmd[k + 2],
        decreases n - i,
    {
        assert(cmd[i as int] == command@[i as int]@);
        if str_eq(command[i], "moves") {
            break;
        }
        fen_tokens.push(command[i]);
        i = i + 1;
    }
    assert(moves_index(cmd, i as int) == i as int);
    assert(words(fen_tokens@) =~= cmd.subrange(2, i as int));
    (fen_tokens, i)
}

/// Moves can be made only when the first of them can.
proof fn lemma_playable_first(b: Board, ms: Seq<Seq<char>>, keys: ZobristKeys)
    requires
        ms.len() > 0,
    ensures
        moves_playable(b, ms, keys) ==> make_move_requires(b, ms[0]),
{
}

/// Moves can be made when the first can and the rest can from where it leads.
proof fn lemma_playable_step(b: Board, ms: Seq<Seq<char>>, keys: ZobristKeys, b2: Board)
    requires
        ms.len() > 0,
        make_move_post(b, ms[0], keys, b2),
    ensures
        moves_playable(b, ms, keys) == (make_move_requires(b, ms[0]) && moves_playable(b2, ms.drop_first(), keys)),
{
    assert forall|b3: Board| #[trigger] make_move_post(b, ms[0], keys, b3) implies b3 == b2 by {
        lemma_make_move_post_unique(b, ms[0], keys, b3, b2);
    }
}

impl UciInterface {
    /// A fresh interface with no position and a depth limit of 99.
    pub fn new(zobrist_keys: ZobristKeys) -> (u: Self)
        ensures
            u.current_board is None,
            u.max_search_depth == 99,
            u.zobrist_keys == zobrist_keys,
    {
        UciInterface { current_board: None, max_search_depth: 99, zobrist_keys: zobrist_keys }
    }

    /// `position startpos [moves ...]` or `position fen <fields> [moves ...]`:
    /// sets the current position and reports it.
    pub fn position(&mut self, command: Vec<&str>) -> (r: Option<Cmd>)
        requires
            position_accepted(words(command@), old(self).zobrist_keys),
        ensures
            ({
                let cmd = words(command@);
                let keys = old(self).zobrist_keys;
                exists|b: Board| #![trigger fen_board(position_fen(cmd), keys, b)] {
                    &&& final(self).current_board is Some
                    &&& r == Some(Cmd::SetBoard(final(self).current_board.unwrap()))
                    &&& fen_board(position_fen(cmd), keys, b)
                    &&& moves_played(b, position_moves(cmd), keys, final(self).current_board.unwrap())
                    &&& final(self).current_board == Some(fold_moves(b, position_moves(cmd), keys))
                }
            }),
            final(self).max_search_depth == old(self).max_search_depth,
            final(self).zobrist_keys == old(self).zobrist_keys,
    {
        let ghost cmd = words(command@);
        let n = command.len();
        assert(cmd.len() == n);
        let mut i: usize = 1;
        assert(cmd[1] == command@[1]@);
        let mut cur_board: Board;
        if str_eq(command[1], "startpos") {
            proof {
                lemma_start_position_accepted();
            }
            cur_board = Board::new("rnbqkbnr/pppppppp/8/8/8/8/PPPPPPPP/RNBQKBNR w KQkq - 0 1", &self.zobrist_keys);
            i = i + 1;
        } else {
            let (fen_tokens, end) = fen_words(&command);
            i = end;
            let fen = join_with_spaces(&fen_tokens);
            cur_board = Board::new(fen.as_str(), &self.zobrist_keys);
        }
        let ghost b0 = cur_board;
        let ghost moves = position_moves(cmd);
        assert(fen_board(position_fen(cmd), self.zobrist_keys, b0));
        if i < n && str_eq(command[i], "moves") {
            i = i + 1;
            let ghost start = i as int;
            assert(moves == cmd.subrange(start, n as int));
            while i < n
                invariant
                    n == command@.len(),
                    start <= i <= n,
                    cmd == words(command@),
                    cmd.len() == n,
                    moves == cmd.subrange(start, n as int),
                    moves_playable(cur_board, cmd.subrange(i as int, n as int), self.zobrist_keys),
                    forall|r: Board| moves_played(cur_board, cmd.subrange(i as int, n as int), self.zobrist_keys, r)
                        ==> #[trigger] moves_played(b0, moves, self.zobrist_keys, r),
                decreases n - i,
            {
                let ghost rest = cmd.subrange(i as int, n as int);
                assert(rest[0] == command@[i as int]@);
                assert(rest.drop_first() =~= cmd.subrange(i as int + 1, n as int));
                let prev = cur_board;
                cur_board = cur_board.make_move(command[i], &self.zobrist_keys);
                proof {
                    assert(make_move_post(prev, rest[0], self.zobrist_keys, cur_board));
                    assert forall|r: Board| moves_played(cur_board, rest.drop_first(), self.zobrist_keys, r)
                        implies #[trigger] moves_played(b0, moves, self.zobrist_keys, r) by {
                        assert(moves_played(prev, rest, self.zobrist_keys, r));
                    }
                }
                i = i + 1;
            }
            assert(cmd.subrange(n as int, n as int) =~= Seq::<Seq<char>>::empty());
            assert(moves_played(cur_board, Seq::<Seq<char>>::empty(), self.zobrist_keys, cur_board));
        } else {
            assert(moves =~= Seq::<Seq<char>>::empty());
        }
        proof {
            played_is_fold(b0, moves, self.zobrist_keys, cur_board);
        }
        self.current_board = Some(cur_board);
        Some(Cmd::SetBoard(cur_board))
    }

    /// Tells whether `position` can carry out the command: the position text
    /// reads and every move can be made in turn.
    pub fn position_playable(&self, command: &Vec<&str>) -> (r: bool)
        ensures
            r == position_accepted(words(command@), self.zobrist_keys),
    {
        let ghost cmd = words(command@);
        let ghost keys = self.zobrist_keys;
        let n = command.len();
        if n < 2 {
            return false;
        }
        assert(cmd[1] == command@[1]@);
        let mut i: usize;
        let mut cur: Board;
        if str_eq(command[1], "startpos") {
            proof {
                lemma_start_position_accepted();
            }
            cur = Board::new("rnbqkbnr/pppppppp/8/8/8/8/PPPPPPPP/RNBQKBNR w KQkq - 0 1", &self.zobrist_keys);
            i = 2;
        } else {
            let (fen_tokens, end) = fen_words(command);
            i = end;
            let fen = join_with_spaces(&fen_tokens);
            match Board::try_new(fen.as_str(), &self.zobrist_keys) {
                Some(b) => {
                    cur = b;
                },
                None => {
                    return false;
                },
            }
        }
        let ghost b0 = cur;
        let ghost moves = position_moves(cmd);
        assert(fen_board(position_fen(cmd), keys, b0));
        assert(position_accepted(cmd, keys) == moves_playable(b0, moves, keys)) by {
            assert forall|b1: Board| #[trigger] fen_board(position_fen(cmd), keys, b1) implies b1 == b0 by {
                lemma_fen_board_unique(position_fen(cmd), keys, b1, b0);
            }
        }
        if i < n && str_eq(command[i], "moves") {
            i = i + 1;
            let ghost start = i as int;
            assert(moves == cmd.subrange(start, n as int));
            while i < n
                invariant
                    n == command@.len(),
                    start <= i <= n,
                    cmd == words(command@),
                    cmd.len() == n,
                    keys == self.zobrist_keys,
                    moves == cmd.subrange(start, n as int),
                    position_accepted(cmd, keys) == moves_playable(b0, moves, keys),
                    moves_playable(b0, moves, keys) == moves_playable(cur, cmd.subrange(i as int, n as int), keys),
                decreases n - i,
            {
                let ghost rest = cmd.subrange(i as int, n as int);
                assert(rest[0] == command@[i as int]@);
                assert(rest.drop_first() =~= cmd.subrange(i as int + 1, n as int));
                assert(rest.len() > 0);
                if !cur.move_playable(command[i]) {
                    proof {
                        lemma_playable_first(cur, rest, keys);
                    }
                    return false;
                }
                let prev = cur;
                cur = cur.make_move(command[i], &self.zobrist_keys);
                proof {
                    assert(make_move_post(prev, rest[0], keys, cur));
                    lemma_playable_step(prev, rest, keys, cur);
                }
                i = i + 1;
            }
            assert(cmd.subrange(n as int, n as int) =~= Seq::<Seq<char>>::empty());
        } else {
            assert(moves =~= Seq::<Seq<char>>::empty());
        }
        true
    }

    /// `go [limit value | infinite]...`: reads the search limits and asks for
    /// a search under them.
    pub fn go(&mut self, command: Vec<&str>) -> (r: Option<Cmd>)
        ensures
            r == Some(Cmd::Go(read_limits(words(command@), 1, empty_search()))),
            *final(self) == *old(self),
    {
        let ghost cmd = words(command@);
        let n = command.len();
        let mut info = SearchInfo {
            current_time: [None, None],
            per_move_time: [None, None],
            depth: None,
            nodes: None,
            movetime: None,
            infinite: false,
        };
        let mut i: usize = 1;
        while i < n && i + 1 < n
            invariant
                n == command@.len(),
                cmd == words(command@),
                cmd.len() == n,
                1 <= i,
                i <= n || i == 1,
                read_limits(cmd, i as int, info) == read_limits(cmd, 1, empty_search()),
            decreases n - i,
        {
            assert(cmd[i as int] == command@[i as int]@);
            assert(cmd[i as int + 1] == command@[i as int + 1]@);
            let digits = str_chars(command[i + 1]);
            match parse_unsigned(&digits, u128::MAX) {
                Some(val) => {
                    let key = command[i];
                    if str_eq(key, "wtime") {
                        info.current_time = [Some(val), info.current_time[1]];
                    } else if str_eq(key, "btime") {
                        info.current_time = [info.current_time[0], Some(val)];
                    } else if str_eq(key, "winc") {
                        info.per_move_time = [Some(val), info.per_move_time[1]];
                    } else if str_eq(key, "binc") {
                        info.per_move_time = [info.per_move_time[0], Some(val)];
                    } else if str_eq(key, "depth") {
                        info.depth = Some(val as usize);
                    } else if str_eq(key, "nodes") {
                        info.nodes = Some(val as usize);
                    } else if str_eq(key, "movetime") {
                        info.movetime = Some(val);
                    }
                    i = i + 2;
                },
                None => {
                    if str_eq(command[i], "infinite") {
                        info.infinite = true;
                    }
                    i = i + 1;
                },
            }
        }
        Some(Cmd::Go(info))
    }

    /// `ucinewgame`: forgets the current position.
    pub fn uci_new_game(&mut self) -> (r: Option<Cmd>)
        ensures
            r is None,
            final(self).current_board is None,
            final(self).max_search_depth == old(self).max_search_depth,
            final(self).zobrist_keys == old(self).zobrist_keys,
    {
        self.current_board = None;
        None
    }

    /// `stop`: asks for the running search to end.
    pub fn stop(&mut self) -> (r: Option<Cmd>)
        ensures
            r == Some(Cmd::Stop),
            *final(self) == *old(self),
    {
        Some(Cmd::Stop)
    }

    /// `setoption name MaxSearchDepth value <n>`: sets the depth limit; other
    /// options are ignored.
    pub fn set_option(&mut self, command: Vec<&str>) -> (r: Option<Cmd>)
        requires
            set_option_accepted(words(command@)),
        ensures
            r is None,
            final(self).max_search_depth == depth_after_option(words(command@), old(self).max_search_depth),
            final(self).current_board == old(self).current_board,
            final(self).zobrist_keys == old(self).zobrist_keys,
    {
        let ghost cmd = words(command@);
        assert(cmd[1] == command@[1]@);
        if str_eq(command[1], "name") {
            assert(cmd[2] == command@[2]@);
            if str_eq(command[2], "MaxSearchDepth") {
                assert(cmd[3] == command@[3]@);
                if str_eq(command[3], "value") {
                    assert(cmd[4] == command@[4]@);
                    let digits = str_chars(command[4]);
                    let max: u128 = usize::MAX as u128;
                    match parse_unsigned(&digits, max) {
                        Some(v) => {
                            self.max_search_depth = v as usize;
                        },
                        None => {},
                    }
                }
            }
        }
        None
    }

    /// `perft <depth>`: asks for a move-path count to the given depth.
    pub fn perft(&mut self, command: Vec<&str>) -> (r: Option<Cmd>)
        requires
            command@.len() >= 2,
            parse_unsigned_spec(command@[1]@, usize::MAX as int) is Some,
        ensures
            r == Some(Cmd::Perft(parse_unsigned_spec(command@[1]@, usize::MAX as int).unwrap() as usize)),
            *final(self) == *old(self),
    {
        let digits = str_chars(command[1]);
        let max: u128 = usize::MAX as u128;
        match parse_unsigned(&digits, max) {
            Some(v) => Some(Cmd::Perft(v as usize)),
            None => Some(Cmd::Perft(0)),
        }
    }
}

} // verus!
