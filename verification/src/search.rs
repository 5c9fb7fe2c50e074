//! The decisions of the alpha-beta search at one node: the repetition count,
//! what the transposition table tells, how a child's score moves the window,
//! and the scores of nodes without moves. Generating the moves and walking
//! the tree belong to the program around the library.
use vstd::prelude::*;
use std::collections::HashMap;
use crate::board::{Move, PieceColor};
use crate::tables::{Entry, Flag};

verus! {

broadcast use vstd::std_specs::hash::group_hash_axioms;

/// The score the side to move starts from before any move is tried: the
/// worst one for it.
pub open spec fn worst_score(turn: PieceColor) -> i32 {
    match turn {
        PieceColor::White => i32::MIN,
        PieceColor::Black => i32::MAX,
    }
}

/// The smaller of two scores.
pub open spec fn min_score(a: i32, b: i32) -> i32 {
    if a <= b {
        a
    } else {
        b
    }
}

/// The larger of two scores.
pub open spec fn max_score(a: i32, b: i32) -> i32 {
    if a >= b {
        a
    } else {
        b
    }
}

/// How often a position has been reached on the current line of play.
pub open spec fn visits(m: Map<u64, usize>, hash: u64) -> int {
    if m.contains_key(hash) {
        m[hash] as int
    } else {
        0
    }
}

/// The counts after leaving a node whose count was `prev` on entry: the
/// position is forgotten when it had not been reached before.
pub open spec fn restored(m: Map<u64, usize>, hash: u64, prev: usize) -> Map<u64, usize> {
    if prev == 0 {
        m.remove(hash)
    } else {
        m.insert(hash, prev)
    }
}

/// Every count held is at least one.
pub open spec fn counts_positive(m: Map<u64, usize>) -> bool {
    forall|h: u64| #[trigger] m.contains_key(h) ==> m[h] >= 1
}

/// What a transposition-table entry tells the search at a node.
pub enum Probe {
    /// The node's score is known: this score and this move.
    Cutoff(i32, Move),
    /// The search goes on with this window (alpha, beta).
    Window(i32, i32),
}

/// What the entry stored for `hash` tells a search of depth `depth` with
/// window (`alpha`, `beta`): an entry for the same position searched at least
/// as deep gives its exact score, or narrows the window by its bound and
/// gives its score when the window closes.
pub open spec fn probe_spec(table: Map<u64, Entry>, hash: u64, depth: usize, alpha: i32, beta: i32) -> Probe {
    if table.contains_key(hash) && table[hash].zobrist_hash == hash && table[hash].depth >= depth {
        let e = table[hash];
        match e.flag {
            Flag::EXACT => Probe::Cutoff(e.eval, e.move_info),
            Flag::ALPHA => {
                let b2 = min_score(beta, e.eval);
                if alpha >= b2 {
                    Probe::Cutoff(e.eval, e.move_info)
                } else {
                    Probe::Window(alpha, b2)
                }
            },
            Flag::BETA => {
                let a2 = max_score(alpha, e.eval);
                if a2 >= beta {
                    Probe::Cutoff(e.eval, e.move_info)
                } else {
                    Probe::Window(a2, beta)
                }
            },
        }
    } else {
        Probe::Window(alpha, beta)
    }
}

/// The search state at a node after a child scored `score`: the best score,
/// the window, and whether the child became the best move. White raises
/// alpha, black lowers beta.
pub open spec fn child_step(turn: PieceColor, score: i32, best: i32, alpha: i32, beta: i32) -> (i32, i32, i32, bool) {
    match turn {
        PieceColor::White => {
            let improved = score > best;
            (if improved { score } else { best }, max_score(alpha, score), beta, improved)
        },
        PieceColor::Black => {
            let improved = score < best;
            (if improved { score } else { best }, alpha, min_score(beta, score), improved)
        },
    }
}

/// The outcome of comparing a score with the window in the capture search.
pub enum Bound {
    /// The score reaches the bound of the side to move: return this bound.
    Cut(i32),
    /// The search goes on with this window (alpha, beta).
    Open(i32, i32),
}

/// A score against the window of the capture search: for white a score of at
/// least beta cuts at beta, otherwise alpha rises to it; for black a score of
/// at most alpha cuts at alpha, otherwise beta falls to it.
pub open spec fn bound_spec(turn: PieceColor, score: i32, alpha: i32, beta: i32) -> Bound {
    match turn {
        PieceColor::White => if score >= beta {
            Bound::Cut(beta)
        } else {
            Bound::Open(max_score(alpha, score), beta)
        },
        PieceColor::Black => if score <= alpha {
            Bound::Cut(alpha)
        } else {
            Bound::Open(alpha, min_score(beta, score))
        },
    }
}

/// Enters a node below the root: `None` when the position was already
/// reached twice on this line (the node is a draw and the counts stay as they
/// are); otherwise the count is raised by one and its value before is
/// returned.
pub fn enter_position(positions: &mut HashMap<u64, usize>, hash: u64) -> (r: Option<usize>)
    ensures
        r is None <==> visits(old(positions)@, hash) >= 2,
        r is None ==> final(positions)@ == old(positions)@,
        r is Some ==> r.unwrap() == visits(old(positions)@, hash),
        r is Some ==> final(positions)@ == old(positions)@.insert(hash, (r.unwrap() + 1) as usize),
{
    match positions.get(&hash) {
        Some(x) => {
            let count = *x;
            if count >= 2 {
                None
            } else {
                positions.insert(hash, count + 1);
                Some(count)
            }
        },
        None => {
            positions.insert(hash, 1);
            Some(0)
        },
    }
}

/// Leaves a node whose count was `prev` on entry.
pub fn leave_position(positions: &mut HashMap<u64, usize>, hash: u64, prev: usize)
    ensures
        final(positions)@ == restored(old(positions)@, hash, prev),
{
    if prev == 0 {
        positions.remove(&hash);
    } else {
        positions.insert(hash, prev);
    }
}

/// Looks up the transposition table for the position `hash` at depth
/// `depth` with window (`alpha`, `beta`).
pub fn probe_table(table: &HashMap<u64, Entry>, hash: u64, depth: usize, alpha: i32, beta: i32) -> (p: Probe)
    ensures
        p == probe_spec(table@, hash, depth, alpha, beta),
{
    match table.get(&hash) {
        Some(e) => {
            if e.zobrist_hash == hash && e.depth >= depth {
                match e.flag {
                    Flag::EXACT => Probe::Cutoff(e.eval, e.move_info),
                    Flag::ALPHA => {
                        let b2 = if beta <= e.eval {
                            beta
                        } else {
                            e.eval
                        };
                        if alpha >= b2 {
                            Probe::Cutoff(e.eval, e.move_info)
                        } else {
                            Probe::Window(alpha, b2)
                        }
                    },
                    Flag::BETA => {
                        let a2 = if alpha >= e.eval {
                            alpha
                        } else {
                            e.eval
                        };
                        if a2 >= beta {
                            Probe::Cutoff(e.eval, e.move_info)
                        } else {
                            Probe::Window(a2, beta)
                        }
                    },
                }
            } else {
                Probe::Window(alpha, beta)
            }
        },
        None => Probe::Window(alpha, beta),
    }
}

/// Stores the result of a search of the position `hash`.
pub fn record_entry(table: &mut HashMap<u64, Entry>, hash: u64, depth: usize, flag: Flag, eval: i32, move_info: Move)
    ensures
        final(table)@ == old(table)@.insert(hash, Entry { zobrist_hash: hash, depth, flag, eval, move_info }),
{
    table.insert(hash, Entry { zobrist_hash: hash, depth, flag, eval, move_info });
}

/// The score the side to move starts from at a node.
pub fn worst_for(turn: PieceColor) -> (s: i32)
    ensures
        s == worst_score(turn),
{
    match turn {
        PieceColor::White => i32::MIN,
        PieceColor::Black => i32::MAX,
    }
}

/// The score of a node without moves: a draw by stalemate when the side to
/// move is not in check, otherwise the worst score for it.
pub fn no_moves_score(turn: PieceColor, check_real: u64) -> (s: i32)
    ensures
        s == (if check_real == 0 {
            0
        } else {
            worst_score(turn)
        }),
{
    if check_real == 0 {
        0
    } else {
        worst_for(turn)
    }
}

/// Takes a child's score into the node's best score and window.
pub fn after_child(turn: PieceColor, score: i32, best: i32, alpha: i32, beta: i32) -> (r: (i32, i32, i32, bool))
    ensures
        r == child_step(turn, score, best, alpha, beta),
{
    match turn {
        PieceColor::White => {
            let improved = score > best;
            let a2 = if alpha >= score {
                alpha
            } else {
                score
            };
            (if improved { score } else { best }, a2, beta, improved)
        },
        PieceColor::Black => {
            let improved = score < best;
            let b2 = if beta <= score {
                beta
            } else {
                score
            };
            (if improved { score } else { best }, alpha, b2, improved)
        },
    }
}

/// The bound an entry gets when the window closed at a node: a lower bound
/// for white, an upper bound for black.
pub fn cutoff_flag(turn: PieceColor) -> (f: Flag)
    ensures
        f == (match turn {
            PieceColor::White => Flag::BETA,
            PieceColor::Black => Flag::ALPHA,
        }),
{
    match turn {
        PieceColor::White => Flag::BETA,
        PieceColor::Black => Flag::ALPHA,
    }
}

/// Compares a score with the window of the capture search.
pub fn bound_score(turn: PieceColor, score: i32, alpha: i32, beta: i32) -> (b: Bound)
    ensures
        b == bound_spec(turn, score, alpha, beta),
{
    match turn {
        PieceColor::White => if score >= beta {
            Bound::Cut(beta)
        } else {
            Bound::Open(if alpha >= score { alpha } else { score }, beta)
        },
        PieceColor::Black => if score <= alpha {
            Bound::Cut(alpha)
        } else {
            Bound::Open(alpha, if beta <= score { beta } else { score })
        },
    }
}

/// Leaving a node restores the counts it found on entry: after
/// `enter_position` records a visit, `leave_position` with the returned count
/// gives back the counts as they were, when no count held is zero.
pub proof fn leave_undoes_enter(m: Map<u64, usize>, hash: u64)
    requires
        counts_positive(m),
        visits(m, hash) < 2,
    ensures
        restored(m.insert(hash, (visits(m, hash) + 1) as usize), hash, visits(m, hash) as usize) == m,
{
    let v = visits(m, hash);
    let after = restored(m.insert(hash, (v + 1) as usize), hash, v as usize);
    if m.contains_key(hash) {
        assert(v >= 1);
        assert(after =~= m);
    } else {
        assert(after =~= m);
    }
}

/// Entering and leaving nodes keep every count at least one.
pub proof fn counts_stay_positive(m: Map<u64, usize>, hash: u64, prev: usize)
    requires
        counts_positive(m),
    ensures
        visits(m, hash) < 2 ==> counts_positive(m.insert(hash, (visits(m, hash) + 1) as usize)),
        counts_positive(restored(m, hash, prev)),
{
}

/// A stored exact result is what the next look-up of that position finds, at
/// any depth up to the stored one and for any window.
pub proof fn probe_finds_exact_entry(
    table: Map<u64, Entry>,
    hash: u64,
    depth: usize,
    eval: i32,
    move_info: Move,
    probe_depth: usize,
    alpha: i32,
    beta: i32,
)
    requires
        probe_depth <= depth,
    ensures
        probe_spec(
            table.insert(hash, Entry { zobrist_hash: hash, depth, flag: Flag::EXACT, eval, move_info }),
            hash,
            probe_depth,
            alpha,
            beta,
        ) == Probe::Cutoff(eval, move_info),
{
}

/// A stored bound never widens the window: the window a look-up continues
/// with lies within the one it was given.
pub proof fn probe_narrows_window(table: Map<u64, Entry>, hash: u64, depth: usize, alpha: i32, beta: i32)
    ensures
        probe_spec(table, hash, depth, alpha, beta) matches Probe::Window(a, b) ==> alpha <= a && b <= beta,
{
}

} // verus!
