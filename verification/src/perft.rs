//! Sharing the moves of a position out among threads for counting move
//! paths.
use vstd::prelude::*;
use crate::board::Move;

verus! {

/// The `i`-th of `tc` groups of the moves `s`: groups of `s.len() / tc`
/// moves in order, the last also taking the moves left over.
pub open spec fn chunk_of(s: Seq<Move>, tc: int, i: int) -> Seq<Move> {
    let g = (s.len() as int) / tc;
    if i + 1 == tc {
        s.subrange(g * i, s.len() as int)
    } else {
        s.subrange(g * i, g * (i + 1))
    }
}

/// The first `k` groups put back together.
pub open spec fn joined_chunks(s: Seq<Move>, tc: int, k: int) -> Seq<Move>
    decreases k,
{
    if k <= 0 {
        Seq::empty()
    } else {
        joined_chunks(s, tc, k - 1) + chunk_of(s, tc, k - 1)
    }
}

/// `tc` groups of `g = len / tc` moves fit in `len`, and the group bounds
/// grow with the group index.
proof fn lemma_group_bounds(len: int, tc: int, i: int)
    requires
        len >= 0,
        tc > 0,
        0 <= i < tc,
    ensures
        0 <= (len / tc) * i <= (len / tc) * (i + 1) <= len,
        (len / tc) * (i + 1) == (len / tc) * i + len / tc,
{
    let g = len / tc;
    vstd::arithmetic::div_mod::lemma_fundamental_div_mod(len, tc);
    assert(len % tc >= 0) by {
        vstd::arithmetic::div_mod::lemma_mod_bound(len, tc);
    }
    assert(g >= 0) by (nonlinear_arith)
        requires
            len >= 0,
            tc > 0,
            g == len / tc,
    ;
    assert(g * (i + 1) == g * i + g) by (nonlinear_arith);
    assert(0 <= g * i) by (nonlinear_arith)
        requires
            g >= 0,
            i >= 0,
    ;
    assert(g * (i + 1) <= g * tc) by (nonlinear_arith)
        requires
            g >= 0,
            i + 1 <= tc,
    ;
    assert(g * tc == tc * g) by (nonlinear_arith);
}

/// Sharing moves out among threads loses none and repeats none: the groups,
/// put back together in order, are the moves.
pub proof fn chunks_keep_every_move(s: Seq<Move>, tc: int)
    requires
        tc > 0,
    ensures
        joined_chunks(s, tc, tc) == s,
{
    let len = s.len() as int;
    let g = len / tc;
    assert forall|k: int| 0 <= k < tc implies #[trigger] joined_chunks(s, tc, k) == s.subrange(0, g * k) by {
        lemma_joined_prefix(s, tc, k);
    }
    lemma_group_bounds(len, tc, tc - 1);
    assert(joined_chunks(s, tc, tc - 1) == s.subrange(0, g * (tc - 1)));
    assert(joined_chunks(s, tc, tc) =~= s);
}

/// All but the last group, put back together, are a prefix of the moves.
proof fn lemma_joined_prefix(s: Seq<Move>, tc: int, k: int)
    requires
        tc > 0,
        0 <= k < tc,
    ensures
        joined_chunks(s, tc, k) == s.subrange(0, ((s.len() as int) / tc) * k),
    decreases k,
{
    let len = s.len() as int;
    let g = len / tc;
    if k == 0 {
        assert(g * 0 == 0);
        assert(s.subrange(0, 0) =~= Seq::<Move>::empty());
    } else {
        lemma_joined_prefix(s, tc, k - 1);
        lemma_group_bounds(len, tc, k - 1);
        assert(joined_chunks(s, tc, k) =~= s.subrange(0, g * k));
    }
}

/// The moves from `lo` up to `hi`.
fn copy_range(moves: &Vec<Move>, lo: usize, hi: usize) -> (out: Vec<Move>)
    requires
        lo <= hi <= moves@.len(),
    ensures
        out@ == moves@.subrange(lo as int, hi as int),
{
    let mut out: Vec<Move> = Vec::new();
    let mut j = lo;
    while j < hi
        invariant
            lo <= j <= hi,
            hi <= moves@.len(),
            out@ == moves@.subrange(lo as int, j as int),
        decreases hi - j,
    {
        out.push(moves[j]);
        assert(out@ =~= moves@.subrange(lo as int, j as int + 1));
        j = j + 1;
    }
    out
}

/// Shares the moves out among `thread_count` threads: each gets
/// `moves.len() / thread_count` moves in order, and the last also the moves
/// left over.
pub fn split_moves(moves: &Vec<Move>, thread_count: usize) -> (chunks: Vec<Vec<Move>>)
    requires
        thread_count > 0,
    ensures
        chunks@.len() == thread_count,
        forall|i: int| 0 <= i < thread_count ==> #[trigger] chunks@[i]@ == chunk_of(moves@, thread_count as int, i),
{
    let n = moves.len();
    let g = n / thread_count;
    let mut chunks: Vec<Vec<Move>> = Vec::new();
    let mut i: usize = 0;
    while i < thread_count
        invariant
            i <= thread_count,
            n == moves@.len(),
            g == n / thread_count,
            chunks@.len() == i,
            forall|k: int| 0 <= k < i ==> #[trigger] chunks@[k]@ == chunk_of(moves@, thread_count as int, k),
        decreases thread_count - i,
    {
        proof {
            lemma_group_bounds(n as int, thread_count as int, i as int);
        }
        let lo = g * i;
        let hi = if i + 1 == thread_count {
            n
        } else {
            g * (i + 1)
        };
        let chunk = copy_range(moves, lo, hi);
        chunks.push(chunk);
        i = i + 1;
    }
    chunks
}

} // verus!
