//! The scoring engine: +2 for each equal aligned byte, -1 for each unequal
//! one, over the prefix that both buffers share.

use vstd::prelude::*;
use vstd::string::StringSliceAdditionalSpecFns;

verus! {

/// Longest comparable prefix whose score always fits in `i32`.
pub const MAX_SCORED_LEN: usize = 1073741823;

/// Width of the byte groups that the vectorized path compares at once.
pub const LANES: usize = 16;

/// Contribution of one aligned position.
pub open spec fn pair_score(x: u8, y: u8) -> int {
    if x == y {
        2
    } else {
        -1
    }
}

/// Length of the comparable prefix of two buffers.
pub open spec fn min_len(a: Seq<u8>, b: Seq<u8>) -> nat {
    if a.len() <= b.len() {
        a.len()
    } else {
        b.len()
    }
}

/// Sum of the contributions of the first `n` aligned positions.
pub open spec fn score_prefix(a: Seq<u8>, b: Seq<u8>, n: nat) -> int
    decreases n,
{
    if n == 0 {
        0
    } else {
        score_prefix(a, b, (n - 1) as nat) + pair_score(a[n - 1], b[n - 1])
    }
}

/// The score of two buffers: the sum over their comparable prefix.
pub open spec fn score_of(a: Seq<u8>, b: Seq<u8>) -> int {
    score_prefix(a, b, min_len(a, b))
}

pub proof fn lemma_score_prefix_bounds(a: Seq<u8>, b: Seq<u8>, n: nat)
    ensures
        -(n as int) <= score_prefix(a, b, n) <= 2 * n,
    decreases n,
{
    if n > 0 {
        lemma_score_prefix_bounds(a, b, (n - 1) as nat);
    }
}

/// Prefix scores depend only on the bytes inside the prefix.
pub proof fn lemma_score_prefix_congruent(a: Seq<u8>, b: Seq<u8>, c: Seq<u8>, d: Seq<u8>, n: nat)
    requires
        n <= a.len(),
        n <= b.len(),
        n <= c.len(),
        n <= d.len(),
        forall|i: int| 0 <= i < n ==> a[i] == c[i] && b[i] == d[i],
    ensures
        score_prefix(a, b, n) == score_prefix(c, d, n),
    decreases n,
{
    if n > 0 {
        lemma_score_prefix_congruent(a, b, c, d, (n - 1) as nat);
    }
}

/// A prefix of length `s + k` scores as its first `s` positions plus the
/// next `k` positions taken on their own.
pub proof fn lemma_score_prefix_split(a: Seq<u8>, b: Seq<u8>, s: nat, k: nat)
    requires
        s + k <= a.len(),
        s + k <= b.len(),
    ensures
        score_prefix(a, b, s + k) == score_prefix(a, b, s) + score_prefix(
            a.subrange(s as int, a.len() as int),
            b.subrange(s as int, b.len() as int),
            k,
        ),
    decreases k,
{
    if k > 0 {
        lemma_score_prefix_split(a, b, s, (k - 1) as nat);
    }
}

/// Score of the `LANES` positions starting at `start`.
fn group_score(a: &[u8], b: &[u8], start: usize) -> (g: i32)
    requires
        start + LANES <= a.len(),
        start + LANES <= b.len(),
    ensures
        g == score_prefix(a@, b@, (start + LANES) as nat) - score_prefix(a@, b@, start as nat),
        -(LANES as int) <= g <= 2 * LANES,
{
    let mut g: i32 = 0;
    let mut k: usize = 0;
    while k < LANES
        invariant
            k <= LANES,
            start + LANES <= a.len(),
            start + LANES <= b.len(),
            g == score_prefix(a@, b@, (start + k) as nat) - score_prefix(a@, b@, start as nat),
            -(k as int) <= g <= 2 * k,
        decreases LANES - k,
    {
        if a[start + k] == b[start + k] {
            g = g + 2;
        } else {
            g = g - 1;
        }
        k = k + 1;
    }
    g
}

/// Scores two byte buffers: full groups of `LANES` bytes first, then the
/// remaining tail one byte at a time.
pub fn score_bytes(a: &[u8], b: &[u8]) -> (r: i32)
    requires
        2 * min_len(a@, b@) <= i32::MAX,
    ensures
        r == score_of(a@, b@),
{
    let len: usize = if a.len() <= b.len() {
        a.len()
    } else {
        b.len()
    };
    let mut total: i32 = 0;
    let mut i: usize = 0;
    while len - i >= LANES
        invariant
            i <= len,
            len == min_len(a@, b@),
            2 * len <= i32::MAX,
            total == score_prefix(a@, b@, i as nat),
        decreases len - i,
    {
        let g = group_score(a, b, i);
        proof {
            lemma_score_prefix_bounds(a@, b@, (i + LANES) as nat);
        }
        total = total + g;
        i = i + LANES;
    }
    while i < len
        invariant
            i <= len,
            len == min_len(a@, b@),
            2 * len <= i32::MAX,
            total == score_prefix(a@, b@, i as nat),
        decreases len - i,
    {
        proof {
            lemma_score_prefix_bounds(a@, b@, (i + 1) as nat);
        }
        if a[i] == b[i] {
            total = total + 2;
        } else {
            total = total - 1;
        }
        i = i + 1;
    }
    total
}

/// Scores two sequences given as text, byte by byte.
pub fn align(seq1: &str, seq2: &str) -> (r: i32)
    requires
        2 * min_len(seq1.spec_bytes(), seq2.spec_bytes()) <= i32::MAX,
    ensures
        r == score_of(seq1.spec_bytes(), seq2.spec_bytes()),
{
    score_bytes(seq1.as_bytes(), seq2.as_bytes())
}


/// Shortest buffer that self-alignment scores; shorter ones contribute 0.
pub const MIN_SELF_ALIGN_LEN: usize = 100;

/// Self-alignment score of a chunk buffer: 0 below the length threshold.
pub open spec fn self_score(c: Seq<u8>) -> int {
    if c.len() < MIN_SELF_ALIGN_LEN {
        0
    } else {
        score_of(c, c)
    }
}

/// Scores a chunk buffer against itself, skipping buffers too short to
/// carry any signal.
pub fn align_chunk_self(chunk: &[u8]) -> (r: i32)
    requires
        2 * chunk@.len() <= i32::MAX,
    ensures
        r == self_score(chunk@),
        chunk@.len() >= MIN_SELF_ALIGN_LEN ==> r == 2 * chunk@.len(),
{
    if chunk.len() < MIN_SELF_ALIGN_LEN {
        return 0;
    }
    proof {
        lemma_score_self(chunk@);
    }
    score_bytes(chunk, chunk)
}

/// Scoring is symmetric in its two buffers.
pub proof fn lemma_score_symmetric(a: Seq<u8>, b: Seq<u8>)
    ensures
        score_of(a, b) == score_of(b, a),
{
    lemma_score_prefix_symmetric(a, b, min_len(a, b));
}

proof fn lemma_score_prefix_symmetric(a: Seq<u8>, b: Seq<u8>, n: nat)
    ensures
        score_prefix(a, b, n) == score_prefix(b, a, n),
    decreases n,
{
    if n > 0 {
        lemma_score_prefix_symmetric(a, b, (n - 1) as nat);
    }
}

/// A buffer scored against itself earns 2 for every byte.
pub proof fn lemma_score_self(a: Seq<u8>)
    ensures
        score_of(a, a) == 2 * a.len(),
{
    lemma_score_prefix_self(a, a.len());
}

proof fn lemma_score_prefix_self(a: Seq<u8>, n: nat)
    ensures
        score_prefix(a, a, n) == 2 * n,
    decreases n,
{
    if n > 0 {
        lemma_score_prefix_self(a, (n - 1) as nat);
    }
}

/// Two buffers of equal length that differ at every position score -1 per byte.
pub proof fn lemma_score_all_mismatch(a: Seq<u8>, b: Seq<u8>)
    requires
        a.len() == b.len(),
        forall|i: int| 0 <= i < a.len() ==> a[i] != b[i],
    ensures
        score_of(a, b) == -(a.len() as int),
{
    lemma_score_prefix_mismatch(a, b, a.len());
}

proof fn lemma_score_prefix_mismatch(a: Seq<u8>, b: Seq<u8>, n: nat)
    requires
        n <= a.len(),
        n <= b.len(),
        forall|i: int| 0 <= i < n ==> a[i] != b[i],
    ensures
        score_prefix(a, b, n) == -(n as int),
    decreases n,
{
    if n > 0 {
        lemma_score_prefix_mismatch(a, b, (n - 1) as nat);
    }
}

/// An empty buffer scores 0 against anything, on either side.
pub proof fn lemma_score_empty(b: Seq<u8>)
    ensures
        score_of(Seq::<u8>::empty(), b) == 0,
        score_of(b, Seq::<u8>::empty()) == 0,
{
}

/// The fixed-size sub-chunks of a buffer, in order; the last may be shorter.
pub open spec fn sub_chunks(a: Seq<u8>, s: nat) -> Seq<Seq<u8>>
    decreases a.len(),
{
    if a.len() == 0 {
        Seq::empty()
    } else if s == 0 || a.len() <= s {
        seq![a]
    } else {
        seq![a.subrange(0, s as int)] + sub_chunks(a.subrange(s as int, a.len() as int), s)
    }
}

/// Sum of the scores of `x` against each buffer of `ys`.
pub open spec fn row_score(x: Seq<u8>, ys: Seq<Seq<u8>>) -> int
    decreases ys.len(),
{
    if ys.len() == 0 {
        0
    } else {
        score_of(x, ys[0]) + row_score(x, ys.subrange(1, ys.len() as int))
    }
}

/// Sum of the scores of every pair drawn from `xs` and `ys`.
pub open spec fn grid_sum(xs: Seq<Seq<u8>>, ys: Seq<Seq<u8>>) -> int
    decreases xs.len(),
{
    if xs.len() == 0 {
        0
    } else {
        row_score(xs[0], ys) + grid_sum(xs.subrange(1, xs.len() as int), ys)
    }
}

/// Pairwise score on the sub-chunk grid: every sub-chunk of `a` against
/// every sub-chunk of `b`.
pub open spec fn grid_score(a: Seq<u8>, b: Seq<u8>, s: nat) -> int {
    grid_sum(sub_chunks(a, s), sub_chunks(b, s))
}

/// Scoring two buffers of length `2 * s` splits along the diagonal of the
/// 2x2 grid: first halves against each other, plus second halves.
pub proof fn lemma_score_diagonal_halves(a: Seq<u8>, b: Seq<u8>, s: nat)
    requires
        a.len() == 2 * s,
        b.len() == 2 * s,
    ensures
        score_of(a, b) == score_of(a.subrange(0, s as int), b.subrange(0, s as int)) + score_of(
            a.subrange(s as int, a.len() as int),
            b.subrange(s as int, b.len() as int),
        ),
{
    let a0 = a.subrange(0, s as int);
    let b0 = b.subrange(0, s as int);
    lemma_score_prefix_split(a, b, s, s);
    lemma_score_prefix_congruent(a, b, a0, b0, s);
}

/// On a 2x2 sub-chunk split of buffers of length `2 * s`, the grid sum is
/// the direct score plus the two cross terms: first half of `a` against
/// second half of `b`, and second half of `a` against first half of `b`.
pub proof fn lemma_grid_2x2_decomposition(a: Seq<u8>, b: Seq<u8>, s: nat)
    requires
        s > 0,
        a.len() == 2 * s,
        b.len() == 2 * s,
    ensures
        grid_score(a, b, s) == score_of(a, b) + score_of(
            a.subrange(0, s as int),
            b.subrange(s as int, 2 * s as int),
        ) + score_of(a.subrange(s as int, 2 * s as int), b.subrange(0, s as int)),
{
    let a0 = a.subrange(0, s as int);
    let a1 = a.subrange(s as int, 2 * s as int);
    let b0 = b.subrange(0, s as int);
    let b1 = b.subrange(s as int, 2 * s as int);
    assert(sub_chunks(a1, s) == seq![a1]);
    assert(sub_chunks(b1, s) == seq![b1]);
    assert(sub_chunks(a, s) =~= seq![a0, a1]);
    assert(sub_chunks(b, s) =~= seq![b0, b1]);
    let ys = seq![b0, b1];
    assert(ys.subrange(1, 2) =~= seq![b1]);
    assert(seq![b1].subrange(1, 1) =~= Seq::<Seq<u8>>::empty());
    assert(row_score(a0, Seq::<Seq<u8>>::empty()) == 0);
    assert(row_score(a1, Seq::<Seq<u8>>::empty()) == 0);
    assert(row_score(a0, seq![b1]) == score_of(a0, b1));
    assert(row_score(a1, seq![b1]) == score_of(a1, b1));
    assert(row_score(a0, ys) == score_of(a0, b0) + score_of(a0, b1));
    assert(row_score(a1, ys) == score_of(a1, b0) + score_of(a1, b1));
    let xs = seq![a0, a1];
    assert(xs.subrange(1, 2) =~= seq![a1]);
    assert(seq![a1].subrange(1, 1) =~= Seq::<Seq<u8>>::empty());
    assert(grid_sum(Seq::<Seq<u8>>::empty(), ys) == 0);
    assert(grid_sum(seq![a1], ys) == row_score(a1, ys));
    assert(grid_sum(xs, ys) == row_score(a0, ys) + row_score(a1, ys));
    lemma_score_diagonal_halves(a, b, s);
}

/// Summing the four partial scores of a 2x2 sub-chunk split equals scoring
/// the full buffers directly, for buffers of length `2 * s`, whenever the
/// two cross terms cancel out.
pub proof fn lemma_grid_2x2_matches_direct(a: Seq<u8>, b: Seq<u8>, s: nat)
    requires
        s > 0,
        a.len() == 2 * s,
        b.len() == 2 * s,
        score_of(a.subrange(0, s as int), b.subrange(s as int, 2 * s as int)) + score_of(
            a.subrange(s as int, 2 * s as int),
            b.subrange(0, s as int),
        ) == 0,
    ensures
        grid_score(a, b, s) == score_of(a, b),
{
    lemma_grid_2x2_decomposition(a, b, s);
}


/// The first sub-chunk of a non-empty buffer is followed by the sub-chunks
/// of what comes after it.
proof fn lemma_sub_chunks_step(a: Seq<u8>, s: nat, end: nat)
    requires
        s > 0,
        a.len() > 0,
        end == if a.len() <= s {
            a.len()
        } else {
            s
        },
    ensures
        sub_chunks(a, s).len() >= 1,
        sub_chunks(a, s)[0] == a.subrange(0, end as int),
        sub_chunks(a, s).subrange(1, sub_chunks(a, s).len() as int) == sub_chunks(
            a.subrange(end as int, a.len() as int),
            s,
        ),
{
    let rest = a.subrange(end as int, a.len() as int);
    if a.len() <= s {
        assert(rest.len() == 0);
        assert(sub_chunks(a, s).subrange(1, 1) =~= sub_chunks(rest, s));
        assert(a.subrange(0, end as int) =~= a);
    } else {
        assert(sub_chunks(a, s).subrange(1, sub_chunks(a, s).len() as int) =~= sub_chunks(rest, s));
    }
}

/// Scores `x` against every sub-chunk of `b`, summing the partial scores.
fn row_grid(x: &[u8], b: &[u8], s: usize) -> (r: i64)
    requires
        s > 0,
        x@.len() <= s,
        2 * s <= i32::MAX,
        sub_chunks(b@, s as nat).len() * (2 * s) <= i64::MAX,
    ensures
        r == row_score(x@, sub_chunks(b@, s as nat)),
        -(sub_chunks(b@, s as nat).len() * s) <= r <= sub_chunks(b@, s as nat).len() * (2 * s),
{
    let ghost n = sub_chunks(b@, s as nat).len();
    let ghost mut k: nat = 0;
    let mut off: usize = 0;
    let mut total: i64 = 0;
    proof {
        assert(b@.subrange(0, b@.len() as int) =~= b@);
    }
    while off < b.len()
        invariant
            off <= b@.len(),
            s > 0,
            x@.len() <= s,
            2 * s <= i32::MAX,
            n == sub_chunks(b@, s as nat).len(),
            n * (2 * s) <= i64::MAX,
            row_score(x@, sub_chunks(b@, s as nat)) == total + row_score(
                x@,
                sub_chunks(b@.subrange(off as int, b@.len() as int), s as nat),
            ),
            n == k + sub_chunks(b@.subrange(off as int, b@.len() as int), s as nat).len(),
            -(k * s) <= total <= k * (2 * s),
        decreases b@.len() - off,
    {
        let ghost rest = b@.subrange(off as int, b@.len() as int);
        let end: usize = if b.len() - off <= s {
            b.len()
        } else {
            off + s
        };
        let y = &b[off..end];
        proof {
            lemma_sub_chunks_step(rest, s as nat, (end - off) as nat);
            assert(rest.subrange(0, (end - off) as int) =~= y@);
            assert(rest.subrange((end - off) as int, rest.len() as int) =~= b@.subrange(
                end as int,
                b@.len() as int,
            ));
            lemma_score_prefix_bounds(x@, y@, min_len(x@, y@));
        }
        let g = score_bytes(x, y);
        proof {
            assert(min_len(x@, y@) <= s);
            assert(-(s as int) <= g <= 2 * s);
            assert(row_score(x@, sub_chunks(rest, s as nat)) == g + row_score(
                x@,
                sub_chunks(b@.subrange(end as int, b@.len() as int), s as nat),
            ));
            assert((k + 1) * s <= n * s) by (nonlinear_arith)
                requires
                    k + 1 <= n,
            ;
            assert(n * s <= n * (2 * s)) by (nonlinear_arith);
            assert((k + 1) * s == k * s + s) by (nonlinear_arith);
            assert((k + 1) * (2 * s) == k * (2 * s) + 2 * s) by (nonlinear_arith);
            assert((k + 1) * (2 * s) <= n * (2 * s)) by (nonlinear_arith)
                requires
                    k + 1 <= n,
            ;
        }
        total = total + g as i64;
        off = end;
        proof {
            k = k + 1;
        }
    }
    proof {
        assert(b@.subrange(off as int, b@.len() as int).len() == 0);
    }
    total
}

/// Pairwise score on the sub-chunk grid of size `s`: every sub-chunk of
/// `a` is scored against every sub-chunk of `b` and the partial scores are
/// summed.
pub fn align_pair_grid(a: &[u8], b: &[u8], s: usize) -> (r: i64)
    requires
        s > 0,
        2 * s <= i32::MAX,
        sub_chunks(a@, s as nat).len() * sub_chunks(b@, s as nat).len() * (2 * s) <= i64::MAX,
    ensures
        r == grid_score(a@, b@, s as nat),
{
    let ghost na = sub_chunks(a@, s as nat).len();
    let ghost nb = sub_chunks(b@, s as nat).len();
    let ghost ys = sub_chunks(b@, s as nat);
    let ghost mut k: nat = 0;
    let mut off: usize = 0;
    let mut total: i64 = 0;
    proof {
        assert(a@.subrange(0, a@.len() as int) =~= a@);
    }
    while off < a.len()
        invariant
            off <= a@.len(),
            s > 0,
            2 * s <= i32::MAX,
            na == sub_chunks(a@, s as nat).len(),
            nb == sub_chunks(b@, s as nat).len(),
            ys == sub_chunks(b@, s as nat),
            na * nb * (2 * s) <= i64::MAX,
            grid_sum(sub_chunks(a@, s as nat), ys) == total + grid_sum(
                sub_chunks(a@.subrange(off as int, a@.len() as int), s as nat),
                ys,
            ),
            na == k + sub_chunks(a@.subrange(off as int, a@.len() as int), s as nat).len(),
            -(k * nb * s) <= total <= k * nb * (2 * s),
        decreases a@.len() - off,
    {
        let ghost rest = a@.subrange(off as int, a@.len() as int);
        let end: usize = if a.len() - off <= s {
            a.len()
        } else {
            off + s
        };
        let x = &a[off..end];
        proof {
            lemma_sub_chunks_step(rest, s as nat, (end - off) as nat);
            assert(rest.subrange(0, (end - off) as int) =~= x@);
            assert(rest.subrange((end - off) as int, rest.len() as int) =~= a@.subrange(
                end as int,
                a@.len() as int,
            ));
            assert(nb * (2 * s) <= na * nb * (2 * s)) by (nonlinear_arith)
                requires
                    1 <= k + 1 <= na,
            ;
        }
        let g = row_grid(x, b, s);
        proof {
            assert(grid_sum(sub_chunks(rest, s as nat), ys) == g + grid_sum(
                sub_chunks(a@.subrange(end as int, a@.len() as int), s as nat),
                ys,
            ));
            assert((k + 1) * nb * s <= na * nb * s) by (nonlinear_arith)
                requires
                    k + 1 <= na,
            ;
            assert(na * nb * s <= na * nb * (2 * s)) by (nonlinear_arith);
            assert((k + 1) * nb * s == k * nb * s + nb * s) by (nonlinear_arith);
            assert((k + 1) * nb * (2 * s) == k * nb * (2 * s) + nb * (2 * s)) by (nonlinear_arith);
            assert((k + 1) * nb * (2 * s) <= na * nb * (2 * s)) by (nonlinear_arith)
                requires
                    k + 1 <= na,
            ;
        }
        total = total + g;
        off = end;
        proof {
            k = k + 1;
        }
    }
    proof {
        assert(a@.subrange(off as int, a@.len() as int).len() == 0);
    }
    total
}

} // verus!
