//! Scoring two sequence files line against line: lines are paired in
//! order until either side runs out, header lines (starting with `>`) are
//! skipped, and each remaining pair is trimmed and scored.

use vstd::prelude::*;
use crate::fastq::{is_trailing_space, trim_end, trim_line_end, total_len};
use crate::scoring::{score_of, score_prefix, min_len, lemma_score_prefix_bounds};

verus! {

/// A line with its leading whitespace stripped.
pub open spec fn trim_start(s: Seq<u8>) -> Seq<u8>
    decreases s.len(),
{
    if s.len() > 0 && is_trailing_space(s[0]) {
        trim_start(s.subrange(1, s.len() as int))
    } else {
        s
    }
}

/// A line with whitespace stripped from both ends.
pub open spec fn trim(s: Seq<u8>) -> Seq<u8> {
    trim_start(trim_end(s))
}

/// Whether a line is a header line.
pub open spec fn is_header(s: Seq<u8>) -> bool {
    s.len() > 0 && s[0] == 62
}

/// Contribution of one pair of lines: 0 when either is a header or either
/// is blank once trimmed, else the score of the trimmed lines.
pub open spec fn line_pair_score(l1: Seq<u8>, l2: Seq<u8>) -> int {
    if is_header(l1) || is_header(l2) {
        0
    } else if trim(l1).len() == 0 || trim(l2).len() == 0 {
        0
    } else {
        score_of(trim(l1), trim(l2))
    }
}

/// Sum of the contributions of the first `n` line pairs.
pub open spec fn lines_score(a: Seq<Seq<u8>>, b: Seq<Seq<u8>>, n: nat) -> int
    decreases n,
{
    if n == 0 {
        0
    } else {
        lines_score(a, b, (n - 1) as nat) + line_pair_score(a[n - 1], b[n - 1])
    }
}

/// Number of line pairs: the shorter of the two files.
pub open spec fn pair_count(a: Seq<Seq<u8>>, b: Seq<Seq<u8>>) -> nat {
    if a.len() <= b.len() {
        a.len()
    } else {
        b.len()
    }
}

/// Total score of two files given as lines.
pub open spec fn files_score(a: Seq<Seq<u8>>, b: Seq<Seq<u8>>) -> int {
    lines_score(a, b, pair_count(a, b))
}

/// Position of the first byte that is not leading whitespace.
fn leading_space_end(s: &[u8]) -> (j: usize)
    ensures
        j <= s@.len(),
        trim_start(s@) == s@.subrange(j as int, s@.len() as int),
{
    let mut j: usize = 0;
    proof {
        assert(s@.subrange(0, s@.len() as int) =~= s@);
    }
    while j < s.len() && (s[j] == 32 || s[j] == 9 || s[j] == 10 || s[j] == 11 || s[j] == 12
        || s[j] == 13)
        invariant
            j <= s@.len(),
            trim_start(s@) == trim_start(s@.subrange(j as int, s@.len() as int)),
        decreases s@.len() - j,
    {
        proof {
            let t = s@.subrange(j as int, s@.len() as int);
            assert(t.subrange(1, t.len() as int) =~= s@.subrange(j + 1, s@.len() as int));
        }
        j = j + 1;
    }
    j
}

/// Scores two buffers without a bound on their length, into an `i64`.
fn score_wide(a: &[u8], b: &[u8]) -> (r: i64)
    requires
        min_len(a@, b@) <= a@.len(),
        2 * a@.len() <= i64::MAX,
    ensures
        r == score_of(a@, b@),
        -(a@.len() as int) <= r <= 2 * a@.len(),
{
    let len: usize = if a.len() <= b.len() {
        a.len()
    } else {
        b.len()
    };
    let mut total: i64 = 0;
    let mut i: usize = 0;
    while i < len
        invariant
            i <= len,
            len == min_len(a@, b@),
            len <= a@.len(),
            2 * a@.len() <= i64::MAX,
            total == score_prefix(a@, b@, i as nat),
        decreases len - i,
    {
        proof {
            lemma_score_prefix_bounds(a@, b@, (i + 1) as nat);
        }
        if a[i] == b[i] {
            total = total + 2;
        } else {
            total = total - 1;
        }
        i = i + 1;
    }
    proof {
        lemma_score_prefix_bounds(a@, b@, len as nat);
    }
    total
}

proof fn lemma_trim_end_len(s: Seq<u8>)
    ensures
        trim_end(s).len() <= s.len(),
{
    crate::fastq::lemma_trimmed_len_bound(s);
}

/// Contribution of one pair of lines.
pub fn score_line_pair(line1: &Vec<u8>, line2: &Vec<u8>) -> (r: i64)
    requires
        2 * line1@.len() <= i64::MAX,
    ensures
        r == line_pair_score(line1@, line2@),
        -(line1@.len() as int) <= r <= 2 * line1@.len(),
{
    if (line1.len() > 0 && line1[0] == 62) || (line2.len() > 0 && line2[0] == 62) {
        return 0;
    }
    let c1 = line1.clone();
    let c2 = line2.clone();
    proof {
        assert(c1@ =~= line1@);
        assert(c2@ =~= line2@);
        lemma_trim_end_len(line1@);
    }
    let t1 = trim_line_end(c1);
    let t2 = trim_line_end(c2);
    let j1 = leading_space_end(t1.as_slice());
    let j2 = leading_space_end(t2.as_slice());
    if j1 == t1.len() || j2 == t2.len() {
        return 0;
    }
    let s1 = &t1.as_slice()[j1..t1.len()];
    let s2 = &t2.as_slice()[j2..t2.len()];
    score_wide(s1, s2)
}

/// Total score of two files given as lines: line pairs in order until the
/// shorter file ends.
pub fn align_lines(lines1: &Vec<Vec<u8>>, lines2: &Vec<Vec<u8>>) -> (r: i64)
    requires
        2 * total_len(lines1.deep_view()) <= i64::MAX,
    ensures
        r == files_score(lines1.deep_view(), lines2.deep_view()),
{
    let ghost a = lines1.deep_view();
    let ghost b = lines2.deep_view();
    let n: usize = if lines1.len() <= lines2.len() {
        lines1.len()
    } else {
        lines2.len()
    };
    let mut total: i64 = 0;
    let mut i: usize = 0;
    while i < n
        invariant
            i <= n,
            n == pair_count(a, b),
            a == lines1.deep_view(),
            b == lines2.deep_view(),
            2 * total_len(a) <= i64::MAX,
            total == lines_score(a, b, i as nat),
            -(total_len(a.subrange(0, i as int)) as int) <= total <= 2 * total_len(
                a.subrange(0, i as int),
            ),
        decreases n - i,
    {
        proof {
            assert(a[i as int] =~= lines1@[i as int]@);
            assert(b[i as int] =~= lines2@[i as int]@);
            assert(a.subrange(0, i + 1).drop_last() =~= a.subrange(0, i as int));
            crate::fastq::lemma_total_len_append(a.subrange(0, i + 1), a.subrange(i + 1, a.len() as int));
            assert(a.subrange(0, i + 1) + a.subrange(i + 1, a.len() as int) =~= a);
        }
        let s = score_line_pair(&lines1[i], &lines2[i]);
        total = total + s;
        i = i + 1;
    }
    total
}

} // verus!
