use rustseq_mini::engine::{score_chunk_self_cpu, score_cpu, ScoreError};
use rustseq_mini::orchestrator::align_pair_chunked;
use rustseq_mini::scoring::{align, align_chunk_self, align_pair_grid, score_bytes};

fn naive(a: &[u8], b: &[u8]) -> i64 {
    a.iter().zip(b.iter()).map(|(x, y)| if x == y { 2 } else { -1 }).sum()
}

#[test]
fn score_is_symmetric() {
    let a = "ACGTTGCAAC";
    let b = "ACGATGCTACGG";
    assert_eq!(align(a, b), align(b, a));
    assert_eq!(align(a, b), 2 * 8 - 2);
}

#[test]
fn self_score_is_twice_length() {
    let a = "GATTACAGATTACAGATTACA";
    assert_eq!(align(a, a), 42);
}

#[test]
fn all_mismatch_scores_minus_length() {
    assert_eq!(align("AAAA", "CCCC"), -4);
    assert_eq!(align("ACGTACGTACGTACGTACGT", "CATGCATGCATGCATGCATG"), -20);
}

#[test]
fn empty_buffer_scores_zero() {
    assert_eq!(align("", "ACGT"), 0);
    assert_eq!(align("ACGT", ""), 0);
    assert_eq!(align("", ""), 0);
}

#[test]
fn trailing_bytes_do_not_count() {
    assert_eq!(align("ACGT", "ACGTTTTTT"), 8);
    assert_eq!(align("ACGA", "ACG"), 6);
}

#[test]
fn grouped_and_tail_paths_agree_with_positionwise_sum() {
    let a: Vec<u8> = (0..100u32).map(|i| b"ACGT"[(i % 4) as usize]).collect();
    let b: Vec<u8> = (0..97u32).map(|i| b"ACGT"[((i * 7) % 4) as usize]).collect();
    assert_eq!(score_bytes(&a, &b) as i64, naive(&a, &b));
    assert_eq!(score_bytes(&a[..33], &b[..33]) as i64, naive(&a[..33], &b[..33]));
}

#[test]
fn self_alignment_skips_short_chunks() {
    let short = vec![b'A'; 99];
    let long = vec![b'C'; 100];
    assert_eq!(align_chunk_self(&short), 0);
    assert_eq!(align_chunk_self(&long), 200);
    assert_eq!(score_chunk_self_cpu(&short).ok(), Some(0));
    assert_eq!(score_chunk_self_cpu(&long).ok(), Some(200));
}

#[test]
fn cpu_backend_scores_pairs() {
    assert_eq!(score_cpu(b"ACGT", b"ACCT").ok(), Some(5));
    assert!(matches!(score_cpu(b"", b"A"), Ok(0)));
}

#[test]
fn cpu_backend_refuses_oversized_prefix() {
    let a = vec![b'A'; 1073741824];
    match score_chunk_self_cpu(&a) {
        Err(ScoreError::TooLong { len }) => assert_eq!(len, 1073741824),
        _ => panic!("expected a size error"),
    }
}

#[test]
fn two_by_two_grid_matches_direct_when_cross_terms_cancel() {
    let a = b"AAACCC";
    let b = b"CGGATT";
    let cross = naive(&a[..3], &b[3..]) + naive(&a[3..], &b[..3]);
    assert_eq!(cross, 0);
    assert_eq!(align_pair_grid(a, b, 3), naive(a, b));
    assert_eq!(align_pair_grid(a, b, 3), -6);
}

#[test]
fn two_by_two_grid_adds_cross_terms() {
    let a = b"ACCA";
    let b = b"ACCA";
    assert_eq!(naive(a, b), 8);
    assert_eq!(align_pair_grid(a, b, 2), 8 - 2 - 2);
}

#[test]
fn grid_sums_every_subchunk_pair() {
    let a = b"ACGTA";
    let b = b"ACG";
    let mut expected = 0i64;
    for x in a.chunks(2) {
        for y in b.chunks(2) {
            expected += naive(x, y);
        }
    }
    assert_eq!(align_pair_grid(a, b, 2), expected);
}

#[test]
fn pairwise_splits_only_above_threshold() {
    let a = b"AAAA";
    let b = b"AAAA";
    assert_eq!(align_pair_chunked(a, b, 4, 2), 8);
    assert_eq!(align_pair_chunked(a, b, 3, 2), 16);
}
