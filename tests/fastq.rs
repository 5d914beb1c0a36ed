use rustseq_mini::fastq::{
    count_bases_in_fastq, decode_chunks, trim_line_end, DecodeError, FastqChunker, MAX_READ_ERRORS,
};

fn lines(text: &str) -> Vec<Vec<u8>> {
    text.lines().map(|l| l.as_bytes().to_vec()).collect()
}

const THREE_RECORDS: &str = "@r1\nACGT\n+\nIIII\n@r2\nGGCCA\n+\nIIIII\n@r3\nTTA \n+\nIII\n";

#[test]
fn twelve_lines_chunk_size_two_gives_two_chunks() {
    let input = lines(THREE_RECORDS);
    assert_eq!(input.len(), 12);
    let chunks = decode_chunks(&input, 2);
    assert_eq!(chunks.len(), 2);
    assert_eq!(chunks[0], vec![b"ACGT".to_vec(), b"GGCCA".to_vec()]);
    assert_eq!(chunks[1], vec![b"TTA".to_vec()]);
}

#[test]
fn single_leftover_read_is_emitted() {
    let input = lines("@r1\nACGT\n+\nIIII\n");
    let chunks = decode_chunks(&input, 5);
    assert_eq!(chunks, vec![vec![b"ACGT".to_vec()]]);
}

#[test]
fn empty_input_gives_no_chunks() {
    let chunks = decode_chunks(&Vec::new(), 3);
    assert!(chunks.is_empty());
}

#[test]
fn exact_multiple_leaves_no_partial_chunk() {
    let input = lines(THREE_RECORDS);
    let chunks = decode_chunks(&input, 3);
    assert_eq!(chunks.len(), 1);
    assert_eq!(chunks[0].len(), 3);
    let chunks = decode_chunks(&input, 1);
    assert_eq!(chunks.len(), 3);
}

#[test]
fn chunker_streams_chunks_in_order() {
    let mut chunker = FastqChunker::new(2);
    let mut out = Vec::new();
    for line in lines(THREE_RECORDS) {
        if let Some(c) = chunker.push_line(line) {
            out.push(c);
        }
    }
    assert_eq!(chunker.line_count(), 12);
    assert_eq!(chunker.total_reads(), 3);
    assert_eq!(out.len(), 1);
    let last = chunker.finish();
    assert_eq!(last, Some(vec![b"TTA".to_vec()]));
}

#[test]
fn trailing_whitespace_is_stripped() {
    assert_eq!(trim_line_end(b"ACGT \t\r\n".to_vec()), b"ACGT".to_vec());
    assert_eq!(trim_line_end(b"  ".to_vec()), Vec::<u8>::new());
    assert_eq!(trim_line_end(b"A C".to_vec()), b"A C".to_vec());
}

#[test]
fn too_many_read_errors_are_fatal() {
    let mut chunker = FastqChunker::new(4);
    chunker.push_line(b"@r".to_vec());
    for _ in 0..MAX_READ_ERRORS {
        assert!(chunker.record_error().is_ok());
    }
    assert_eq!(chunker.record_error(), Err(DecodeError::TooManyReadErrors { line: 1 }));
    assert_eq!(chunker.error_count(), MAX_READ_ERRORS + 1);
}

#[test]
fn bases_are_counted_over_sequence_lines() {
    assert_eq!(count_bases_in_fastq(&lines(THREE_RECORDS)), 4 + 5 + 3);
    assert_eq!(count_bases_in_fastq(&Vec::new()), 0);
}
