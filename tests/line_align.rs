use rustseq_mini::line_align::{align_lines, score_line_pair};

fn lines(text: &str) -> Vec<Vec<u8>> {
    text.split('\n').map(|l| l.as_bytes().to_vec()).collect()
}

#[test]
fn header_lines_are_skipped() {
    assert_eq!(score_line_pair(&b">seq1".to_vec(), &b"ACGT".to_vec()), 0);
    assert_eq!(score_line_pair(&b"ACGT".to_vec(), &b">x".to_vec()), 0);
}

#[test]
fn lines_are_trimmed_on_both_ends() {
    assert_eq!(score_line_pair(&b"  ACGT\r\n".to_vec(), &b"ACGA ".to_vec()), 5);
    assert_eq!(score_line_pair(&b"   ".to_vec(), &b"ACGA".to_vec()), 0);
}

#[test]
fn files_are_paired_until_the_shorter_ends() {
    let a = lines(">one\nACGT\nAAAA\nCCCC");
    let b = lines(">two\nACGT\nAATT");
    assert_eq!(align_lines(&a, &b), 8 + 2);
    assert_eq!(align_lines(&b, &a), 8 + 2);
    assert_eq!(align_lines(&a, &Vec::new()), 0);
}
