use rustseq_mini::engine::{DeviceStage, ScoreError};
use rustseq_mini::checkpoint::{CheckpointState, FileCheckpoint};
use rustseq_mini::orchestrator::{concat_reads, BatchRun, FileAction, FileRun, PairwiseTotal};

fn chunk(reads: &[&str]) -> Vec<Vec<u8>> {
    reads.iter().map(|r| r.as_bytes().to_vec()).collect()
}

fn device_failure() -> ScoreError {
    ScoreError::Device { stage: DeviceStage::Launch, message: "launch failed".to_string() }
}

#[test]
fn reads_are_concatenated_in_order() {
    assert_eq!(concat_reads(&chunk(&["AC", "", "GTT"])), b"ACGTT".to_vec());
    assert!(concat_reads(&Vec::new()).is_empty());
}

#[test]
fn interrupted_file_keeps_only_completed_chunks() {
    let mut run = FileRun::new("reads.fastq".to_string(), 0);
    assert!(run.record_chunk(120, 2, Ok(240)));
    assert!(run.record_chunk(150, 3, Ok(300)));
    // the run stops here, before the third chunk is scored
    let checkpoint = run.conclude(false, 42);
    assert_eq!(checkpoint.score, 540);
    assert_eq!(checkpoint.total_bases, 270);
    assert_eq!(checkpoint.total_reads, 5);
    assert!(!checkpoint.completed);
    assert_eq!(checkpoint.processing_time_ms, 42);
}

#[test]
fn failed_chunk_counts_bases_but_not_score() {
    let mut run = FileRun::new("reads.fastq".to_string(), 7);
    assert!(run.record_chunk(100, 1, Ok(200)));
    assert!(run.record_chunk(80, 1, Err(device_failure())));
    assert_eq!(run.score(), 200);
    assert_eq!(run.total_bases(), 180);
    assert_eq!(run.processed_chunks(), 1);
    assert_eq!(run.failed_chunks(), 1);
    let checkpoint = run.conclude(true, 5);
    assert_eq!(checkpoint.file_index, 7);
    assert_eq!(checkpoint.file_path, "reads.fastq");
    assert_eq!(checkpoint.score, 200);
    // a file with a chunk that could not be scored is never completed
    assert!(!checkpoint.completed);
}

#[test]
fn overflowing_chunk_is_refused_whole() {
    let mut run = FileRun::new("f".to_string(), 0);
    assert!(run.record_chunk(usize::MAX, 1, Ok(1)));
    assert!(!run.record_chunk(1, 1, Ok(5)));
    assert_eq!(run.score(), 1);
    assert_eq!(run.total_reads(), 1);
}

#[test]
fn cpu_self_alignment_of_chunks() {
    let mut run = FileRun::new("f".to_string(), 0);
    let long = "ACGT".repeat(30);
    assert!(run.process_chunk_self_cpu(&chunk(&[&long, "AC"])));
    assert!(run.process_chunk_self_cpu(&chunk(&["ACGT"])));
    assert_eq!(run.score(), 2 * 122);
    assert_eq!(run.total_bases(), 126);
    assert_eq!(run.total_reads(), 3);
    assert_eq!(run.processed_chunks(), 2);
}

#[test]
fn progress_is_due_every_ten_chunks() {
    let mut run = FileRun::new("f".to_string(), 0);
    assert!(!run.progress_due());
    for i in 1..=10 {
        assert!(run.record_chunk(1, 1, Ok(2)));
        assert_eq!(run.progress_due(), i == 10);
    }
}

#[test]
fn pairwise_total_skips_failed_pairs() {
    let mut total = PairwiseTotal::new();
    assert!(total.record(Ok(10)));
    assert!(total.record(Err(device_failure())));
    assert!(total.record(Ok(-3)));
    assert_eq!(total.total(), 7);
    assert_eq!(total.failed(), 1);
}

fn done(index: usize, score: i64) -> FileCheckpoint {
    FileCheckpoint {
        file_path: format!("f{}", index),
        file_index: index,
        score,
        processing_time_ms: 10,
        total_bases: 1,
        total_reads: 1,
        completed: true,
    }
}

#[test]
fn batch_reuses_completed_files_and_processes_the_rest_in_order() {
    let mut ledger = CheckpointState::new("wgs_1".to_string(), 3);
    ledger.add_file_result(done(1, 77));
    let mut batch = BatchRun::new(ledger, 3);
    assert_eq!(batch.next_action(), FileAction::Process { index: 0 });
    batch.file_concluded(done(0, 5));
    assert_eq!(batch.next_action(), FileAction::Reuse { index: 1, score: 77, processing_time_ms: 10 });
    assert_eq!(batch.next_action(), FileAction::Process { index: 2 });
    batch.file_concluded(done(2, 9));
    assert_eq!(batch.next_action(), FileAction::Finished);
    let ledger = batch.into_ledger();
    assert_eq!(ledger.completed_files, 3);
}

#[test]
fn batch_stops_at_first_failed_file() {
    let mut batch = BatchRun::new(CheckpointState::new("r".to_string(), 3), 3);
    assert_eq!(batch.next_action(), FileAction::Process { index: 0 });
    let mut run = FileRun::new("f0".to_string(), 0);
    assert!(run.record_chunk(10, 1, Ok(4)));
    batch.file_concluded(run.conclude(false, 3));
    assert!(batch.failed());
    assert_eq!(batch.next_action(), FileAction::Finished);
    let stored = batch.ledger_ref().file_result(0).expect("partial record");
    assert_eq!(stored.score, 4);
    assert!(!stored.completed);
}

#[test]
fn restarted_batch_skips_files_completed_before() {
    let mut first = BatchRun::new(CheckpointState::new("r".to_string(), 2), 2);
    assert_eq!(first.next_action(), FileAction::Process { index: 0 });
    first.file_concluded(done(0, 12));
    let saved = first.into_ledger();
    let restored = CheckpointState::restore(saved.run_id.clone(), saved.total_files, saved.files.clone());
    let mut second = BatchRun::new(restored, 2);
    assert_eq!(second.next_action(), FileAction::Reuse { index: 0, score: 12, processing_time_ms: 10 });
    assert_eq!(second.next_action(), FileAction::Process { index: 1 });
}

#[test]
fn clean_file_concludes_completed() {
    let mut run = FileRun::new("f".to_string(), 1);
    assert!(run.record_chunk(10, 1, Ok(20)));
    assert!(run.conclude(true, 1).completed);
}

