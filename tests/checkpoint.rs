use rustseq_mini::checkpoint::{CheckpointState, FileCheckpoint};
use rustseq_mini::orchestrator::reusable_result;

fn record(index: usize, score: i64, completed: bool) -> FileCheckpoint {
    FileCheckpoint {
        file_path: format!("reads_{}.fastq.gz", index),
        file_index: index,
        score,
        processing_time_ms: 1500,
        total_bases: 600,
        total_reads: 4,
        completed,
    }
}

#[test]
fn recorded_file_is_completed_after_reload() {
    let mut state = CheckpointState::new("wgs_1".to_string(), 4);
    state.add_file_result(record(2, 1234, true));
    let reloaded = CheckpointState::restore(state.run_id.clone(), state.total_files, state.files.clone());
    assert!(reloaded.is_file_completed(2));
    assert_eq!(reloaded.file_result(2).map(|f| f.score), Some(1234));
    assert_eq!(reloaded.completed_files, 1);
    let reused = reusable_result(&reloaded, 2).expect("stored result");
    assert_eq!(reused.score, 1234);
    assert_eq!(reused.total_reads, 4);
}

#[test]
fn later_record_replaces_earlier_one() {
    let mut state = CheckpointState::new("run".to_string(), 3);
    state.add_file_result(record(0, 10, false));
    state.add_file_result(record(1, 20, true));
    state.add_file_result(record(0, 30, true));
    assert_eq!(state.files.len(), 2);
    assert_eq!(state.completed_files, 2);
    assert_eq!(state.file_result(0).map(|f| f.score), Some(30));
    assert_eq!(state.files[1].file_index, 0);
}

#[test]
fn failed_file_is_not_completed_and_not_reused() {
    let mut state = CheckpointState::new("run".to_string(), 3);
    state.add_file_result(record(1, 99, false));
    assert!(!state.is_file_completed(1));
    assert!(!state.is_file_completed(0));
    assert!(reusable_result(&state, 1).is_none());
    assert_eq!(state.completed_files, 0);
    assert_eq!(state.file_result(1).map(|f| f.score), Some(99));
}

#[test]
fn restore_keeps_last_duplicate() {
    let files = vec![record(3, 1, true), record(3, 2, false)];
    let state = CheckpointState::restore("r".to_string(), 5, files);
    assert_eq!(state.files.len(), 1);
    assert!(!state.is_file_completed(3));
    assert_eq!(state.completed_files, 0);
}

#[test]
fn restore_returns_records_as_stored() {
    let files = vec![record(4, 1, true), record(0, 2, false), record(2, 3, true)];
    let state = CheckpointState::restore("r".to_string(), 5, files);
    let order: Vec<usize> = state.files.iter().map(|f| f.file_index).collect();
    assert_eq!(order, vec![4, 0, 2]);
    assert_eq!(state.completed_files, 2);
}

#[test]
fn replaced_record_moves_to_the_end() {
    let mut state = CheckpointState::new("r".to_string(), 3);
    state.add_file_result(record(0, 1, true));
    state.add_file_result(record(1, 2, true));
    state.add_file_result(record(2, 3, true));
    state.add_file_result(record(1, 9, false));
    let order: Vec<(usize, i64)> = state.files.iter().map(|f| (f.file_index, f.score)).collect();
    assert_eq!(order, vec![(0, 1), (2, 3), (1, 9)]);
    assert_eq!(state.completed_files, 2);
}
