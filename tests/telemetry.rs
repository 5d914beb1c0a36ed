use rustseq_mini::kmers::{kmer_hashes, try_kmer_hashes};
use rustseq_mini::telemetry::{
    get_current_run_id, get_current_run_number, get_next_run_number, start_benchmark,
    start_system_monitors, stop_system_monitors, update_benchmark_progress, BenchmarkTracker,
    MonitorRegistry, SystemMonitors,
};
use rustseq_mini::text::{tagged_number, tagged_unsigned};

#[test]
fn numbers_render_in_decimal() {
    assert_eq!(tagged_number("run_", 1700000000), "run_1700000000");
    assert_eq!(tagged_number("x", -45), "x-45");
    assert_eq!(tagged_number("", 0), "0");
}

#[test]
fn monitor_sessions_are_numbered() {
    let mut registry = MonitorRegistry::new();
    assert_eq!(get_current_run_number(&registry), None);
    let session = registry.new_session(1700000000);
    assert_eq!(session.run_number, 1);
    assert_eq!(session.get_run_id(), "run_1700000000");
    assert_eq!(session.get_logs_dir(), "logs/run_1");
    start_system_monitors(&mut registry, session);
    assert_eq!(get_current_run_number(&registry), Some(1));
    assert_eq!(get_current_run_id(&registry), Some("run_1700000000".to_string()));
    let stopped = stop_system_monitors(&mut registry).expect("running session");
    assert_eq!(stopped.run_number, 1);
    assert_eq!(get_current_run_id(&registry), None);
    let second = registry.new_session(5);
    assert_eq!(second.run_number, 2);
    assert_eq!(SystemMonitors::new(3, 9).logs_dir, "logs/run_3");
}

#[test]
fn benchmark_runs_track_progress() {
    let mut tracker = BenchmarkTracker::new();
    assert_eq!(get_next_run_number(&mut tracker), 1);
    let n = tracker.start_run_at("full_wgs", 1000, true, 1700000000);
    assert_eq!(n, 2);
    update_benchmark_progress(&mut tracker, 3, 400, 60000, 120000);
    let run = tracker.finish_run().expect("current run");
    assert_eq!(run.run_id, "run_1700000000");
    assert_eq!(run.mode, "full_wgs");
    assert_eq!(run.files_processed, 3);
    assert_eq!(run.total_reads, 400);
    assert_eq!(run.total_bases, 60000);
    assert_eq!(run.total_score, 120000);
    assert!(tracker.finish_run().is_none());
}

#[test]
fn benchmark_run_is_stamped_with_the_given_time() {
    let mut tracker = BenchmarkTracker::new();
    start_benchmark(&mut tracker, "single_file", 10, false, 1_700_000_123);
    let run = tracker.current_run.as_ref().expect("current run");
    assert_eq!(run.run_id, "run_1700000123");
    assert_eq!(run.mode, "single_file");
    assert_eq!(run.chunk_size, 10);
    assert!(!run.parallel_files);
    assert_eq!(tracker.run_counter, 1);
}

#[test]
fn unsigned_numbers_render_in_decimal() {
    assert_eq!(tagged_unsigned("logs/run_", 0), "logs/run_0");
    assert_eq!(tagged_unsigned("", 9), "9");
    assert_eq!(tagged_unsigned("n", u64::MAX), "n18446744073709551615");
    assert_eq!(tagged_number("", i64::MIN), "-9223372036854775808");
    assert_eq!(SystemMonitors::new(u64::MAX, 10).run_id, "run_10");
}

#[test]
fn update_without_run_does_nothing() {
    let mut tracker = BenchmarkTracker::new();
    update_benchmark_progress(&mut tracker, 1, 2, 3, 4);
    assert!(tracker.current_run.is_none());
    assert_eq!(tracker.run_counter, 0);
}

#[test]
fn kmer_hashes_follow_fx_hash() {
    let seq = b"ACGTAC";
    let hashes = kmer_hashes(seq, 3);
    assert_eq!(hashes.len(), 4);
    for (i, h) in hashes.iter().enumerate() {
        assert_eq!(*h, fxhash::hash64(&seq[i..i + 3]));
    }
    assert_eq!(hashes[0], hashes[0]);
    assert_ne!(hashes[0], hashes[1]);
    assert_eq!(kmer_hashes(b"ACAC", 2)[0], kmer_hashes(b"ACAC", 2)[2]);
    assert!(try_kmer_hashes(b"AC", 3).is_none());
}
