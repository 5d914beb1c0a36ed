//! Run bookkeeping for the external telemetry collaborators: numbered
//! monitoring sessions and the benchmark record of the current run. Both
//! are explicit context objects owned by the caller.

use vstd::prelude::*;
use crate::text::{tagged_number, tagged_unsigned, decimal_text, nat_digits};

verus! {

/// One monitoring session: its number, its identifier and where its logs go.
#[derive(Debug, Clone)]
pub struct SystemMonitors {
    pub run_number: u64,
    pub run_id: String,
    pub logs_dir: String,
}

impl SystemMonitors {
    /// Session `run_number`, started at `timestamp` seconds since the epoch.
    pub fn new(run_number: u64, timestamp: u64) -> (r: Self)
        ensures
            r.run_number == run_number,
            r.run_id@ == "run_"@ + nat_digits(timestamp as nat),
            r.logs_dir@ == "logs/run_"@ + nat_digits(run_number as nat),
    {
        SystemMonitors {
            run_number,
            run_id: tagged_unsigned("run_", timestamp),
            logs_dir: tagged_unsigned("logs/run_", run_number),
        }
    }

    pub fn get_run_number(&self) -> (r: u64)
        ensures
            r == self.run_number,
    {
        self.run_number
    }

    pub fn get_run_id(&self) -> (r: &str)
        ensures
            r@ == self.run_id@,
    {
        self.run_id.as_str()
    }

    pub fn get_logs_dir(&self) -> (r: &str)
        ensures
            r@ == self.logs_dir@,
    {
        self.logs_dir.as_str()
    }
}

/// The sessions of one process: a counter that numbers them and the one
/// currently running, if any.
#[derive(Debug)]
pub struct MonitorRegistry {
    pub run_counter: u64,
    pub current: Option<SystemMonitors>,
}

impl MonitorRegistry {
    pub fn new() -> (r: Self)
        ensures
            r.run_counter == 0,
            r.current is None,
    {
        MonitorRegistry { run_counter: 0, current: None }
    }

    /// Numbers a new session started at `timestamp`.
    pub fn new_session(&mut self, timestamp: u64) -> (r: SystemMonitors)
        requires
            old(self).run_counter < u64::MAX,
        ensures
            final(self).run_counter == old(self).run_counter + 1,
            final(self).current == old(self).current,
            r.run_number == final(self).run_counter,
            r.run_id@ == "run_"@ + nat_digits(timestamp as nat),
            r.logs_dir@ == "logs/run_"@ + nat_digits(r.run_number as nat),
    {
        self.run_counter = self.run_counter + 1;
        SystemMonitors::new(self.run_counter, timestamp)
    }
}

/// Makes `session`, whose monitors are running, the current session.
pub fn start_system_monitors(registry: &mut MonitorRegistry, session: SystemMonitors)
    ensures
        final(registry).run_counter == old(registry).run_counter,
        final(registry).current == Some(session),
{
    registry.current = Some(session);
}

/// Ends the current session, handing it back so its monitors can be
/// stopped.
pub fn stop_system_monitors(registry: &mut MonitorRegistry) -> (r: Option<SystemMonitors>)
    ensures
        r == old(registry).current,
        final(registry).current is None,
        final(registry).run_counter == old(registry).run_counter,
{
    registry.current.take()
}

/// Number of the current session, if one is running.
pub fn get_current_run_number(registry: &MonitorRegistry) -> (r: Option<u64>)
    ensures
        registry.current is None ==> r is None,
        registry.current is Some ==> r == Some(registry.current->Some_0.run_number),
{
    match &registry.current {
        Some(session) => Some(session.get_run_number()),
        None => None,
    }
}

/// Identifier of the current session, if one is running.
pub fn get_current_run_id(registry: &MonitorRegistry) -> (r: Option<String>)
    ensures
        registry.current is None ==> r is None,
        registry.current is Some ==> r is Some && r->Some_0@ == registry.current->Some_0.run_id@,
{
    match &registry.current {
        Some(session) => Some(session.run_id.clone()),
        None => None,
    }
}

/// Totals of the benchmark run in progress.
#[derive(Debug, Clone)]
pub struct BenchmarkRun {
    pub run_id: String,
    pub mode: String,
    pub files_processed: usize,
    pub total_reads: usize,
    pub total_bases: usize,
    pub total_score: i64,
    pub chunk_size: usize,
    pub parallel_files: bool,
}

/// Benchmark bookkeeping of one process: a run counter and the current run.
#[derive(Debug)]
pub struct BenchmarkTracker {
    pub run_counter: u64,
    pub current_run: Option<BenchmarkRun>,
}

impl BenchmarkTracker {
    pub fn new() -> (r: Self)
        ensures
            r.run_counter == 0,
            r.current_run is None,
    {
        BenchmarkTracker { run_counter: 0, current_run: None }
    }

    /// Starts a run at `timestamp` seconds since the epoch; returns the
    /// run's number.
    pub fn start_run_at(&mut self, mode: &str, chunk_size: usize, parallel_files: bool, timestamp: i64) -> (r: u64)
        requires
            old(self).run_counter < u64::MAX,
        ensures
            final(self).run_counter == old(self).run_counter + 1,
            r == final(self).run_counter,
            final(self).current_run is Some,
            ({
                let run = final(self).current_run->Some_0;
                &&& run.run_id@ == "run_"@ + decimal_text(timestamp as int)
                &&& run.mode@ == mode@
                &&& run.files_processed == 0
                &&& run.total_reads == 0
                &&& run.total_bases == 0
                &&& run.total_score == 0
                &&& run.chunk_size == chunk_size
                &&& run.parallel_files == parallel_files
            }),
    {
        let run_number = get_next_run_number(self);
        self.current_run = Some(BenchmarkRun {
            run_id: tagged_number("run_", timestamp),
            mode: String::from_str(mode),
            files_processed: 0,
            total_reads: 0,
            total_bases: 0,
            total_score: 0,
            chunk_size,
            parallel_files,
        });
        run_number
    }

    /// Replaces the totals of the current run; without a run it does nothing.
    pub fn update_progress(&mut self, files_processed: usize, reads: usize, bases: usize, score: i64)
        ensures
            final(self).run_counter == old(self).run_counter,
            old(self).current_run is None ==> final(self).current_run is None,
            old(self).current_run is Some ==> final(self).current_run is Some && ({
                let before = old(self).current_run->Some_0;
                let after = final(self).current_run->Some_0;
                &&& after.run_id == before.run_id
                &&& after.mode == before.mode
                &&& after.chunk_size == before.chunk_size
                &&& after.parallel_files == before.parallel_files
                &&& after.files_processed == files_processed
                &&& after.total_reads == reads
                &&& after.total_bases == bases
                &&& after.total_score == score
            }),
    {
        if let Some(run) = &mut self.current_run {
            run.files_processed = files_processed;
            run.total_reads = reads;
            run.total_bases = bases;
            run.total_score = score;
        }
    }

    /// Ends the current run and hands its totals back.
    pub fn finish_run(&mut self) -> (r: Option<BenchmarkRun>)
        ensures
            r == old(self).current_run,
            final(self).current_run is None,
            final(self).run_counter == old(self).run_counter,
    {
        self.current_run.take()
    }
}

/// Starts a benchmark run on `tracker` at `timestamp` seconds since the
/// epoch.
pub fn start_benchmark(
    tracker: &mut BenchmarkTracker,
    mode: &str,
    chunk_size: usize,
    parallel_files: bool,
    timestamp: i64,
)
    requires
        old(tracker).run_counter < u64::MAX,
    ensures
        final(tracker).run_counter == old(tracker).run_counter + 1,
        final(tracker).current_run is Some,
        ({
            let run = final(tracker).current_run->Some_0;
            &&& run.run_id@ == "run_"@ + decimal_text(timestamp as int)
            &&& run.mode@ == mode@
            &&& run.files_processed == 0
            &&& run.total_reads == 0
            &&& run.total_bases == 0
            &&& run.total_score == 0
            &&& run.chunk_size == chunk_size
            &&& run.parallel_files == parallel_files
        }),
{
    let _ = tracker.start_run_at(mode, chunk_size, parallel_files, timestamp);
}

/// Advances the run counter and returns the new run number.
pub fn get_next_run_number(tracker: &mut BenchmarkTracker) -> (r: u64)
    requires
        old(tracker).run_counter < u64::MAX,
    ensures
        r == old(tracker).run_counter + 1,
        final(tracker).run_counter == r,
        final(tracker).current_run == old(tracker).current_run,
{
    tracker.run_counter = tracker.run_counter + 1;
    tracker.run_counter
}

/// Replaces the totals of the current benchmark run.
pub fn update_benchmark_progress(
    tracker: &mut BenchmarkTracker,
    files_processed: usize,
    reads: usize,
    bases: usize,
    score: i64,
)
    ensures
        final(tracker).run_counter == old(tracker).run_counter,
        old(tracker).current_run is None ==> final(tracker).current_run is None,
        old(tracker).current_run is Some ==> final(tracker).current_run is Some && ({
            let after = final(tracker).current_run->Some_0;
            &&& after.files_processed == files_processed
            &&& after.total_reads == reads
            &&& after.total_bases == bases
            &&& after.total_score == score
            &&& after.run_id == old(tracker).current_run->Some_0.run_id
        }),
{
    tracker.update_progress(files_processed, reads, bases, score);
}

} // verus!
