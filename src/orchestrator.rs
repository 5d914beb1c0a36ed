//! Per-file and pairwise accumulation of partial scores, and the decision
//! to reuse a file's stored result instead of decoding it again.

use vstd::prelude::*;
use crate::checkpoint::{CheckpointState, FileCheckpoint};
use crate::engine::{ScoreError, score_chunk_self_cpu, fits_i32_score};
use crate::fastq::total_len;
use crate::scoring::{
    score_of,
    score_bytes,
    self_score,
    grid_score,
    sub_chunks,
    align_pair_grid,
    MIN_SELF_ALIGN_LEN,
};

verus! {

/// Progress is reported after every this many scored chunks.
pub const PROGRESS_EVERY_CHUNKS: usize = 10;

/// Reads of a chunk laid end to end.
pub open spec fn flatten(reads: Seq<Seq<u8>>) -> Seq<u8>
    decreases reads.len(),
{
    if reads.len() == 0 {
        Seq::empty()
    } else {
        flatten(reads.drop_last()) + reads.last()
    }
}

pub proof fn lemma_flatten_len(reads: Seq<Seq<u8>>)
    ensures
        flatten(reads).len() == total_len(reads),
    decreases reads.len(),
{
    if reads.len() > 0 {
        lemma_flatten_len(reads.drop_last());
    }
}

/// Sum of a run of chunk scores.
pub open spec fn sum_scores(s: Seq<int>) -> int
    decreases s.len(),
{
    if s.len() == 0 {
        0
    } else {
        sum_scores(s.drop_last()) + s.last()
    }
}

/// Concatenates the reads of a chunk into one buffer.
pub fn concat_reads(chunk: &Vec<Vec<u8>>) -> (r: Vec<u8>)
    ensures
        r@ == flatten(chunk.deep_view()),
{
    let ghost c = chunk.deep_view();
    let mut out: Vec<u8> = Vec::new();
    let mut i: usize = 0;
    proof {
        assert(flatten(c.subrange(0, 0)) =~= Seq::<u8>::empty());
    }
    while i < chunk.len()
        invariant
            i <= chunk@.len(),
            c == chunk.deep_view(),
            out@ == flatten(c.subrange(0, i as int)),
        decreases chunk@.len() - i,
    {
        proof {
            assert(c.subrange(0, i + 1).drop_last() =~= c.subrange(0, i as int));
            assert(c[i as int] =~= chunk@[i as int]@);
        }
        out.extend_from_slice(chunk[i].as_slice());
        i = i + 1;
    }
    proof {
        assert(c.subrange(0, i as int) =~= c);
    }
    out
}

/// Running totals of one file, fed one scored chunk at a time.
///
/// A chunk enters whole or not at all, so the totals always describe the
/// chunks fully processed so far.
pub struct FileRun {
    file_path: String,
    file_index: usize,
    score: i64,
    total_bases: usize,
    total_reads: usize,
    processed_chunks: usize,
    failed_chunks: usize,
    chunk_scores: Ghost<Seq<int>>,
}

impl FileRun {
    /// The score is the sum of the recorded chunk scores, one per
    /// processed chunk.
    pub closed spec fn wf(&self) -> bool {
        &&& self.score == sum_scores(self.chunk_scores@)
        &&& self.processed_chunks == self.chunk_scores@.len()
    }

    /// Scores of the chunks recorded so far, in order.
    pub closed spec fn chunk_scores(&self) -> Seq<int> {
        self.chunk_scores@
    }

    pub closed spec fn spec_file_path(&self) -> Seq<char> {
        self.file_path@
    }

    pub closed spec fn spec_file_index(&self) -> usize {
        self.file_index
    }

    pub closed spec fn spec_score(&self) -> int {
        self.score as int
    }

    pub closed spec fn spec_total_bases(&self) -> nat {
        self.total_bases as nat
    }

    pub closed spec fn spec_total_reads(&self) -> nat {
        self.total_reads as nat
    }

    pub closed spec fn spec_processed_chunks(&self) -> nat {
        self.processed_chunks as nat
    }

    pub closed spec fn spec_failed_chunks(&self) -> nat {
        self.failed_chunks as nat
    }

    /// Whether recording these amounts keeps every total in range.
    pub open spec fn can_record(&self, bases: usize, reads: usize, score: Result<i32, ScoreError>) -> bool {
        &&& self.spec_total_bases() + bases <= usize::MAX
        &&& self.spec_total_reads() + reads <= usize::MAX
        &&& self.spec_processed_chunks() < usize::MAX
        &&& self.spec_failed_chunks() < usize::MAX
        &&& score is Ok ==> i64::MIN <= self.spec_score() + score->Ok_0 <= i64::MAX
    }

    /// A run of the file at `file_index` with nothing recorded yet.
    pub fn new(file_path: String, file_index: usize) -> (r: Self)
        ensures
            r.wf(),
            r.spec_file_path() == file_path@,
            r.spec_file_index() == file_index,
            r.chunk_scores() == Seq::<int>::empty(),
            r.spec_score() == 0,
            r.spec_total_bases() == 0,
            r.spec_total_reads() == 0,
            r.spec_processed_chunks() == 0,
            r.spec_failed_chunks() == 0,
    {
        FileRun {
            file_path,
            file_index,
            score: 0,
            total_bases: 0,
            total_reads: 0,
            processed_chunks: 0,
            failed_chunks: 0,
            chunk_scores: Ghost(Seq::empty()),
        }
    }

    pub fn score(&self) -> (r: i64)
        ensures
            r == self.spec_score(),
    {
        self.score
    }

    pub fn total_bases(&self) -> (r: usize)
        ensures
            r == self.spec_total_bases(),
    {
        self.total_bases
    }

    pub fn total_reads(&self) -> (r: usize)
        ensures
            r == self.spec_total_reads(),
    {
        self.total_reads
    }

    pub fn processed_chunks(&self) -> (r: usize)
        ensures
            r == self.spec_processed_chunks(),
    {
        self.processed_chunks
    }

    pub fn failed_chunks(&self) -> (r: usize)
        ensures
            r == self.spec_failed_chunks(),
    {
        self.failed_chunks
    }

    /// Records one chunk of `reads` reads and `bases` bases with its score.
    /// A failed score adds nothing to the score and is counted as a failed
    /// chunk; the bases and reads still count, and a file with a failed
    /// chunk is never concluded as completed. Returns false, changing
    /// nothing, where a total would leave its range.
    pub fn record_chunk(&mut self, bases: usize, reads: usize, score: Result<i32, ScoreError>) -> (accepted: bool)
        requires
            old(self).wf(),
        ensures
            final(self).wf(),
            accepted == old(self).can_record(bases, reads, score),
            !accepted ==> *final(self) == *old(self),
            accepted ==> {
                &&& final(self).spec_file_path() == old(self).spec_file_path()
                &&& final(self).spec_file_index() == old(self).spec_file_index()
                &&& final(self).spec_total_bases() == old(self).spec_total_bases() + bases
                &&& final(self).spec_total_reads() == old(self).spec_total_reads() + reads
                &&& score is Ok ==> {
                    &&& final(self).chunk_scores() == old(self).chunk_scores().push(score->Ok_0 as int)
                    &&& final(self).spec_score() == old(self).spec_score() + score->Ok_0
                    &&& final(self).spec_processed_chunks() == old(self).spec_processed_chunks() + 1
                    &&& final(self).spec_failed_chunks() == old(self).spec_failed_chunks()
                }
                &&& score is Err ==> {
                    &&& final(self).chunk_scores() == old(self).chunk_scores()
                    &&& final(self).spec_score() == old(self).spec_score()
                    &&& final(self).spec_processed_chunks() == old(self).spec_processed_chunks()
                    &&& final(self).spec_failed_chunks() == old(self).spec_failed_chunks() + 1
                }
            },
    {
        if bases > usize::MAX - self.total_bases || reads > usize::MAX - self.total_reads
            || self.processed_chunks == usize::MAX || self.failed_chunks == usize::MAX {
            return false;
        }
        match score {
            Ok(s) => {
                if (s < 0 && self.score < i64::MIN - s as i64) || (s > 0 && self.score > i64::MAX
                    - s as i64) {
                    return false;
                }
                self.total_bases = self.total_bases + bases;
                self.total_reads = self.total_reads + reads;
                self.score = self.score + s as i64;
                self.processed_chunks = self.processed_chunks + 1;
                proof {
                    let old_scores = self.chunk_scores@;
                    assert(old_scores.push(s as int).drop_last() =~= old_scores);
                    self.chunk_scores = Ghost(old_scores.push(s as int));
                }
                true
            },
            Err(_) => {
                self.total_bases = self.total_bases + bases;
                self.total_reads = self.total_reads + reads;
                self.failed_chunks = self.failed_chunks + 1;
                true
            },
        }
    }

    /// Self-aligns one chunk on the CPU and records it.
    pub fn process_chunk_self_cpu(&mut self, chunk: &Vec<Vec<u8>>) -> (accepted: bool)
        requires
            old(self).wf(),
        ensures
            final(self).wf(),
            accepted <==> ({
                let buf = flatten(chunk.deep_view());
                &&& old(self).spec_total_bases() + buf.len() <= usize::MAX
                &&& old(self).spec_total_reads() + chunk@.len() <= usize::MAX
                &&& old(self).spec_processed_chunks() < usize::MAX
                &&& old(self).spec_failed_chunks() < usize::MAX
                &&& (buf.len() < MIN_SELF_ALIGN_LEN || fits_i32_score(buf.len())) ==> i64::MIN
                    <= old(self).spec_score() + self_score(buf) <= i64::MAX
            }),
            !accepted ==> *final(self) == *old(self),
            accepted ==> {
                let buf = flatten(chunk.deep_view());
                &&& final(self).spec_total_bases() == old(self).spec_total_bases() + buf.len()
                &&& final(self).spec_total_bases() == old(self).spec_total_bases() + total_len(
                    chunk.deep_view(),
                )
                &&& final(self).spec_total_reads() == old(self).spec_total_reads() + chunk@.len()
                &&& (buf.len() < MIN_SELF_ALIGN_LEN || fits_i32_score(buf.len())) ==> {
                    &&& final(self).chunk_scores() == old(self).chunk_scores().push(self_score(buf))
                    &&& final(self).spec_score() == old(self).spec_score() + self_score(buf)
                }
                &&& !(buf.len() < MIN_SELF_ALIGN_LEN || fits_i32_score(buf.len())) ==> {
                    &&& final(self).chunk_scores() == old(self).chunk_scores()
                    &&& final(self).spec_failed_chunks() == old(self).spec_failed_chunks() + 1
                }
            },
    {
        let buf = concat_reads(chunk);
        proof {
            lemma_flatten_len(chunk.deep_view());
        }
        let scored = score_chunk_self_cpu(buf.as_slice());
        self.record_chunk(buf.len(), chunk.len(), scored)
    }

    /// Whether progress is due after the chunk just recorded.
    pub fn progress_due(&self) -> (r: bool)
        ensures
            r == (self.spec_processed_chunks() > 0 && self.spec_processed_chunks()
                % PROGRESS_EVERY_CHUNKS as nat == 0),
    {
        self.processed_chunks > 0 && self.processed_chunks % PROGRESS_EVERY_CHUNKS == 0
    }

    /// The checkpoint record of this run: its score is the sum of the
    /// scores of the chunks recorded in full, and nothing else. The file
    /// counts as completed only if the caller says its stream ended cleanly
    /// and no chunk failed to score.
    pub fn conclude(self, completed: bool, processing_time_ms: u64) -> (r: FileCheckpoint)
        requires
            self.wf(),
        ensures
            r.file_path@ == self.spec_file_path(),
            r.file_index == self.spec_file_index(),
            r.score == sum_scores(self.chunk_scores()),
            r.score == self.spec_score(),
            r.total_bases == self.spec_total_bases(),
            r.total_reads == self.spec_total_reads(),
            r.processing_time_ms == processing_time_ms,
            r.completed == (completed && self.spec_failed_chunks() == 0),
    {
        FileCheckpoint {
            file_path: self.file_path,
            file_index: self.file_index,
            score: self.score,
            processing_time_ms,
            total_bases: self.total_bases,
            total_reads: self.total_reads,
            completed: completed && self.failed_chunks == 0,
        }
    }
}

/// The stored result of a file that an earlier run completed: such a file
/// is neither decoded nor scored again.
pub fn reusable_result(state: &CheckpointState, file_index: usize) -> (r: Option<&FileCheckpoint>)
    requires
        state.wf(),
    ensures
        r is Some <==> (state.progress().contains_key(file_index)
            && state.progress()[file_index].completed),
        r is Some ==> *r.unwrap() == state.progress()[file_index],
{
    if state.is_file_completed(file_index) {
        state.file_result(file_index)
    } else {
        None
    }
}

/// Pairwise score of two sequences: directly when both fit within
/// `threshold` bytes, else on the grid of sub-chunks of `sub_size` bytes.
pub fn align_pair_chunked(a: &[u8], b: &[u8], threshold: usize, sub_size: usize) -> (r: i64)
    requires
        sub_size > 0,
        2 * sub_size <= i32::MAX,
        2 * threshold <= i32::MAX,
        a@.len() > threshold || b@.len() > threshold ==> sub_chunks(a@, sub_size as nat).len()
            * sub_chunks(b@, sub_size as nat).len() * (2 * sub_size) <= i64::MAX,
    ensures
        a@.len() > threshold || b@.len() > threshold ==> r == grid_score(a@, b@, sub_size as nat),
        a@.len() <= threshold && b@.len() <= threshold ==> r == score_of(a@, b@),
{
    if a.len() > threshold || b.len() > threshold {
        align_pair_grid(a, b, sub_size)
    } else {
        score_bytes(a, b) as i64
    }
}

/// Running pairwise total over sub-chunk pairs whose scores come from a
/// backend that may fail: failed pairs are counted and skipped.
pub struct PairwiseTotal {
    total: i64,
    scored: usize,
    failed: usize,
    partials: Ghost<Seq<int>>,
}

impl PairwiseTotal {
    pub closed spec fn wf(&self) -> bool {
        &&& self.total == sum_scores(self.partials@)
        &&& self.scored == self.partials@.len()
    }

    /// Scores of the pairs that succeeded, in order.
    pub closed spec fn partials(&self) -> Seq<int> {
        self.partials@
    }

    pub closed spec fn spec_total(&self) -> int {
        self.total as int
    }

    pub closed spec fn spec_failed(&self) -> nat {
        self.failed as nat
    }

    pub fn new() -> (r: Self)
        ensures
            r.wf(),
            r.partials() == Seq::<int>::empty(),
            r.spec_total() == 0,
            r.spec_failed() == 0,
    {
        PairwiseTotal { total: 0, scored: 0, failed: 0, partials: Ghost(Seq::empty()) }
    }

    pub fn total(&self) -> (r: i64)
        ensures
            r == self.spec_total(),
    {
        self.total
    }

    pub fn failed(&self) -> (r: usize)
        ensures
            r == self.spec_failed(),
    {
        self.failed
    }

    /// Adds the score of one sub-chunk pair, or counts its failure.
    /// Returns false, changing nothing, where a total would leave its range.
    pub fn record(&mut self, partial: Result<i32, ScoreError>) -> (accepted: bool)
        requires
            old(self).wf(),
        ensures
            final(self).wf(),
            !accepted ==> *final(self) == *old(self),
            partial is Ok && accepted ==> final(self).partials() == old(self).partials().push(
                partial->Ok_0 as int,
            ) && final(self).spec_failed() == old(self).spec_failed(),
            partial is Err && accepted ==> final(self).partials() == old(self).partials()
                && final(self).spec_failed() == old(self).spec_failed() + 1,
            partial is Ok ==> (accepted <==> (old(self).partials().len() < usize::MAX && i64::MIN
                <= old(self).spec_total() + partial->Ok_0 <= i64::MAX)),
            partial is Err ==> (accepted <==> old(self).spec_failed() < usize::MAX),
            final(self).spec_total() == sum_scores(final(self).partials()),
    {
        match partial {
            Ok(s) => {
                if self.scored == usize::MAX || (s < 0 && self.total < i64::MIN - s as i64) || (s > 0
                    && self.total > i64::MAX - s as i64) {
                    return false;
                }
                self.total = self.total + s as i64;
                self.scored = self.scored + 1;
                proof {
                    let old_partials = self.partials@;
                    assert(old_partials.push(s as int).drop_last() =~= old_partials);
                    self.partials = Ghost(old_partials.push(s as int));
                }
                true
            },
            Err(_) => {
                if self.failed == usize::MAX {
                    return false;
                }
                self.failed = self.failed + 1;
                true
            },
        }
    }
}


/// Whether the ledger holds a completed record for `file_index`.
pub open spec fn completed_in(progress: Map<usize, FileCheckpoint>, file_index: usize) -> bool {
    progress.contains_key(file_index) && progress[file_index].completed
}

/// What the caller does next in a multi-file run.
#[derive(Debug, Clone, Copy, PartialEq, Eq, Structural)]
pub enum FileAction {
    /// The file was completed by an earlier run: use its stored result and
    /// do not open it.
    Reuse { index: usize, score: i64, processing_time_ms: u64 },
    /// Decode and score the file, then report it with `file_concluded`.
    Process { index: usize },
    /// Every file is done, or a file failed and the run stops.
    Finished,
}

/// A multi-file run over its checkpoint ledger: files are taken strictly in
/// order, completed ones are reused, and the first failure ends the run.
pub struct BatchRun {
    ledger: CheckpointState,
    total_files: usize,
    next: usize,
    failed: bool,
}

impl BatchRun {
    pub closed spec fn wf(&self) -> bool {
        &&& self.ledger.wf()
        &&& self.next <= self.total_files
    }

    pub closed spec fn ledger(&self) -> CheckpointState {
        self.ledger
    }

    /// Index of the next file to consider.
    pub closed spec fn spec_next(&self) -> nat {
        self.next as nat
    }

    pub closed spec fn spec_total_files(&self) -> nat {
        self.total_files as nat
    }

    pub closed spec fn spec_failed(&self) -> bool {
        self.failed
    }

    /// A run over `total_files` files, starting from a fresh or restored ledger.
    pub fn new(ledger: CheckpointState, total_files: usize) -> (r: Self)
        requires
            ledger.wf(),
        ensures
            r.wf(),
            r.ledger() == ledger,
            r.spec_next() == 0,
            r.spec_total_files() == total_files,
            !r.spec_failed(),
    {
        BatchRun { ledger, total_files, next: 0, failed: false }
    }

    pub fn ledger_ref(&self) -> (r: &CheckpointState)
        ensures
            *r == self.ledger(),
    {
        &self.ledger
    }

    pub fn failed(&self) -> (r: bool)
        ensures
            r == self.spec_failed(),
    {
        self.failed
    }

    /// Decides what happens with the next file. A completed file is passed
    /// over with its stored result; any other file is handed out to process.
    pub fn next_action(&mut self) -> (r: FileAction)
        requires
            old(self).wf(),
        ensures
            final(self).wf(),
            final(self).ledger() == old(self).ledger(),
            final(self).spec_total_files() == old(self).spec_total_files(),
            final(self).spec_failed() == old(self).spec_failed(),
            ({
                let i = old(self).spec_next();
                let progress = old(self).ledger().progress();
                if old(self).spec_failed() || i >= old(self).spec_total_files() {
                    r == FileAction::Finished && final(self).spec_next() == i
                } else if completed_in(progress, i as usize) {
                    &&& r == (FileAction::Reuse {
                        index: i as usize,
                        score: progress[i as usize].score,
                        processing_time_ms: progress[i as usize].processing_time_ms,
                    })
                    &&& final(self).spec_next() == i + 1
                } else {
                    r == (FileAction::Process { index: i as usize }) && final(self).spec_next() == i
                }
            }),
    {
        if self.failed || self.next >= self.total_files {
            return FileAction::Finished;
        }
        let i = self.next;
        match reusable_result(&self.ledger, i) {
            Some(stored) => {
                let action = FileAction::Reuse {
                    index: i,
                    score: stored.score,
                    processing_time_ms: stored.processing_time_ms,
                };
                self.next = i + 1;
                action
            },
            None => FileAction::Process { index: i },
        }
    }

    /// Records the outcome of the file just processed. A completed file
    /// moves the run on; a failed one is recorded with its partial totals
    /// and ends the run. The ledger is then to be persisted.
    pub fn file_concluded(&mut self, checkpoint: FileCheckpoint)
        requires
            old(self).wf(),
            !old(self).spec_failed(),
            old(self).spec_next() < old(self).spec_total_files(),
            checkpoint.file_index == old(self).spec_next(),
        ensures
            final(self).wf(),
            final(self).ledger().progress() == old(self).ledger().progress().insert(
                checkpoint.file_index,
                checkpoint,
            ),
            final(self).ledger().run_id == old(self).ledger().run_id,
            final(self).spec_total_files() == old(self).spec_total_files(),
            checkpoint.completed ==> final(self).spec_next() == old(self).spec_next() + 1
                && !final(self).spec_failed(),
            !checkpoint.completed ==> final(self).spec_next() == old(self).spec_next()
                && final(self).spec_failed(),
    {
        let completed = checkpoint.completed;
        self.ledger.add_file_result(checkpoint);
        if completed {
            self.next = self.next + 1;
        } else {
            self.failed = true;
        }
    }

    /// Ends the run, handing back its ledger.
    pub fn into_ledger(self) -> (r: CheckpointState)
        ensures
            r == self.ledger(),
    {
        self.ledger
    }
}

} // verus!
