//! Record decoding for the four-line read format (header, sequence,
//! separator, quality): only the sequence line of each record is kept, and
//! reads are handed out in chunks of bounded size, in file order.

use vstd::prelude::*;

verus! {

/// Line read failures tolerated in one file; one more is fatal.
pub const MAX_READ_ERRORS: usize = 10;

/// Chunk size used when reads are only counted.
pub const LARGE_CHUNK_READS: usize = 100_000;

/// A fatal decoding failure.
#[derive(Debug, Clone, Copy, PartialEq, Eq, Structural)]
pub enum DecodeError {
    /// More than `MAX_READ_ERRORS` lines failed to read; `line` is the
    /// number of lines read successfully before the last failure.
    TooManyReadErrors { line: usize },
}

/// Whitespace that is stripped from the end of a sequence line.
pub open spec fn is_trailing_space(b: u8) -> bool {
    b == 32 || b == 9 || b == 10 || b == 11 || b == 12 || b == 13
}

/// Length of a line once its trailing whitespace is stripped.
pub open spec fn trimmed_len(s: Seq<u8>) -> nat
    decreases s.len(),
{
    if s.len() > 0 && is_trailing_space(s.last()) {
        trimmed_len(s.drop_last())
    } else {
        s.len()
    }
}

/// A line with its trailing whitespace stripped.
pub open spec fn trim_end(s: Seq<u8>) -> Seq<u8> {
    s.subrange(0, trimmed_len(s) as int)
}

/// Position of a line within its record that holds the sequence.
pub open spec fn is_sequence_line(index: nat) -> bool {
    index % 4 == 1
}

/// The reads carried by a run of lines: the trimmed second line of each
/// four-line record, in order.
pub open spec fn reads_of(lines: Seq<Seq<u8>>) -> Seq<Seq<u8>>
    decreases lines.len(),
{
    if lines.len() == 0 {
        Seq::empty()
    } else if is_sequence_line((lines.len() - 1) as nat) {
        reads_of(lines.drop_last()).push(trim_end(lines.last()))
    } else {
        reads_of(lines.drop_last())
    }
}

/// Reads grouped into chunks of `n`, in order; the last chunk holds what
/// is left and is never empty.
pub open spec fn group_reads(reads: Seq<Seq<u8>>, n: nat) -> Seq<Seq<Seq<u8>>>
    decreases reads.len(),
{
    if reads.len() == 0 {
        Seq::empty()
    } else if n == 0 || reads.len() <= n {
        seq![reads]
    } else {
        seq![reads.subrange(0, n as int)] + group_reads(reads.subrange(n as int, reads.len() as int), n)
    }
}

/// Total number of bases in a run of reads.
pub open spec fn total_len(reads: Seq<Seq<u8>>) -> nat
    decreases reads.len(),
{
    if reads.len() == 0 {
        0
    } else {
        total_len(reads.drop_last()) + reads.last().len()
    }
}

pub proof fn lemma_trimmed_len_bound(s: Seq<u8>)
    ensures
        trimmed_len(s) <= s.len(),
    decreases s.len(),
{
    if s.len() > 0 && is_trailing_space(s.last()) {
        lemma_trimmed_len_bound(s.drop_last());
    }
}

/// Grouping a run whose length is a multiple of `n` and then the rest is
/// the same as grouping the whole.
pub proof fn lemma_group_append(x: Seq<Seq<u8>>, y: Seq<Seq<u8>>, n: nat, k: nat)
    requires
        n > 0,
        x.len() == k * n,
    ensures
        group_reads(x + y, n) == group_reads(x, n) + group_reads(y, n),
    decreases k,
{
    if k == 0 {
        assert(x.len() == 0) by (nonlinear_arith)
            requires
                x.len() == k * n,
                k == 0,
        ;
        assert(x + y =~= y);
        assert(group_reads(x, n) + group_reads(y, n) =~= group_reads(y, n));
    } else {
        assert(x.len() >= n) by (nonlinear_arith)
            requires
                x.len() == k * n,
                k > 0,
        ;
        assert((k - 1) * n == k * n - n) by (nonlinear_arith);
        let xs = x.subrange(n as int, x.len() as int);
        lemma_group_append(xs, y, n, (k - 1) as nat);
        let xy = x + y;
        assert(xy.subrange(0, n as int) =~= x.subrange(0, n as int));
        assert(xy.subrange(n as int, xy.len() as int) =~= xs + y);
        if x.len() == n {
            assert(xs.len() == 0);
            assert(group_reads(xs, n) =~= Seq::<Seq<Seq<u8>>>::empty());
            assert(x.subrange(0, n as int) =~= x);
            if y.len() == 0 {
                assert(xy =~= x);
                assert(group_reads(x, n) + group_reads(y, n) =~= group_reads(x, n));
            } else {
                assert(xs + y =~= y);
                assert(group_reads(xy, n) =~= group_reads(x, n) + group_reads(y, n));
            }
        } else {
            assert(group_reads(xy, n) =~= group_reads(x, n) + group_reads(y, n));
        }
    }
}

pub proof fn lemma_total_len_append(x: Seq<Seq<u8>>, y: Seq<Seq<u8>>)
    ensures
        total_len(x + y) == total_len(x) + total_len(y),
    decreases y.len(),
{
    if y.len() == 0 {
        assert(x + y =~= x);
    } else {
        lemma_total_len_append(x, y.drop_last());
        assert((x + y).drop_last() =~= x + y.drop_last());
    }
}

/// Strips trailing whitespace from a line.
pub fn trim_line_end(line: Vec<u8>) -> (r: Vec<u8>)
    ensures
        r@ == trim_end(line@),
{
    let mut line = line;
    let mut end: usize = line.len();
    assert(line@.subrange(0, end as int) =~= line@);
    while end > 0 && (line[end - 1] == 32 || line[end - 1] == 9 || line[end - 1] == 10
        || line[end - 1] == 11 || line[end - 1] == 12 || line[end - 1] == 13)
        invariant
            end <= line@.len(),
            trimmed_len(line@) == trimmed_len(line@.subrange(0, end as int)),
        decreases end,
    {
        proof {
            let t = line@.subrange(0, end as int);
            assert(t.drop_last() =~= line@.subrange(0, end - 1));
        }
        end = end - 1;
    }
    proof {
        let t = line@.subrange(0, end as int);
        assert(trimmed_len(t) == end);
    }
    line.truncate(end);
    line
}

/// Turns a stream of lines into chunks of at most `chunk_size` reads.
///
/// Only the current, not yet full chunk is held: memory stays bounded by
/// the chunk size whatever the length of the input.
pub struct FastqChunker {
    chunk_size: usize,
    chunk: Vec<Vec<u8>>,
    line_count: usize,
    total_reads: usize,
    error_count: usize,
}

impl FastqChunker {
    /// The chunk size is positive and the pending chunk is not yet full.
    pub closed spec fn wf(&self) -> bool {
        self.chunk_size > 0 && self.chunk@.len() < self.chunk_size
    }

    /// Reads decoded but not yet handed out.
    pub closed spec fn pending(&self) -> Seq<Seq<u8>> {
        self.chunk.deep_view()
    }

    pub closed spec fn spec_chunk_size(&self) -> nat {
        self.chunk_size as nat
    }

    pub closed spec fn spec_line_count(&self) -> nat {
        self.line_count as nat
    }

    pub closed spec fn spec_total_reads(&self) -> nat {
        self.total_reads as nat
    }

    pub closed spec fn spec_error_count(&self) -> nat {
        self.error_count as nat
    }

    pub fn new(chunk_size: usize) -> (r: Self)
        requires
            chunk_size > 0,
        ensures
            r.wf(),
            r.pending() == Seq::<Seq<u8>>::empty(),
            r.pending().len() < r.spec_chunk_size(),
            r.spec_chunk_size() == chunk_size,
            r.spec_line_count() == 0,
            r.spec_total_reads() == 0,
            r.spec_error_count() == 0,
    {
        let r = FastqChunker {
            chunk_size,
            chunk: Vec::new(),
            line_count: 0,
            total_reads: 0,
            error_count: 0,
        };
        assert(r.chunk.deep_view() =~= Seq::<Seq<u8>>::empty());
        r
    }

    pub fn line_count(&self) -> (r: usize)
        ensures
            r == self.spec_line_count(),
    {
        self.line_count
    }

    pub fn total_reads(&self) -> (r: usize)
        ensures
            r == self.spec_total_reads(),
    {
        self.total_reads
    }

    pub fn error_count(&self) -> (r: usize)
        ensures
            r == self.spec_error_count(),
    {
        self.error_count
    }

    /// Takes the next line. The second line of each record becomes a read;
    /// when that read fills the chunk, the full chunk is handed out.
    pub fn push_line(&mut self, line: Vec<u8>) -> (emitted: Option<Vec<Vec<u8>>>)
        requires
            old(self).wf(),
            old(self).spec_line_count() < usize::MAX,
            old(self).spec_total_reads() < usize::MAX,
        ensures
            final(self).wf(),
            final(self).pending().len() < final(self).spec_chunk_size(),
            final(self).spec_chunk_size() == old(self).spec_chunk_size(),
            final(self).spec_line_count() == old(self).spec_line_count() + 1,
            final(self).spec_error_count() == old(self).spec_error_count(),
            is_sequence_line(old(self).spec_line_count()) ==> {
                let reads = old(self).pending().push(trim_end(line@));
                &&& final(self).spec_total_reads() == old(self).spec_total_reads() + 1
                &&& if reads.len() == old(self).spec_chunk_size() {
                    &&& emitted.is_some()
                    &&& emitted.unwrap()@.len() == old(self).spec_chunk_size()
                    &&& emitted.unwrap().deep_view() == reads
                    &&& final(self).pending() == Seq::<Seq<u8>>::empty()
                } else {
                    &&& emitted.is_none()
                    &&& final(self).pending() == reads
                }
            },
            !is_sequence_line(old(self).spec_line_count()) ==> {
                &&& emitted.is_none()
                &&& final(self).pending() == old(self).pending()
                &&& final(self).spec_total_reads() == old(self).spec_total_reads()
            },
    {
        let index = self.line_count;
        self.line_count = self.line_count + 1;
        if index % 4 != 1 {
            return None;
        }
        let read = trim_line_end(line);
        let ghost before = self.chunk.deep_view();
        assert(read.deep_view() =~= read@);
        self.chunk.push(read);
        self.total_reads = self.total_reads + 1;
        proof {
            assert(self.chunk.deep_view() =~= before.push(trim_end(line@)));
        }
        if self.chunk.len() >= self.chunk_size {
            let mut full: Vec<Vec<u8>> = Vec::new();
            core::mem::swap(&mut self.chunk, &mut full);
            proof {
                assert(self.chunk.deep_view() =~= Seq::<Seq<u8>>::empty());
            }
            Some(full)
        } else {
            None
        }
    }

    /// Notes a line that failed to read. Past `MAX_READ_ERRORS` failures
    /// the file is given up.
    pub fn record_error(&mut self) -> (r: Result<(), DecodeError>)
        requires
            old(self).wf(),
        ensures
            final(self).wf(),
            final(self).pending() == old(self).pending(),
            final(self).pending().len() < final(self).spec_chunk_size(),
            final(self).spec_chunk_size() == old(self).spec_chunk_size(),
            final(self).spec_line_count() == old(self).spec_line_count(),
            final(self).spec_total_reads() == old(self).spec_total_reads(),
            old(self).spec_error_count() < usize::MAX ==> final(self).spec_error_count()
                == old(self).spec_error_count() + 1,
            r is Ok <==> final(self).spec_error_count() <= MAX_READ_ERRORS,
            r is Err ==> r == Err::<(), DecodeError>(
                DecodeError::TooManyReadErrors { line: old(self).spec_line_count() as usize },
            ),
    {
        if self.error_count < usize::MAX {
            self.error_count = self.error_count + 1;
        }
        if self.error_count > MAX_READ_ERRORS {
            Err(DecodeError::TooManyReadErrors { line: self.line_count })
        } else {
            Ok(())
        }
    }

    /// Ends the stream: the last, partly filled chunk is handed out unless
    /// it is empty.
    pub fn finish(self) -> (r: Option<Vec<Vec<u8>>>)
        requires
            self.wf(),
        ensures
            r is Some ==> r->Some_0@.len() < self.spec_chunk_size(),
            self.pending().len() == 0 ==> r.is_none(),
            self.pending().len() > 0 ==> r.is_some() && r.unwrap().deep_view() == self.pending(),
    {
        if self.chunk.len() == 0 {
            None
        } else {
            Some(self.chunk)
        }
    }
}


proof fn lemma_reads_of_step(lines: Seq<Seq<u8>>, i: int)
    requires
        0 <= i < lines.len(),
    ensures
        reads_of(lines.subrange(0, i + 1)) == if is_sequence_line(i as nat) {
            reads_of(lines.subrange(0, i)).push(trim_end(lines[i]))
        } else {
            reads_of(lines.subrange(0, i))
        },
{
    assert(lines.subrange(0, i + 1).drop_last() =~= lines.subrange(0, i));
}

proof fn lemma_total_len_prefix(lines: Seq<Seq<u8>>, i: int)
    requires
        0 <= i <= lines.len(),
    ensures
        total_len(reads_of(lines.subrange(0, i))) <= total_len(reads_of(lines)),
    decreases lines.len() - i,
{
    if i < lines.len() {
        lemma_total_len_prefix(lines, i + 1);
        lemma_reads_of_step(lines, i);
        let r = reads_of(lines.subrange(0, i));
        if is_sequence_line(i as nat) {
            assert(r.push(trim_end(lines[i])).drop_last() =~= r);
        }
    } else {
        assert(lines.subrange(0, i) =~= lines);
    }
}

proof fn lemma_group_single(c: Seq<Seq<u8>>, n: nat)
    requires
        c.len() == n,
        n > 0,
    ensures
        group_reads(c, n) == seq![c],
{
}

/// Decodes a whole run of lines into chunks of at most `chunk_size` reads,
/// in order; the last chunk holds what is left over.
pub fn decode_chunks(lines: &Vec<Vec<u8>>, chunk_size: usize) -> (r: Vec<Vec<Vec<u8>>>)
    requires
        chunk_size > 0,
    ensures
        r.deep_view() == group_reads(reads_of(lines.deep_view()), chunk_size as nat),
{
    let ghost all = lines.deep_view();
    let ghost n = chunk_size as nat;
    let mut chunker = FastqChunker::new(chunk_size);
    let mut out: Vec<Vec<Vec<u8>>> = Vec::new();
    let ghost mut emitted: Seq<Seq<u8>> = Seq::empty();
    let ghost mut k: nat = 0;
    let mut i: usize = 0;
    proof {
        assert(all.subrange(0, 0) =~= Seq::<Seq<u8>>::empty());
        assert(emitted + chunker.pending() =~= Seq::<Seq<u8>>::empty());
        assert(out.deep_view() =~= Seq::<Seq<Seq<u8>>>::empty());
    }
    while i < lines.len()
        invariant
            i <= lines@.len(),
            all == lines.deep_view(),
            n == chunk_size,
            n > 0,
            chunker.wf(),
            chunker.spec_chunk_size() == n,
            chunker.spec_line_count() == i,
            chunker.spec_total_reads() <= i,
            reads_of(all.subrange(0, i as int)) == emitted + chunker.pending(),
            emitted.len() == k * n,
            out.deep_view() == group_reads(emitted, n),
        decreases lines@.len() - i,
    {
        let line = lines[i].clone();
        proof {
            assert(line@ =~= lines@[i as int]@);
            assert(line@ == all[i as int]);
            lemma_reads_of_step(all, i as int);
        }
        let ghost pending_before = chunker.pending();
        let emitted_chunk = chunker.push_line(line);
        match emitted_chunk {
            Some(c) => {
                proof {
                    lemma_group_append(emitted, c.deep_view(), n, k);
                    lemma_group_single(c.deep_view(), n);
                    assert(emitted + pending_before.push(trim_end(line@)) =~= emitted
                        + c.deep_view() + chunker.pending());
                    assert((k + 1) * n == k * n + n) by (nonlinear_arith);
                    emitted = emitted + c.deep_view();
                    k = k + 1;
                }
                let ghost out_before = out.deep_view();
                out.push(c);
                proof {
                    assert(out.deep_view() =~= out_before.push(c.deep_view()));
                }
            },
            None => {
                proof {
                    if is_sequence_line(i as nat) {
                        assert(emitted + pending_before.push(trim_end(line@)) =~= emitted
                            + chunker.pending());
                    }
                }
            },
        }
        i = i + 1;
    }
    proof {
        assert(all.subrange(0, i as int) =~= all);
        lemma_group_append(emitted, chunker.pending(), n, k);
    }
    let ghost pending = chunker.pending();
    match chunker.finish() {
        Some(c) => {
            proof {
                assert(pending.len() <= n);
            }
            let ghost out_before = out.deep_view();
            out.push(c);
            proof {
                assert(out.deep_view() =~= out_before.push(c.deep_view()));
                assert(group_reads(pending, n) == seq![pending]);
                assert(out_before.push(c.deep_view()) =~= out_before + seq![pending]);
            }
        },
        None => {
            proof {
                assert(pending.len() == 0);
                assert(group_reads(pending, n) =~= Seq::<Seq<Seq<u8>>>::empty());
                assert(out.deep_view() + group_reads(pending, n) =~= out.deep_view());
            }
        },
    }
    out
}

/// Total number of bases in a chunk of reads.
pub fn chunk_bases(chunk: &Vec<Vec<u8>>) -> (r: usize)
    requires
        total_len(chunk.deep_view()) <= usize::MAX,
    ensures
        r == total_len(chunk.deep_view()),
{
    let ghost c = chunk.deep_view();
    let mut total: usize = 0;
    let mut i: usize = 0;
    while i < chunk.len()
        invariant
            i <= chunk@.len(),
            c == chunk.deep_view(),
            total_len(c) <= usize::MAX,
            total == total_len(c.subrange(0, i as int)),
        decreases chunk@.len() - i,
    {
        proof {
            assert(c.subrange(0, i + 1).drop_last() =~= c.subrange(0, i as int));
            lemma_total_len_append(c.subrange(0, i + 1), c.subrange(i + 1, c.len() as int));
            assert(c.subrange(0, i + 1) + c.subrange(i + 1, c.len() as int) =~= c);
            assert(c[i as int] == chunk@[i as int]@);
        }
        total = total + chunk[i].len();
        i = i + 1;
    }
    proof {
        assert(c.subrange(0, i as int) =~= c);
    }
    total
}

/// Counts the bases of all reads in a run of lines.
pub fn count_bases_in_fastq(lines: &Vec<Vec<u8>>) -> (r: usize)
    requires
        total_len(reads_of(lines.deep_view())) <= usize::MAX,
    ensures
        r == total_len(reads_of(lines.deep_view())),
{
    let ghost all = lines.deep_view();
    let mut chunker = FastqChunker::new(LARGE_CHUNK_READS);
    let mut total: usize = 0;
    let ghost mut emitted: Seq<Seq<u8>> = Seq::empty();
    let mut i: usize = 0;
    proof {
        assert(all.subrange(0, 0) =~= Seq::<Seq<u8>>::empty());
        assert(emitted + chunker.pending() =~= Seq::<Seq<u8>>::empty());
    }
    while i < lines.len()
        invariant
            i <= lines@.len(),
            all == lines.deep_view(),
            total_len(reads_of(all)) <= usize::MAX,
            chunker.wf(),
            chunker.spec_line_count() == i,
            chunker.spec_total_reads() <= i,
            reads_of(all.subrange(0, i as int)) == emitted + chunker.pending(),
            total == total_len(emitted),
        decreases lines@.len() - i,
    {
        let line = lines[i].clone();
        proof {
            assert(line@ =~= lines@[i as int]@);
            assert(line@ == all[i as int]);
            lemma_reads_of_step(all, i as int);
            lemma_total_len_prefix(all, i + 1);
        }
        let ghost pending_before = chunker.pending();
        let emitted_chunk = chunker.push_line(line);
        match emitted_chunk {
            Some(c) => {
                proof {
                    assert(emitted + pending_before.push(trim_end(line@)) =~= emitted
                        + c.deep_view() + chunker.pending());
                    assert(chunker.pending() =~= Seq::<Seq<u8>>::empty());
                    assert(emitted + c.deep_view() + chunker.pending() =~= emitted + c.deep_view());
                    lemma_total_len_append(emitted, c.deep_view());
                }
                let b = chunk_bases(&c);
                total = total + b;
                proof {
                    emitted = emitted + c.deep_view();
                }
            },
            None => {
                proof {
                    if is_sequence_line(i as nat) {
                        assert(emitted + pending_before.push(trim_end(line@)) =~= emitted
                            + chunker.pending());
                    }
                }
            },
        }
        i = i + 1;
    }
    proof {
        assert(all.subrange(0, i as int) =~= all);
        lemma_total_len_append(emitted, chunker.pending());
    }
    let ghost pending = chunker.pending();
    match chunker.finish() {
        Some(c) => {
            let b = chunk_bases(&c);
            total = total + b;
        },
        None => {
            proof {
                assert(pending =~= Seq::<Seq<u8>>::empty());
            }
        },
    }
    total
}

} // verus!
