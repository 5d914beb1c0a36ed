//! The checkpoint ledger of a multi-file run: one progress record per file
//! index, the latest one winning, and a count of completed files that is
//! kept equal to the number of completed records.

use vstd::prelude::*;

verus! {

/// Progress of one input file.
#[derive(Debug, Clone)]
pub struct FileCheckpoint {
    pub file_path: String,
    pub file_index: usize,
    pub score: i64,
    pub processing_time_ms: u64,
    pub total_bases: usize,
    pub total_reads: usize,
    pub completed: bool,
}

/// The records keyed by file index; a later record for an index replaces
/// an earlier one.
pub open spec fn entry_map(files: Seq<FileCheckpoint>) -> Map<usize, FileCheckpoint>
    decreases files.len(),
{
    if files.len() == 0 {
        Map::empty()
    } else {
        entry_map(files.drop_last()).insert(files.last().file_index, files.last())
    }
}

/// No two records share a file index.
pub open spec fn unique_indices(files: Seq<FileCheckpoint>) -> bool {
    forall|i: int, j: int|
        0 <= i < j < files.len() ==> #[trigger] files[i].file_index != #[trigger] files[j].file_index
}

/// Number of records marked completed.
pub open spec fn count_completed(files: Seq<FileCheckpoint>) -> nat
    decreases files.len(),
{
    if files.len() == 0 {
        0
    } else {
        count_completed(files.drop_last()) + if files.last().completed {
            1nat
        } else {
            0nat
        }
    }
}

pub proof fn lemma_entry_map_dom(files: Seq<FileCheckpoint>, k: usize)
    ensures
        entry_map(files).dom().contains(k) <==> exists|i: int|
            0 <= i < files.len() && #[trigger] files[i].file_index == k,
    decreases files.len(),
{
    if files.len() > 0 {
        let t = files.drop_last();
        lemma_entry_map_dom(t, k);
        if entry_map(t).dom().contains(k) {
            let i = choose|i: int| 0 <= i < t.len() && #[trigger] t[i].file_index == k;
            assert(files[i].file_index == k);
        }
        if exists|i: int| 0 <= i < files.len() && #[trigger] files[i].file_index == k {
            let i = choose|i: int| 0 <= i < files.len() && #[trigger] files[i].file_index == k;
            if i < t.len() {
                assert(t[i].file_index == k);
            }
        }
    }
}

pub proof fn lemma_entry_map_remove(files: Seq<FileCheckpoint>, p: int)
    requires
        unique_indices(files),
        0 <= p < files.len(),
    ensures
        entry_map(files.remove(p)) == entry_map(files).remove(files[p].file_index),
    decreases files.len(),
{
    let x = files.last();
    let t = files.drop_last();
    let k = files[p].file_index;
    if p == files.len() - 1 {
        assert(files.remove(p) =~= t);
        lemma_entry_map_dom(t, k);
        if entry_map(t).dom().contains(k) {
            let i = choose|i: int| 0 <= i < t.len() && #[trigger] t[i].file_index == k;
            assert(files[i].file_index == files[p].file_index);
        }
        assert(entry_map(t) =~= entry_map(t).insert(k, x).remove(k));
    } else {
        assert(files.remove(p) =~= t.remove(p).push(x));
        assert(files.remove(p).drop_last() =~= t.remove(p));
        lemma_entry_map_remove(t, p);
        assert(x.file_index != k);
        assert(entry_map(files.remove(p)) =~= entry_map(files).remove(k));
    }
}

proof fn lemma_count_completed_remove(files: Seq<FileCheckpoint>, p: int)
    requires
        0 <= p < files.len(),
    ensures
        count_completed(files) == count_completed(files.remove(p)) + if files[p].completed {
            1nat
        } else {
            0nat
        },
    decreases files.len(),
{
    let t = files.drop_last();
    if p == files.len() - 1 {
        assert(files.remove(p) =~= t);
    } else {
        assert(files.remove(p).drop_last() =~= t.remove(p));
        lemma_count_completed_remove(t, p);
    }
}

/// The whole run's progress, persisted after every change.
#[derive(Debug)]
pub struct CheckpointState {
    pub run_id: String,
    pub files: Vec<FileCheckpoint>,
    pub total_files: usize,
    pub completed_files: usize,
}

impl CheckpointState {
    /// Progress by file index.
    pub open spec fn progress(&self) -> Map<usize, FileCheckpoint> {
        entry_map(self.files@)
    }

    /// Indices are unique and the completed count matches the records.
    pub open spec fn wf(&self) -> bool {
        &&& unique_indices(self.files@)
        &&& self.completed_files == count_completed(self.files@)
    }

    /// A fresh state with no records.
    pub fn new(run_id: String, total_files: usize) -> (r: Self)
        ensures
            r.wf(),
            r.files@.len() == 0,
            r.progress() == Map::<usize, FileCheckpoint>::empty(),
            r.run_id@ == run_id@,
            r.total_files == total_files,
            r.completed_files == 0,
    {
        CheckpointState { run_id, files: Vec::new(), total_files, completed_files: 0 }
    }

    /// Rebuilds a state from records read back from storage, taking them in
    /// order so that a later record for an index wins.
    pub fn restore(run_id: String, total_files: usize, files: Vec<FileCheckpoint>) -> (r: Self)
        ensures
            r.wf(),
            r.progress() == entry_map(files@),
            unique_indices(files@) ==> r.files@ == files@,
            r.run_id@ == run_id@,
            r.total_files == total_files,
    {
        let ghost all = files@;
        let mut files = files;
        let mut state = CheckpointState::new(run_id, total_files);
        let ghost mut taken: int = 0;
        proof {
            assert(all.subrange(0, 0) =~= Seq::<FileCheckpoint>::empty());
            assert(all.subrange(0, all.len() as int) =~= all);
        }
        while files.len() > 0
            invariant
                state.wf(),
                state.run_id@ == run_id@,
                state.total_files == total_files,
                0 <= taken <= all.len(),
                files@ == all.subrange(taken, all.len() as int),
                state.progress() == entry_map(all.subrange(0, taken)),
                unique_indices(all) ==> state.files@ == all.subrange(0, taken),
            decreases files@.len(),
        {
            let next = files.remove(0);
            proof {
                assert(next == all[taken]);
                assert(all.subrange(0, taken + 1).drop_last() =~= all.subrange(0, taken));
                assert(files@ =~= all.subrange(taken + 1, all.len() as int));
            }
            let ghost before = state.files@;
            proof {
                if unique_indices(all) {
                    assert forall|i: int| 0 <= i < before.len() implies #[trigger] before[i].file_index
                        != next.file_index by {
                        assert(before[i] == all[i]);
                    }
                }
            }
            state.add_file_result(next);
            proof {
                if unique_indices(all) {
                    assert(state.files@ =~= all.subrange(0, taken + 1));
                }
                taken = taken + 1;
            }
        }
        proof {
            assert(all.subrange(0, taken) =~= all);
        }
        state
    }

    /// Position of the record for `file_index`, if there is one.
    fn position_of(&self, file_index: usize) -> (r: Option<usize>)
        requires
            self.wf(),
        ensures
            r is None ==> forall|i: int|
                0 <= i < self.files@.len() ==> #[trigger] self.files@[i].file_index != file_index,
            r is Some ==> r.unwrap() < self.files@.len() && self.files@[r.unwrap() as int].file_index
                == file_index,
    {
        let mut i: usize = 0;
        while i < self.files.len()
            invariant
                i <= self.files@.len(),
                forall|j: int| 0 <= j < i ==> #[trigger] self.files@[j].file_index != file_index,
            decreases self.files@.len() - i,
        {
            if self.files[i].file_index == file_index {
                return Some(i);
            }
            i = i + 1;
        }
        None
    }

    /// Number of completed records, counted afresh.
    fn count_completed_files(&self) -> (r: usize)
        ensures
            r == count_completed(self.files@),
    {
        let mut n: usize = 0;
        let mut i: usize = 0;
        while i < self.files.len()
            invariant
                i <= self.files@.len(),
                n == count_completed(self.files@.subrange(0, i as int)),
                n <= i,
            decreases self.files@.len() - i,
        {
            proof {
                assert(self.files@.subrange(0, i + 1).drop_last() =~= self.files@.subrange(0, i as int));
            }
            if self.files[i].completed {
                n = n + 1;
            }
            i = i + 1;
        }
        proof {
            assert(self.files@.subrange(0, i as int) =~= self.files@);
        }
        n
    }

    /// Records the result of one file: any earlier record for the same
    /// index is replaced, and the completed count is recomputed.
    pub fn add_file_result(&mut self, checkpoint: FileCheckpoint)
        requires
            old(self).wf(),
        ensures
            final(self).wf(),
            final(self).progress() == old(self).progress().insert(checkpoint.file_index, checkpoint),
            final(self).run_id == old(self).run_id,
            final(self).total_files == old(self).total_files,
            final(self).completed_files == count_completed(final(self).files@),
            (forall|i: int|
                0 <= i < old(self).files@.len() ==> #[trigger] old(self).files@[i].file_index
                    != checkpoint.file_index) ==> final(self).files@ == old(self).files@.push(checkpoint),
            forall|p: int|
                0 <= p < old(self).files@.len() && #[trigger] old(self).files@[p].file_index
                    == checkpoint.file_index ==> final(self).files@ == old(self).files@.remove(p).push(
                    checkpoint,
                ),
    {
        let ghost old_files = self.files@;
        let ghost k = checkpoint.file_index;
        match self.position_of(checkpoint.file_index) {
            Some(p) => {
                proof {
                    lemma_entry_map_remove(old_files, p as int);
                }
                let _ = self.files.remove(p);
                proof {
                    assert forall|q: int|
                        0 <= q < old_files.len() && #[trigger] old_files[q].file_index == k implies q
                        == p by {
                        if q != p {
                            assert(old_files[q].file_index != old_files[p as int].file_index);
                        }
                    }
                    assert(self.files@ == old_files.remove(p as int));
                    assert forall|i: int| 0 <= i < self.files@.len() implies #[trigger] self.files@[i].file_index
                        != k by {
                        if i < p {
                            assert(self.files@[i] == old_files[i]);
                        } else {
                            assert(self.files@[i] == old_files[i + 1]);
                        }
                    }
                }
            },
            None => {
                proof {
                    lemma_entry_map_dom(old_files, k);
                    assert(entry_map(old_files).remove(k) =~= entry_map(old_files));
                }
            },
        }
        let ghost kept = self.files@;
        proof {
            assert(entry_map(kept) == entry_map(old_files).remove(k));
            assert(unique_indices(kept));
        }
        self.files.push(checkpoint);
        proof {
            assert(self.files@.drop_last() =~= kept);
            assert(entry_map(self.files@) =~= entry_map(old_files).insert(k, checkpoint));
        }
        self.completed_files = self.count_completed_files();
    }

    /// Whether the file at `file_index` has a record marked completed.
    pub fn is_file_completed(&self, file_index: usize) -> (r: bool)
        requires
            self.wf(),
        ensures
            r == (self.progress().contains_key(file_index) && self.progress()[file_index].completed),
    {
        match self.position_of(file_index) {
            Some(p) => {
                proof {
                    lemma_entry_map_at(self.files@, p as int);
                }
                self.files[p].completed
            },
            None => {
                proof {
                    lemma_entry_map_dom(self.files@, file_index);
                }
                false
            },
        }
    }

    /// The stored record for `file_index`, if any.
    pub fn file_result(&self, file_index: usize) -> (r: Option<&FileCheckpoint>)
        requires
            self.wf(),
        ensures
            r is Some <==> self.progress().contains_key(file_index),
            r is Some ==> *r.unwrap() == self.progress()[file_index],
    {
        match self.position_of(file_index) {
            Some(p) => {
                proof {
                    lemma_entry_map_at(self.files@, p as int);
                }
                Some(&self.files[p])
            },
            None => {
                proof {
                    lemma_entry_map_dom(self.files@, file_index);
                }
                None
            },
        }
    }
}

/// With unique indices, each record is what the map holds for its index.
pub proof fn lemma_entry_map_at(files: Seq<FileCheckpoint>, p: int)
    requires
        unique_indices(files),
        0 <= p < files.len(),
    ensures
        entry_map(files).contains_key(files[p].file_index),
        entry_map(files)[files[p].file_index] == files[p],
    decreases files.len(),
{
    let t = files.drop_last();
    if p < files.len() - 1 {
        lemma_entry_map_at(t, p);
        assert(files.last().file_index != files[p].file_index);
    }
}


/// Recording a completed result for a file, then asking about that file,
/// reports it completed with exactly the recorded values, whatever the
/// ledger held before; records of other files are untouched.
pub proof fn lemma_recorded_result_is_kept(
    before: Map<usize, FileCheckpoint>,
    checkpoint: FileCheckpoint,
    other: usize,
)
    requires
        checkpoint.completed,
    ensures
        ({
            let after = before.insert(checkpoint.file_index, checkpoint);
            &&& after.contains_key(checkpoint.file_index)
            &&& after[checkpoint.file_index].completed
            &&& after[checkpoint.file_index] == checkpoint
            &&& other != checkpoint.file_index ==> (after.contains_key(other) == before.contains_key(
                other,
            ) && (before.contains_key(other) ==> after[other] == before[other]))
        }),
{
}

} // verus!
