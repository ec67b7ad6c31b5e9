use vstd::prelude::*;

verus! {

/// Saturating addition on 64-bit counters: the cumulative line counter only
/// grows and never wraps.
pub open spec fn sat_add_u64(a: u64, b: u64) -> u64 {
    if a + b > u64::MAX {
        u64::MAX
    } else {
        (a + b) as u64
    }
}

/// Add to a 64-bit counter without wrapping.
fn checked_total(a: u64, b: u64) -> (r: u64)
    ensures
        r == sat_add_u64(a, b),
{
    if a <= u64::MAX - b {
        a + b
    } else {
        u64::MAX
    }
}

// ---------------------------------------------------------------------------
// The durable progress record and the per-file outcome it is merged from.
// ---------------------------------------------------------------------------

/// Durable record of scanning progress: the input files fully processed so
/// far and the cumulative count of lines read from them. It is loaded once at
/// start, used read-only to decide which files to skip, and replaced by a
/// merged successor at the end of a run.
pub struct Management {
    /// Identities (canonical paths) of the files completely processed.
    pub c_files: Vec<String>,
    /// Cumulative number of lines read from the completed files.
    pub c_lines: u64,
}

/// Mathematical model of a `Management` record.
pub ghost struct ManagementModel {
    pub files: Seq<Seq<char>>,
    pub lines: u64,
}

impl View for Management {
    type V = ManagementModel;

    open spec fn view(&self) -> ManagementModel {
        ManagementModel { files: self.c_files.deep_view(), lines: self.c_lines }
    }
}

impl ManagementModel {
    /// A file identity appears at most once in the record.
    pub open spec fn wf(self) -> bool {
        forall|i: int, j: int|
            0 <= i < j < self.files.len() ==> self.files[i] != self.files[j]
    }
}

/// What one worker reports for one input file: the file's identity, how many
/// lines it read, and whether the file was read to its natural end with every
/// batch of matches flushed.
pub struct FileOutcome {
    pub file: String,
    pub lines_read: u64,
    pub completed: bool,
}

/// Mathematical model of a `FileOutcome`.
pub ghost struct OutcomeModel {
    pub file: Seq<char>,
    pub lines_read: u64,
    pub completed: bool,
}

impl View for FileOutcome {
    type V = OutcomeModel;

    open spec fn view(&self) -> OutcomeModel {
        OutcomeModel { file: self.file@, lines_read: self.lines_read, completed: self.completed }
    }
}

impl DeepView for FileOutcome {
    type V = OutcomeModel;

    open spec fn deep_view(&self) -> OutcomeModel {
        self.view()
    }
}

// ---------------------------------------------------------------------------
// The merge protocol, modelled first, then implemented against the model.
// ---------------------------------------------------------------------------

/// Merge one run's per-file outcomes into a base record: every completed
/// outcome adds its file identity (if not already present) and its line
/// count; an outcome with `completed == false` contributes nothing at all.
pub open spec fn spec_merge(base: ManagementModel, parts: Seq<OutcomeModel>) -> ManagementModel
    decreases parts.len(),
{
    if parts.len() == 0 {
        base
    } else {
        let m = spec_merge(base, parts.drop_last());
        let p = parts.last();
        if p.completed {
            ManagementModel {
                files: if m.files.contains(p.file) {
                    m.files
                } else {
                    m.files.push(p.file)
                },
                lines: sat_add_u64(m.lines, p.lines_read),
            }
        } else {
            m
        }
    }
}

impl Management {
    /// The empty record: no file completed, no line counted. This is what a
    /// run starts from when no checkpoint exists yet.
    pub fn empty() -> (r: Management)
        ensures
            r@.files == Seq::<Seq<char>>::empty(),
            r@.lines == 0,
            r@.wf(),
    {
        let r = Management { c_files: Vec::new(), c_lines: 0 };
        proof {
            assert(r@.files =~= Seq::<Seq<char>>::empty());
        }
        r
    }

    /// Membership test against the completed files: the skip decision of a
    /// re-run. True iff `file` was recorded as fully processed.
    pub fn is_done(&self, file: &String) -> (r: bool)
        ensures
            r == self@.files.contains(file@),
    {
        contains_file(&self.c_files, file)
    }

    /// Merge a run's outcomes into this record, yielding the successor
    /// record that is persisted at the end of the run.
    pub fn merge(&self, parts: &Vec<FileOutcome>) -> (r: Management)
        ensures
            r@ == spec_merge(self@, parts.deep_view()),
    {
        let mut files: Vec<String> = Vec::new();
        let mut i: usize = 0;
        let n = self.c_files.len();
        while i < n
            invariant
                n == self.c_files.len(),
                i <= n,
                files@.len() == i,
                forall|k: int| 0 <= k < i ==> files@[k] == self.c_files@[k],
            decreases n - i,
        {
            files.push(self.c_files[i].clone());
            i += 1;
        }
        proof {
            assert(files@ =~= self.c_files@);
        }
        let mut merged = Management { c_files: files, c_lines: self.c_lines };
        let k = parts.len();
        let mut j: usize = 0;
        while j < k
            invariant
                k == parts.len(),
                j <= k,
                merged@ == spec_merge(self@, parts.deep_view().take(j as int)),
            decreases k - j,
        {
            let ghost prefix = parts.deep_view().take(j as int);
            let ghost before = merged.c_files.deep_view();
            let p = &parts[j];
            if p.completed {
                if !contains_file(&merged.c_files, &p.file) {
                    merged.c_files.push(p.file.clone());
                    proof {
                        assert(merged.c_files.deep_view() =~= before.push(p.file@));
                    }
                }
                merged.c_lines = checked_total(merged.c_lines, p.lines_read);
            }
            proof {
                let next = parts.deep_view().take(j + 1);
                assert(next.drop_last() =~= prefix);
                assert(next.last() == parts.deep_view()[j as int]);
                assert(merged@ == spec_merge(self@, next));
            }
            j += 1;
        }
        proof {
            assert(parts.deep_view().take(k as int) =~= parts.deep_view());
        }
        merged
    }
}

impl Default for Management {
    /// Same as `Management::empty`: the record a run starts from when no
    /// checkpoint exists yet.
    fn default() -> (r: Management)
        ensures
            r@.files == Seq::<Seq<char>>::empty(),
            r@.lines == 0,
            r@.wf(),
    {
        Management::empty()
    }
}

/// Linear membership scan over a list of file identities.
fn contains_file(files: &Vec<String>, file: &String) -> (r: bool)
    ensures
        r == files.deep_view().contains(file@),
{
    let n = files.len();
    let mut i: usize = 0;
    while i < n
        invariant
            n == files.len(),
            i <= n,
            forall|k: int| 0 <= k < i ==> files@[k]@ != file@,
        decreases n - i,
    {
        if files[i] == *file {
            proof {
                assert(files.deep_view()[i as int] == file@);
            }
            return true;
        }
        i += 1;
    }
    proof {
        assert forall|k: int| 0 <= k < files.deep_view().len() implies files.deep_view()[k]
            != file@ by {
            assert(files@[k]@ != file@);
        }
    }
    false
}

// ---------------------------------------------------------------------------
// Laws of the merge protocol.
// ---------------------------------------------------------------------------

/// The merged record only appends to the base record's file list: the base
/// list is a prefix of the merged one, and the line counter never shrinks.
pub proof fn lemma_merge_extends(base: ManagementModel, parts: Seq<OutcomeModel>)
    ensures
        spec_merge(base, parts).files.len() >= base.files.len(),
        spec_merge(base, parts).files.take(base.files.len() as int) =~= base.files,
        spec_merge(base, parts).lines >= base.lines,
    decreases parts.len(),
{
    if parts.len() > 0 {
        lemma_merge_extends(base, parts.drop_last());
    }
}

/// The merge preserves the record's invariant: if a file identity appears at
/// most once in the base record, it appears at most once after the merge.
pub proof fn lemma_merge_keeps_files_unique(base: ManagementModel, parts: Seq<OutcomeModel>)
    requires
        base.wf(),
    ensures
        spec_merge(base, parts).wf(),
    decreases parts.len(),
{
    if parts.len() > 0 {
        lemma_merge_keeps_files_unique(base, parts.drop_last());
        let m = spec_merge(base, parts.drop_last());
        let p = parts.last();
        if p.completed && !m.files.contains(p.file) {
            let r = spec_merge(base, parts);
            assert forall|i: int, j: int| 0 <= i < j < r.files.len() implies r.files[i]
                != r.files[j] by {
                if j == r.files.len() - 1 {
                    assert(r.files[i] == m.files[i]);
                    assert(!m.files.contains(p.file));
                }
            }
        }
    }
}

/// Checkpoint merge monotonicity: merging never loses a completed file and
/// never lowers the cumulative line count.
pub proof fn lemma_merge_monotonic(base: ManagementModel, parts: Seq<OutcomeModel>)
    ensures
        forall|f: Seq<char>|
            base.files.contains(f) ==> #[trigger] spec_merge(base, parts).files.contains(f),
        spec_merge(base, parts).lines >= base.lines,
    decreases parts.len(),
{
    if parts.len() > 0 {
        lemma_merge_monotonic(base, parts.drop_last());
        let m = spec_merge(base, parts.drop_last());
        let r = spec_merge(base, parts);
        assert forall|f: Seq<char>| base.files.contains(f) implies #[trigger] r.files.contains(
            f,
        ) by {
            assert(m.files.contains(f));
            let w = choose|w: int| 0 <= w < m.files.len() && m.files[w] == f;
            if r.files.len() > m.files.len() {
                assert(r.files[w] == f);
            }
        }
    }
}

/// Partial-failure exclusion: a file whose every outcome in this run has
/// `completed == false` is absent from the merged record unless the base
/// record already held it — an interrupted file stays eligible for retry.
pub proof fn lemma_merge_excludes_incomplete(
    base: ManagementModel,
    parts: Seq<OutcomeModel>,
    f: Seq<char>,
)
    requires
        !base.files.contains(f),
        forall|i: int| 0 <= i < parts.len() && parts[i].file == f ==> !parts[i].completed,
    ensures
        !spec_merge(base, parts).files.contains(f),
    decreases parts.len(),
{
    if parts.len() > 0 {
        assert forall|i: int|
            0 <= i < parts.drop_last().len() && parts.drop_last()[i].file
                == f implies !parts.drop_last()[i].completed by {
            assert(parts[i] == parts.drop_last()[i]);
        }
        lemma_merge_excludes_incomplete(base, parts.drop_last(), f);
        let m = spec_merge(base, parts.drop_last());
        let r = spec_merge(base, parts);
        let p = parts.last();
        if p.completed && !m.files.contains(p.file) {
            assert(p.file != f);
            if r.files.contains(f) {
                let w = choose|w: int| 0 <= w < r.files.len() && r.files[w] == f;
                if w < m.files.len() {
                    assert(m.files.contains(f));
                } else {
                    assert(r.files[w] == p.file);
                }
            }
        }
    }
}

/// Idempotence of the skip decision: a file already recorded as completed is
/// skipped by a re-run, so no outcome mentions it; the merged record then
/// still holds the file, and every entry the merge appends is some other
/// file — the re-run adds nothing for it.
pub proof fn lemma_skip_idempotent(base: ManagementModel, parts: Seq<OutcomeModel>, f: Seq<char>)
    requires
        base.files.contains(f),
        forall|i: int| 0 <= i < parts.len() ==> parts[i].file != f,
    ensures
        spec_merge(base, parts).files.contains(f),
        forall|w: int|
            base.files.len() <= w < spec_merge(base, parts).files.len() ==> #[trigger] spec_merge(
                base,
                parts,
            ).files[w] != f,
    decreases parts.len(),
{
    lemma_merge_monotonic(base, parts);
    if parts.len() > 0 {
        assert forall|i: int|
            0 <= i < parts.drop_last().len() implies parts.drop_last()[i].file != f by {
            assert(parts[i] == parts.drop_last()[i]);
        }
        lemma_skip_idempotent(base, parts.drop_last(), f);
        let m = spec_merge(base, parts.drop_last());
        let r = spec_merge(base, parts);
        let p = parts.last();
        if p.completed && !m.files.contains(p.file) {
            assert(parts[parts.len() - 1].file != f);
            assert forall|w: int|
                base.files.len() <= w < r.files.len() implies #[trigger] r.files[w] != f by {
                if w < m.files.len() {
                    assert(m.files[w] != f);
                } else {
                    assert(r.files[w] == p.file);
                }
            }
        }
    }
}

} // verus!
