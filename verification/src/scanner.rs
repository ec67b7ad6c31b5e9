use vstd::prelude::*;

use crate::checkpoint::FileOutcome;
use crate::pattern::Matcher;
use crate::pattern::line_matches;
use crate::pattern::search_line;

verus! {

/// Flush threshold: once this many matched lines are buffered across all
/// groups, the batch is handed to the output sinks and cleared.
pub const BATCH_LIMIT: usize = 1000;

/// The matching lines of `lines`, in file order, for one group's patterns.
pub open spec fn matched_of(lines: Seq<Seq<char>>, pats: Seq<Seq<char>>) -> Seq<Seq<char>> {
    lines.filter(|l: Seq<char>| line_matches(pats, l))
}

/// The patterns of each matcher, by group index.
pub open spec fn patterns_of(matchers: Seq<Matcher>) -> Seq<Seq<Seq<char>>> {
    Seq::new(matchers.len(), |g: int| matchers[g].patterns())
}

/// Total number of lines buffered across all groups.
pub open spec fn total_buffered(bs: Seq<Seq<Seq<char>>>) -> nat
    decreases bs.len(),
{
    if bs.len() == 0 {
        0
    } else {
        total_buffered(bs.drop_last()) + bs.last().len()
    }
}

proof fn lemma_total_buffered_update(bs: Seq<Seq<Seq<char>>>, g: int, v: Seq<Seq<char>>)
    requires
        0 <= g < bs.len(),
    ensures
        total_buffered(bs.update(g, v)) + bs[g].len() == total_buffered(bs) + v.len(),
    decreases bs.len(),
{
    if g == bs.len() - 1 {
        assert(bs.update(g, v).drop_last() =~= bs.drop_last());
        assert(bs.update(g, v).last() == v);
    } else {
        assert(bs.update(g, v).drop_last() =~= bs.drop_last().update(g, v));
        lemma_total_buffered_update(bs.drop_last(), g, v);
        assert(bs.update(g, v).last() == bs.last());
    }
}

proof fn lemma_total_buffered_all_empty(bs: Seq<Seq<Seq<char>>>)
    requires
        forall|g: int| 0 <= g < bs.len() ==> bs[g].len() == 0,
    ensures
        total_buffered(bs) == 0,
    decreases bs.len(),
{
    if bs.len() > 0 {
        lemma_total_buffered_all_empty(bs.drop_last());
    }
}

/// The in-memory state of scanning one input file: one bounded buffer of
/// matched lines per query group, plus the running line count. The ghost
/// state records the lines processed so far, the lines already handed to the
/// sinks per group, and the patterns each group was built from.
pub struct FileScan {
    batches: Vec<Vec<String>>,
    match_count: usize,
    line_count: u64,
    lines: Ghost<Seq<Seq<char>>>,
    flushed: Ghost<Seq<Seq<Seq<char>>>>,
    pats: Ghost<Seq<Seq<Seq<char>>>>,
}

impl FileScan {
    /// The patterns of each group, by group index.
    pub closed spec fn group_patterns(self) -> Seq<Seq<Seq<char>>> {
        self.pats@
    }

    /// Every line processed so far, in file order.
    pub closed spec fn processed(self) -> Seq<Seq<char>> {
        self.lines@
    }

    /// Per group, the matched lines already handed to the sinks, in file
    /// order.
    pub closed spec fn delivered(self) -> Seq<Seq<Seq<char>>> {
        self.flushed@
    }

    /// Per group, the matched lines still buffered, in file order.
    pub closed spec fn buffered(self) -> Seq<Seq<Seq<char>>> {
        self.batches.deep_view()
    }

    /// Total number of lines buffered across all groups.
    pub open spec fn buffered_total(self) -> nat {
        total_buffered(self.buffered())
    }

    /// Well-formedness: per group, the lines handed out followed by the
    /// lines still buffered are exactly the matching lines seen so far, in
    /// file order; the counters agree with the model.
    pub closed spec fn wf(self) -> bool {
        &&& self.buffered().len() == self.group_patterns().len()
        &&& self.delivered().len() == self.group_patterns().len()
        &&& self.buffered().len() <= usize::MAX - BATCH_LIMIT
        &&& self.line_count == self.processed().len()
        &&& self.match_count == self.buffered_total()
        &&& forall|g: int|
            0 <= g < self.group_patterns().len() ==> self.delivered()[g] + self.buffered()[g]
                == matched_of(self.processed(), self.group_patterns()[g])
    }

    /// Fresh state for one file: nothing processed, nothing buffered,
    /// nothing delivered; one empty batch per group.
    pub fn new(matchers: &Vec<Matcher>) -> (r: FileScan)
        requires
            matchers.len() <= usize::MAX - BATCH_LIMIT,
        ensures
            r.wf(),
            r.group_patterns() == patterns_of(matchers@),
            r.processed() == Seq::<Seq<char>>::empty(),
            forall|g: int|
                0 <= g < matchers.len() ==> r.delivered()[g] == Seq::<Seq<char>>::empty(),
            forall|g: int| 0 <= g < matchers.len() ==> r.buffered()[g] == Seq::<Seq<char>>::empty(),
            r.buffered_total() == 0,
    {
        let n = matchers.len();
        let mut batches: Vec<Vec<String>> = Vec::new();
        let mut i: usize = 0;
        while i < n
            invariant
                i <= n,
                batches@.len() == i,
                forall|g: int| 0 <= g < i ==> batches@[g]@ == Seq::<String>::empty(),
            decreases n - i,
        {
            batches.push(Vec::new());
            i += 1;
        }
        let r = FileScan {
            batches,
            match_count: 0,
            line_count: 0,
            lines: Ghost(Seq::empty()),
            flushed: Ghost(Seq::new(n as nat, |g: int| Seq::empty())),
            pats: Ghost(patterns_of(matchers@)),
        };
        proof {
            reveal(Seq::filter);
            lemma_total_buffered_all_empty(r.buffered());
            assert forall|g: int| 0 <= g < n implies r.buffered()[g] == Seq::<Seq<char>>::empty() by {
                assert(r.buffered()[g] =~= Seq::<Seq<char>>::empty());
            }
        }
        r
    }

    /// Number of query groups this scan routes lines to.
    pub fn num_groups(&self) -> (r: usize)
        ensures
            r == self.buffered().len(),
    {
        self.batches.len()
    }

    /// The running count of lines read, matched or not.
    pub fn lines_read(&self) -> (r: u64)
        requires
            self.wf(),
        ensures
            r == self.processed().len(),
    {
        self.line_count
    }

    /// True once the aggregate buffered matches have reached the flush
    /// threshold and the batch must be handed to the sinks.
    pub fn needs_flush(&self) -> (r: bool)
        requires
            self.wf(),
        ensures
            r == (self.buffered_total() >= BATCH_LIMIT),
    {
        self.match_count >= BATCH_LIMIT
    }

    /// Classify one line: it is appended to the batch of every group whose
    /// patterns it contains, and counted whether or not it matched.
    pub fn process_line(&mut self, matchers: &Vec<Matcher>, line: &String)
        requires
            old(self).wf(),
            matchers@.len() == old(self).group_patterns().len(),
            forall|g: int|
                0 <= g < matchers@.len() ==> (#[trigger] matchers@[g].patterns()) == old(
                    self,
                ).group_patterns()[g],
            old(self).buffered_total() < BATCH_LIMIT,
            old(self).processed().len() < u64::MAX,
        ensures
            final(self).wf(),
            final(self).group_patterns() == old(self).group_patterns(),
            final(self).delivered() == old(self).delivered(),
            final(self).processed() == old(self).processed().push(line@),
            forall|g: int|
                0 <= g < final(self).group_patterns().len() ==> final(self).buffered()[g] == old(
                    self,
                ).buffered()[g] + (if line_matches(final(self).group_patterns()[g], line@) {
                    seq![line@]
                } else {
                    Seq::<Seq<char>>::empty()
                }),
    {
        let ghost pre = *self;
        let n = matchers.len();
        let mut flags: Vec<bool> = Vec::new();
        let mut i: usize = 0;
        while i < n
            invariant
                i <= n,
                flags@.len() == i,
            decreases n - i,
        {
            flags.push(false);
            i += 1;
        }
        search_line(line.as_str(), matchers, &mut flags);
        let mut g: usize = 0;
        while g < n
            invariant
                n == matchers.len(),
                g <= n,
                flags@.len() == n,
                pre.wf(),
                n == pre.group_patterns().len(),
                pre.buffered_total() < BATCH_LIMIT,
                forall|k: int|
                    0 <= k < n ==> flags@[k] == line_matches(pre.group_patterns()[k], line@),
                self.pats == pre.pats,
                self.flushed == pre.flushed,
                self.lines == pre.lines,
                self.line_count == pre.line_count,
                self.batches@.len() == n,
                forall|k: int|
                    g <= k < n ==> #[trigger] self.buffered()[k] == pre.buffered()[k],
                forall|k: int|
                    0 <= k < g ==> #[trigger] self.buffered()[k] == pre.buffered()[k] + (
                    if line_matches(pre.group_patterns()[k], line@) {
                        seq![line@]
                    } else {
                        Seq::<Seq<char>>::empty()
                    }),
                self.match_count == total_buffered(self.buffered()),
                self.match_count <= pre.buffered_total() + g,
            decreases n - g,
        {
            let ghost mid = *self;
            if flags[g] {
                self.batches[g].push(line.clone());
                proof {
                    let lv = line@;
                    assert(self.batches@[g as int]@ == mid.batches@[g as int]@.push(*line));
                    assert forall|k: int| 0 <= k < self.batches@.len() implies #[trigger] self
                        .buffered()[k] == mid.buffered().update(
                        g as int,
                        mid.buffered()[g as int].push(lv),
                    )[k] by {
                        if k == g {
                            assert(self.buffered()[k] =~= mid.buffered()[k].push(lv));
                        } else {
                            assert(self.batches@[k] == mid.batches@[k]);
                        }
                    }
                    assert(self.buffered() =~= mid.buffered().update(
                        g as int,
                        mid.buffered()[g as int].push(lv),
                    ));
                    lemma_total_buffered_update(
                        mid.buffered(),
                        g as int,
                        mid.buffered()[g as int].push(lv),
                    );
                    assert(self.buffered()[g as int] =~= mid.buffered()[g as int] + seq![lv]);
                }
                self.match_count = self.match_count + 1;
            }
            g += 1;
        }
        self.line_count = self.line_count + 1;
        proof {
            self.lines@ = pre.lines@.push(line@);
        }
        proof {
            assert forall|k: int|
                0 <= k < self.group_patterns().len() implies self.delivered()[k]
                + self.buffered()[k] == matched_of(self.processed(), self.group_patterns()[k]) by {
                let pats = pre.group_patterns()[k];
                let pred = |l: Seq<char>| line_matches(pats, l);
                pre.lines@.lemma_filter_push(line@, pred);
                if line_matches(pats, line@) {
                    assert(self.buffered()[k] == pre.buffered()[k] + seq![line@]);
                    assert(matched_of(self.processed(), pats) == matched_of(pre.processed(), pats)
                        .push(line@));
                    assert(pre.delivered()[k] + (pre.buffered()[k] + seq![line@]) =~= (
                    pre.delivered()[k] + pre.buffered()[k]).push(line@));
                } else {
                    assert(pre.buffered()[k] + Seq::<Seq<char>>::empty() =~= pre.buffered()[k]);
                }
            }
        }
    }

    /// Hand over everything buffered, one sequence of lines per group, in
    /// file order, and clear the buffers. The caller appends each group's
    /// lines to that group's sink.
    pub fn take_batches(&mut self) -> (r: Vec<Vec<String>>)
        requires
            old(self).wf(),
        ensures
            final(self).wf(),
            r.deep_view() == old(self).buffered(),
            final(self).group_patterns() == old(self).group_patterns(),
            final(self).processed() == old(self).processed(),
            final(self).buffered_total() == 0,
            forall|g: int|
                0 <= g < final(self).group_patterns().len() ==> final(self).delivered()[g] == old(
                    self,
                ).delivered()[g] + old(self).buffered()[g],
    {
        let ghost pre = *self;
        let n = self.batches.len();
        let mut fresh: Vec<Vec<String>> = Vec::new();
        let mut i: usize = 0;
        while i < n
            invariant
                i <= n,
                fresh@.len() == i,
                forall|g: int| 0 <= g < i ==> fresh@[g]@ == Seq::<String>::empty(),
            decreases n - i,
        {
            fresh.push(Vec::new());
            i += 1;
        }
        core::mem::swap(&mut self.batches, &mut fresh);
        self.match_count = 0;
        proof {
            self.flushed@ = Seq::new(
                pre.group_patterns().len(),
                |g: int| pre.delivered()[g] + pre.buffered()[g],
            );
        }
        proof {
            assert forall|g: int| 0 <= g < n implies self.buffered()[g]
                == Seq::<Seq<char>>::empty() by {
                assert(self.buffered()[g] =~= Seq::<Seq<char>>::empty());
            }
            lemma_total_buffered_all_empty(self.buffered());
            assert forall|g: int|
                0 <= g < self.group_patterns().len() implies self.delivered()[g]
                + self.buffered()[g] == matched_of(self.processed(), self.group_patterns()[g]) by {
                assert(self.delivered()[g] + self.buffered()[g] =~= pre.delivered()[g]
                    + pre.buffered()[g]);
            }
        }
        fresh
    }

    /// The report for a file read to its natural end with every batch
    /// flushed: it carries the file's identity and line count and is marked
    /// completed, so the merge records it.
    pub fn into_outcome(self, file: String) -> (r: FileOutcome)
        requires
            self.wf(),
            self.buffered_total() == 0,
        ensures
            r@.file == file@,
            r@.lines_read == self.processed().len(),
            r@.completed,
    {
        FileOutcome { file, lines_read: self.line_count, completed: true }
    }
}

/// The report for a file whose scan was cut short by a read or write
/// failure: marked not completed, so the merge discards it and the next run
/// retries the file in full.
pub fn failed_outcome(file: String) -> (r: FileOutcome)
    ensures
        r@.file == file@,
        r@.lines_read == 0,
        !r@.completed,
{
    FileOutcome { file, lines_read: 0, completed: false }
}

/// Line-order preservation: for any single file and group, the matched lines
/// handed to the group's sink, followed by the ones still buffered, are
/// exactly the group's matching lines of that file in the order they were
/// read.
pub proof fn lemma_line_order(s: FileScan, g: int)
    requires
        s.wf(),
        0 <= g < s.group_patterns().len(),
    ensures
        s.delivered()[g] + s.buffered()[g] == matched_of(s.processed(), s.group_patterns()[g]),
{
}

} // verus!
