//! The page scheduler: which block ranges a run processes, and in what
//! order it loads, processes and commits.
//!
//! A run covers the blocks from where the last checkpoint ended (or from
//! the pool's deployment) up to, but not including, the target block. It
//! does so page by page: a page is a half-open range of at most
//! `page_size` blocks, and the last page is cut off at the target. After
//! each page the whole state is committed with the page's end, so a later
//! run takes up exactly where this one stopped.

use vstd::prelude::*;

verus! {

/// A half-open range of blocks: `start` is in it, `end` is not.
#[derive(Clone, Copy, Debug, PartialEq, Eq, Structural)]
pub struct Page {
    pub start: u64,
    pub end: u64,
}

/// Where a run stands.
#[derive(Clone, Copy, Debug, PartialEq, Eq, Structural)]
pub enum Phase {
    /// The last checkpoint is being looked for.
    Resuming,
    /// The events of the page are being recorded.
    ProcessingPage(Page),
    /// The state is being committed with the end of the page.
    Checkpointing(Page),
    /// Every block before the target has been processed and committed.
    Done,
    /// The run was given up; the page in flight was not committed.
    Aborted,
}

/// What has happened outside the scheduler.
#[derive(Clone, Copy, Debug, PartialEq, Eq, Structural)]
pub enum SchedulerEvent {
    /// The run takes up at this block: the end of the last checkpoint, or
    /// the deployment block where there is none.
    Resumed(u64),
    /// Every event of the page has been recorded.
    PageProcessed,
    /// Fetching or recording the events of the page has failed.
    PageFailed,
    /// The checkpoint has been written.
    CheckpointWritten,
    /// The checkpoint could not be written.
    CheckpointFailed,
}

/// What is to be done outside the scheduler.
#[derive(Clone, Copy, Debug, PartialEq, Eq, Structural)]
pub enum SchedulerAction {
    /// Read the last checkpoint, if there is one.
    LoadCheckpoint,
    /// Fetch and record the events of these blocks, both ends included.
    ProcessPage { from_block: u64, to_block: u64 },
    /// Write the whole state as a checkpoint that ends at this block.
    WriteCheckpoint { end_block: u64 },
    /// Stop: the run is complete.
    Finish,
    /// Stop: the run has failed.
    Abort,
}

/// Why there is no scheduler for a configuration.
#[derive(Clone, Copy, Debug, PartialEq, Eq, Structural)]
pub enum SchedulerError {
    /// Pages of no blocks never reach the target.
    ZeroPageSize,
}

/// The scheduler of one run.
#[derive(Clone, Copy, Debug, PartialEq, Eq, Structural)]
pub struct PageScheduler {
    pub target_block: u64,
    pub page_size: u64,
    pub phase: Phase,
}

/// The page that begins at `start`, for `start` before `target`.
pub open spec fn page_at(start: int, target: int, page_size: int) -> (int, int) {
    (
        start,
        if start + page_size < target {
            start + page_size
        } else {
            target
        },
    )
}

/// The pages of a run from `start` to `target`, in order.
pub open spec fn pages(start: int, target: int, page_size: int) -> Seq<(int, int)>
    decreases target - start,
{
    if start >= target || page_size <= 0 {
        Seq::empty()
    } else {
        seq![page_at(start, target, page_size)] + pages(
            page_at(start, target, page_size).1,
            target,
            page_size,
        )
    }
}

/// The phase that begins at block `start`: the next page, or the end of the
/// run.
pub open spec fn phase_at(start: u64, target: u64, page_size: u64) -> Phase {
    if start >= target {
        Phase::Done
    } else {
        Phase::ProcessingPage(
            Page { start, end: page_at(start as int, target as int, page_size as int).1 as u64 },
        )
    }
}

impl PageScheduler {
    /// What holds of every scheduler: its pages have blocks, and a page in
    /// flight is the page that begins at its first block.
    pub open spec fn wf(self) -> bool {
        &&& self.page_size > 0
        &&& match self.phase {
            Phase::ProcessingPage(p) | Phase::Checkpointing(p) => p.start < self.target_block
                && p.end == page_at(
                p.start as int,
                self.target_block as int,
                self.page_size as int,
            ).1,
            _ => true,
        }
    }

    /// The pages that are still to be committed, in order.
    pub open spec fn plan(self) -> Seq<(int, int)> {
        match self.phase {
            Phase::ProcessingPage(p) | Phase::Checkpointing(p) => pages(
                p.start as int,
                self.target_block as int,
                self.page_size as int,
            ),
            _ => Seq::empty(),
        }
    }

    /// What is to be done in the phase at hand.
    pub open spec fn next(self) -> SchedulerAction {
        match self.phase {
            Phase::Resuming => SchedulerAction::LoadCheckpoint,
            Phase::ProcessingPage(p) => SchedulerAction::ProcessPage {
                from_block: p.start,
                to_block: (p.end - 1) as u64,
            },
            Phase::Checkpointing(p) => SchedulerAction::WriteCheckpoint { end_block: p.end },
            Phase::Done => SchedulerAction::Finish,
            Phase::Aborted => SchedulerAction::Abort,
        }
    }

    /// The phase that follows on `event`. An event that does not belong to
    /// the phase at hand changes nothing.
    pub open spec fn after(self, event: SchedulerEvent) -> Phase {
        match (self.phase, event) {
            (Phase::Resuming, SchedulerEvent::Resumed(start)) => phase_at(
                start,
                self.target_block,
                self.page_size,
            ),
            (Phase::ProcessingPage(p), SchedulerEvent::PageProcessed) => Phase::Checkpointing(p),
            (Phase::ProcessingPage(_), SchedulerEvent::PageFailed) => Phase::Aborted,
            (Phase::Checkpointing(p), SchedulerEvent::CheckpointWritten) => phase_at(
                p.end,
                self.target_block,
                self.page_size,
            ),
            (Phase::Checkpointing(_), SchedulerEvent::CheckpointFailed) => Phase::Aborted,
            (phase, _) => phase,
        }
    }

    /// A scheduler for a run up to `target_block`, exclusive, in pages of
    /// `page_size` blocks. It begins by resuming.
    pub fn new(target_block: u64, page_size: u64) -> (r: Result<PageScheduler, SchedulerError>)
        ensures
            r == if page_size == 0 {
                Err::<PageScheduler, SchedulerError>(SchedulerError::ZeroPageSize)
            } else {
                Ok::<PageScheduler, SchedulerError>(
                    PageScheduler { target_block, page_size, phase: Phase::Resuming },
                )
            },
            r matches Ok(s) ==> s.wf(),
    {
        if page_size == 0 {
            Err(SchedulerError::ZeroPageSize)
        } else {
            Ok(PageScheduler { target_block, page_size, phase: Phase::Resuming })
        }
    }

    /// What is to be done now.
    pub fn action(&self) -> (a: SchedulerAction)
        requires
            self.wf(),
        ensures
            a == self.next(),
    {
        match self.phase {
            Phase::Resuming => SchedulerAction::LoadCheckpoint,
            Phase::ProcessingPage(p) => SchedulerAction::ProcessPage {
                from_block: p.start,
                to_block: p.end - 1,
            },
            Phase::Checkpointing(p) => SchedulerAction::WriteCheckpoint { end_block: p.end },
            Phase::Done => SchedulerAction::Finish,
            Phase::Aborted => SchedulerAction::Abort,
        }
    }

    /// The phase that begins at block `start`.
    fn begin_at(&self, start: u64) -> (phase: Phase)
        ensures
            phase == phase_at(start, self.target_block, self.page_size),
    {
        if start >= self.target_block {
            Phase::Done
        } else if self.page_size >= self.target_block - start {
            Phase::ProcessingPage(Page { start, end: self.target_block })
        } else {
            Phase::ProcessingPage(Page { start, end: start + self.page_size })
        }
    }

    /// Takes note of what has happened and moves to the phase that
    /// follows: from resuming to the first page; from a processed page to
    /// its checkpoint; from a written checkpoint to the page that begins
    /// where the last one ended, or to the end of the run; and from any
    /// failure to the abort, with the page in flight uncommitted.
    pub fn step(&mut self, event: SchedulerEvent)
        requires
            old(self).wf(),
        ensures
            final(self).wf(),
            final(self).target_block == old(self).target_block,
            final(self).page_size == old(self).page_size,
            final(self).phase == old(self).after(event),
            old(self).phase is Checkpointing && event is CheckpointWritten ==> final(self).plan()
                == old(self).plan().drop_first(),
            old(self).phase is ProcessingPage && event is PageProcessed ==> final(self).plan()
                == old(self).plan(),
    {
        let phase = match (self.phase, event) {
            (Phase::Resuming, SchedulerEvent::Resumed(start)) => self.begin_at(start),
            (Phase::ProcessingPage(p), SchedulerEvent::PageProcessed) => Phase::Checkpointing(p),
            (Phase::ProcessingPage(_), SchedulerEvent::PageFailed) => Phase::Aborted,
            (Phase::Checkpointing(p), SchedulerEvent::CheckpointWritten) => self.begin_at(p.end),
            (Phase::Checkpointing(_), SchedulerEvent::CheckpointFailed) => Phase::Aborted,
            (phase, _) => phase,
        };
        proof {
            if let Phase::Checkpointing(p) = self.phase {
                let rest = pages(p.end as int, self.target_block as int, self.page_size as int);
                assert(old(self).plan().drop_first() =~= rest);
            }
        }
        self.phase = phase;
    }
}

/// The page in flight is the first of the pages that are still to be
/// committed, and once the run has resumed at a block, these are the pages
/// of the run from that block.
pub proof fn lemma_plan(s: PageScheduler, resume: u64)
    requires
        s.wf(),
    ensures
        s.phase matches Phase::ProcessingPage(p) ==> s.plan().len() > 0 && s.plan()[0] == (
            p.start as int,
            p.end as int,
        ),
        s.phase matches Phase::Checkpointing(p) ==> s.plan().len() > 0 && s.plan()[0] == (
            p.start as int,
            p.end as int,
        ),
        s.phase is Resuming ==> (PageScheduler {
            phase: s.after(SchedulerEvent::Resumed(resume)),
            ..s
        }).plan() == pages(resume as int, s.target_block as int, s.page_size as int),
{
}

/// The pages of a run tile the blocks from `start` to `target`: each page
/// has at least one and at most `page_size` blocks, the first page begins
/// at `start`, each next page begins where the page before it ends, and
/// the last page ends at `target`.
pub proof fn lemma_pages_tile(start: int, target: int, page_size: int)
    requires
        page_size > 0,
    ensures
        start >= target ==> pages(start, target, page_size).len() == 0,
        start < target ==> pages(start, target, page_size).len() > 0 && pages(
            start,
            target,
            page_size,
        )[0].0 == start && pages(start, target, page_size).last().1 == target,
        forall|i: int|
            0 <= i < pages(start, target, page_size).len() ==> {
                let p = #[trigger] pages(start, target, page_size)[i];
                start <= p.0 < p.1 <= target && p.1 - p.0 <= page_size
            },
        forall|i: int|
            0 <= i < pages(start, target, page_size).len() - 1 ==> (#[trigger] pages(
                start,
                target,
                page_size,
            )[i]).1 == pages(start, target, page_size)[i + 1].0,
    decreases target - start,
{
    if start < target {
        let first = page_at(start, target, page_size);
        let rest = pages(first.1, target, page_size);
        let all = pages(start, target, page_size);
        lemma_pages_tile(first.1, target, page_size);
        assert(all =~= seq![first] + rest);
        assert(all[0] == first);
        if rest.len() > 0 {
            assert(all.last() == rest.last());
        }
        assert forall|i: int| 0 <= i < all.len() implies {
            let p = #[trigger] all[i];
            start <= p.0 < p.1 <= target && p.1 - p.0 <= page_size
        } by {
            if i > 0 {
                assert(all[i] == rest[i - 1]);
            }
        }
        assert forall|i: int| 0 <= i < all.len() - 1 implies (#[trigger] all[i]).1 == all[i + 1].0 by {
            assert(all[i + 1] == rest[i]);
            if i > 0 {
                assert(all[i] == rest[i - 1]);
            }
        }
    }
}

/// Every block from `start` up to `target` lies in exactly one page of the
/// run: the pages leave no gap and do not overlap.
pub proof fn lemma_pages_cover(start: int, target: int, page_size: int, block: int)
    requires
        page_size > 0,
        start <= block < target,
    ensures
        exists|i: int|
            0 <= i < pages(start, target, page_size).len() && (#[trigger] pages(
                start,
                target,
                page_size,
            )[i]).0 <= block < pages(start, target, page_size)[i].1,
        forall|i: int, j: int|
            0 <= i < j < pages(start, target, page_size).len() ==> (#[trigger] pages(
                start,
                target,
                page_size,
            )[i]).1 <= (#[trigger] pages(start, target, page_size)[j]).0,
    decreases target - start,
{
    let first = page_at(start, target, page_size);
    let rest = pages(first.1, target, page_size);
    let all = pages(start, target, page_size);
    assert(all =~= seq![first] + rest);
    lemma_pages_tile(first.1, target, page_size);
    if block < first.1 {
        assert(all[0].0 <= block < all[0].1);
        if first.1 < target {
            lemma_pages_cover(first.1, target, page_size, first.1);
        }
    } else {
        lemma_pages_cover(first.1, target, page_size, block);
        let k = choose|k: int| 0 <= k < rest.len() && (#[trigger] rest[k]).0 <= block < rest[k].1;
        assert(all[k + 1] == rest[k]);
    }
    assert forall|i: int, j: int| 0 <= i < j < all.len() implies (#[trigger] all[i]).1 <= (
    #[trigger] all[j]).0 by {
        assert(all[j] == rest[j - 1]);
        if i > 0 {
            assert(all[i] == rest[i - 1]);
        }
    }
}

/// A run that stops after any of its pages and is taken up again at that
/// page's end goes through the very pages that were left.
pub proof fn lemma_resume(start: int, target: int, page_size: int, k: int)
    requires
        page_size > 0,
        0 <= k < pages(start, target, page_size).len(),
    ensures
        pages(pages(start, target, page_size)[k].1, target, page_size) == pages(
            start,
            target,
            page_size,
        ).skip(k + 1),
    decreases k,
{
    let first = page_at(start, target, page_size);
    let rest = pages(first.1, target, page_size);
    let all = pages(start, target, page_size);
    assert(all =~= seq![first] + rest);
    if k == 0 {
        assert(all.skip(1) =~= rest);
    } else {
        lemma_resume(first.1, target, page_size, k - 1);
        assert(all[k] == rest[k - 1]);
        assert(all.skip(k + 1) =~= rest.skip(k));
    }
}

} // verus!
