//! A run as a whole: what the pages of a run make of the state, and why a
//! run that is interrupted and taken up again ends where an uninterrupted
//! run ends.
//!
//! Nothing here is executed. The chain is a function from a page to what
//! that page holds, and a run is the state that results when the pages are
//! worked through in order.

use crate::keys::KeyError;
use crate::ledger::{BlockContext, LedgerError, PoolEvent};
use crate::scheduler::{lemma_resume, pages};
use crate::state::{EventsView, SharePrice};
use crate::store::{lemma_checkpoint_roundtrip, SerializableEvents};
use crate::word::Uint256;
use vstd::prelude::*;

verus! {

/// One thing that the processing of a page records.
pub enum Record {
    /// An event of the pool, with its block.
    Event(PoolEvent, BlockContext),
    /// A share price that was resolved for a checkpoint time.
    Price(Uint256, SharePrice),
}

impl EventsView {
    /// The state after one record.
    pub open spec fn record(self, r: Record) -> Result<EventsView, LedgerError> {
        match r {
            Record::Event(event, block) => self.apply(event, block),
            Record::Price(time, price) => Ok(self.with_share_price(time, price)),
        }
    }

    /// The state after a run of records, in order; the first record that
    /// fails is the error.
    pub open spec fn record_all(self, records: Seq<Record>) -> Result<EventsView, LedgerError>
        decreases records.len(),
    {
        if records.len() == 0 {
            Ok(self)
        } else {
            match self.record_all(records.drop_last()) {
                Err(e) => Err(e),
                Ok(before) => before.record(records.last()),
            }
        }
    }
}

/// The state after the given pages, in order, on a chain where the page
/// `p` holds the records `feed(p)`. The first page that fails is the
/// error, and no page after it is worked on.
pub open spec fn process(
    state: EventsView,
    run: Seq<(int, int)>,
    feed: spec_fn((int, int)) -> Seq<Record>,
) -> Result<EventsView, LedgerError>
    decreases run.len(),
{
    if run.len() == 0 {
        Ok(state)
    } else {
        match process(state, run.drop_last(), feed) {
            Err(e) => Err(e),
            Ok(before) => before.record_all(feed(run.last())),
        }
    }
}

/// Working through two runs of pages one after the other is working
/// through the second from where the first ends.
pub proof fn lemma_process_split(
    state: EventsView,
    first: Seq<(int, int)>,
    second: Seq<(int, int)>,
    feed: spec_fn((int, int)) -> Seq<Record>,
)
    ensures
        process(state, first + second, feed) == match process(state, first, feed) {
            Ok(between) => process(between, second, feed),
            Err(e) => Err(e),
        },
    decreases second.len(),
{
    if second.len() == 0 {
        assert(first + second =~= first);
    } else {
        lemma_process_split(state, first, second.drop_last(), feed);
        assert((first + second).drop_last() =~= first + second.drop_last());
        assert((first + second).last() == second.last());
    }
}

/// A run may stop after any of its pages. If the state is then written as
/// a checkpoint, the checkpoint is read back as that state, and the run
/// that takes up at the end of that page, with the state that was read,
/// ends in the state in which the uninterrupted run ends, or fails as it
/// fails.
pub proof fn lemma_resumed_run(
    state: EventsView,
    start: int,
    target: int,
    page_size: int,
    feed: spec_fn((int, int)) -> Seq<Record>,
    k: int,
    between: EventsView,
    checkpoint: SerializableEvents,
)
    requires
        page_size > 0,
        0 <= k < pages(start, target, page_size).len(),
        process(state, pages(start, target, page_size).take(k + 1), feed) == Ok::<
            EventsView,
            LedgerError,
        >(between),
        checkpoint.writes(between),
    ensures
        checkpoint.read() == Ok::<EventsView, KeyError>(between),
        process(between, pages(pages(start, target, page_size)[k].1, target, page_size), feed)
            == process(state, pages(start, target, page_size), feed),
{
    let all = pages(start, target, page_size);
    lemma_checkpoint_roundtrip(checkpoint, between);
    lemma_resume(start, target, page_size, k);
    lemma_process_split(state, all.take(k + 1), all.skip(k + 1), feed);
    assert(all.take(k + 1) + all.skip(k + 1) =~= all);
}

} // verus!
