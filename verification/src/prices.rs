//! Share prices at the checkpoints of a short.
//!
//! A short needs the vault share price at two times: when its term began,
//! which is its maturity time less the position duration, and at its
//! maturity. For each, the price is taken at the block that the locator
//! finds for that time within the blocks under observation, so a
//! checkpoint before the first of them is priced at the first, and one
//! after the last at the last. A price is stored under its checkpoint time
//! once and never replaced.
//!
//! Block timestamps and prices come from the chain. The resolution is
//! therefore a machine: it says what it needs next, and is told.

use crate::keys::PositionKey;
use crate::locator::{lemma_step_outcome, locate, BlockSearch};
use crate::state::{price_map_contains, price_map_insert, Events, EventsView, SharePrice};
use crate::word::{lemma_uint256_view, uint256_of, uint_checked_sub, Uint256};
use vstd::prelude::*;

verus! {

/// Why the checkpoints of a short cannot be resolved.
#[derive(Clone, Copy, Debug, PartialEq, Eq, Structural)]
pub enum PriceError {
    /// The position duration is longer than the maturity time is late.
    DurationExceedsMaturity,
    /// The maturity time is no 64-bit timestamp.
    TimestampTooLarge,
}

/// What the resolution needs next.
#[derive(Clone, Copy, Debug, PartialEq, Eq, Structural)]
pub enum PriceRequest {
    /// The timestamp of this block.
    BlockTimestamp(u64),
    /// The vault share price as of this block.
    SharePrice(u64),
    /// Nothing: both prices are dealt with.
    Done,
}

/// Which checkpoint is being resolved.
#[derive(Clone, Copy, Debug, PartialEq, Eq, Structural)]
pub enum Stage {
    Open,
    Maturity,
    Done,
}

/// The resolution of the two checkpoints of one short.
#[derive(Clone, Copy, Debug, PartialEq, Eq, Structural)]
pub struct SharePriceResolution {
    /// When the term of the short began.
    pub open_time: Uint256,
    /// When the short matures.
    pub maturity_time: Uint256,
    /// The blocks under observation are `start_block..=end_block`.
    pub start_block: u64,
    pub end_block: u64,
    pub stage: Stage,
    /// The search for the block of the checkpoint at hand.
    pub search: BlockSearch,
}

impl EventsView {
    /// The state with `price` stored for `time`, unless a price is already
    /// stored for it.
    pub open spec fn with_share_price(self, time: Uint256, price: SharePrice) -> EventsView {
        if self.share_prices.contains_key(time) {
            self
        } else {
            EventsView { share_prices: self.share_prices.insert(time, price), ..self }
        }
    }
}

/// Stores `price` for the checkpoint at `checkpoint_time` if none is stored
/// for it yet; the first price stays.
pub fn record_share_price(events: &mut Events, checkpoint_time: Uint256, price: SharePrice)
    ensures
        final(events)@ =~= old(events)@.with_share_price(checkpoint_time, price),
{
    if !price_map_contains(&events.share_prices, &checkpoint_time) {
        price_map_insert(&mut events.share_prices, checkpoint_time, price);
    }
}

/// The resolution of a short of the given maturity, before its first
/// request; or why there is none.
pub open spec fn resolution_of(
    maturity_time: Uint256,
    position_duration: Uint256,
    start_block: u64,
    end_block: u64,
) -> Result<SharePriceResolution, PriceError> {
    if maturity_time@ < position_duration@ {
        Err(PriceError::DurationExceedsMaturity)
    } else if maturity_time@ > u64::MAX {
        Err(PriceError::TimestampTooLarge)
    } else {
        let open_time = uint256_of((maturity_time@ - position_duration@) as nat);
        Ok(
            SharePriceResolution {
                open_time,
                maturity_time,
                start_block,
                end_block,
                stage: Stage::Open,
                search: BlockSearch::initial(open_time@ as u64, start_block, end_block),
            },
        )
    }
}

impl SharePriceResolution {
    /// The checkpoint time at hand.
    pub open spec fn time(self) -> Uint256 {
        if self.stage is Open {
            self.open_time
        } else {
            self.maturity_time
        }
    }

    /// What holds of every resolution: its times are 64-bit timestamps,
    /// and while a checkpoint is at hand, the search is for its time and
    /// over the blocks under observation.
    pub open spec fn wf(self) -> bool {
        &&& self.open_time@ <= self.maturity_time@ <= u64::MAX
        &&& !(self.stage is Done) ==> {
            &&& self.search.wf()
            &&& self.search.desired == self.time()@
            &&& self.search.start == self.start_block
        }
    }

    /// What the resolution needs next.
    pub open spec fn next(self) -> PriceRequest {
        if self.stage is Done {
            PriceRequest::Done
        } else {
            match self.search.finished {
                None => PriceRequest::BlockTimestamp(self.search.mid()),
                Some(block) => PriceRequest::SharePrice(block),
            }
        }
    }

    /// The resolution once the checkpoint at hand has its price.
    pub open spec fn advanced(self) -> SharePriceResolution {
        if self.stage is Open {
            SharePriceResolution {
                stage: Stage::Maturity,
                search: BlockSearch::initial(
                    self.maturity_time@ as u64,
                    self.start_block,
                    self.end_block,
                ),
                ..self
            }
        } else {
            SharePriceResolution { stage: Stage::Done, ..self }
        }
    }

    /// Starts the resolution for a short that was opened. The open
    /// checkpoint is the maturity time less `position_duration`; both
    /// checkpoints are looked for in `start_block..=end_block`.
    pub fn new(
        short_key: &PositionKey,
        position_duration: &Uint256,
        start_block: u64,
        end_block: u64,
    ) -> (r: Result<SharePriceResolution, PriceError>)
        ensures
            r == resolution_of(short_key.maturity_time, *position_duration, start_block, end_block),
            r matches Ok(s) ==> s.wf(),
    {
        let open_time = match uint_checked_sub(&short_key.maturity_time, position_duration) {
            Some(t) => t,
            None => {
                return Err(PriceError::DurationExceedsMaturity);
            },
        };
        proof {
            lemma_uint256_view(open_time, open_time);
        }
        if short_key.maturity_time.to_u64().is_none() {
            return Err(PriceError::TimestampTooLarge);
        }
        let open_secs = match open_time.to_u64() {
            Some(t) => t,
            None => {
                return Err(PriceError::TimestampTooLarge);
            },
        };
        Ok(
            SharePriceResolution {
                open_time,
                maturity_time: short_key.maturity_time,
                start_block,
                end_block,
                stage: Stage::Open,
                search: BlockSearch::new(open_secs, start_block, end_block),
            },
        )
    }

    /// What the resolution needs next.
    pub fn request(&self) -> (r: PriceRequest)
        requires
            self.wf(),
        ensures
            r == self.next(),
    {
        match self.stage {
            Stage::Done => PriceRequest::Done,
            _ => match self.search.probe() {
                Some(block) => PriceRequest::BlockTimestamp(block),
                None => match self.search.result() {
                    Some(block) => PriceRequest::SharePrice(block),
                    None => PriceRequest::Done,
                },
            },
        }
    }

    /// Tells the resolution the timestamp of the block that it asked for.
    pub fn supply_timestamp(&mut self, timestamp: u64)
        requires
            old(self).wf(),
            old(self).next() is BlockTimestamp,
        ensures
            final(self).wf(),
            *final(self) == (SharePriceResolution {
                search: old(self).search.step(timestamp),
                ..*old(self)
            }),
    {
        self.search.observe(timestamp);
    }

    /// Tells the resolution the share price as of the block that it asked
    /// for. The price is stored for the checkpoint at hand unless that
    /// checkpoint has one, and the resolution goes on to the next
    /// checkpoint.
    pub fn supply_price(&mut self, events: &mut Events, price: Uint256)
        requires
            old(self).wf(),
            old(self).next() is SharePrice,
        ensures
            final(self).wf(),
            *final(self) == old(self).advanced(),
            old(self).next() matches PriceRequest::SharePrice(block) && final(events)@ =~= old(
                events,
            )@.with_share_price(old(self).time(), SharePrice { block_num: block, price }),
    {
        let block = match self.search.result() {
            Some(block) => block,
            None => 0,
        };
        match self.stage {
            Stage::Open => {
                record_share_price(events, self.open_time, SharePrice { block_num: block, price });
                let maturity_secs = match self.maturity_time.to_u64() {
                    Some(t) => t,
                    None => 0,
                };
                self.search = BlockSearch::new(maturity_secs, self.start_block, self.end_block);
                self.stage = Stage::Maturity;
            },
            _ => {
                record_share_price(
                    events,
                    self.maturity_time,
                    SharePrice { block_num: block, price },
                );
                self.stage = Stage::Done;
            },
        }
    }
}

/// A checkpoint that has its price keeps it: storing a second price for
/// the same time changes nothing.
pub proof fn lemma_first_price_stays(
    state: EventsView,
    time: Uint256,
    first: SharePrice,
    second: SharePrice,
)
    ensures
        state.with_share_price(time, first).with_share_price(time, second)
            == state.with_share_price(time, first),
        state.with_share_price(time, first).share_prices.contains_key(time),
        state.share_prices.contains_key(time) ==> state.with_share_price(time, first) == state,
        !state.share_prices.contains_key(time) ==> state.with_share_price(
            time,
            first,
        ).share_prices[time] == first,
{
}

impl SharePriceResolution {
    /// How many checkpoints are still to be priced.
    pub open spec fn checkpoints_left(self) -> nat {
        match self.stage {
            Stage::Open => 2,
            Stage::Maturity => 1,
            Stage::Done => 0,
        }
    }

    /// A bound on the requests that the checkpoint at hand still takes.
    pub open spec fn requests_left(self) -> nat {
        match self.search.finished {
            None => (self.search.high - self.search.low + 2) as nat,
            Some(_) => 1,
        }
    }

    /// The state in which the resolution ends when every request is
    /// answered from the chain: block `b` has the timestamp `ts(b)`, and the
    /// share price as of block `b` is `price_at(b)`.
    pub open spec fn outcome(
        self,
        state: EventsView,
        ts: spec_fn(u64) -> u64,
        price_at: spec_fn(u64) -> Uint256,
    ) -> EventsView
        decreases self.checkpoints_left(), self.requests_left(),
    {
        if !self.wf() {
            state
        } else {
            match self.next() {
                PriceRequest::Done => state,
                PriceRequest::BlockTimestamp(block) => {
                    proof {
                        lemma_step_outcome(self.search, ts);
                    }
                    (SharePriceResolution { search: self.search.step(ts(block)), ..self }).outcome(
                        state,
                        ts,
                        price_at,
                    )
                },
                PriceRequest::SharePrice(block) => self.advanced().outcome(
                    state.with_share_price(
                        self.time(),
                        SharePrice { block_num: block, price: price_at(block) },
                    ),
                    ts,
                    price_at,
                ),
            }
        }
    }

    /// The state with the price of the checkpoint at hand: the price as of
    /// the block that the locator finds for the checkpoint time.
    pub open spec fn priced(
        self,
        state: EventsView,
        ts: spec_fn(u64) -> u64,
        price_at: spec_fn(u64) -> Uint256,
    ) -> EventsView {
        let block = self.search.outcome(ts) as u64;
        state.with_share_price(self.time(), SharePrice { block_num: block, price: price_at(block) })
    }
}

/// The requests for block timestamps lead to the block that the search
/// ends on, and the price as of that block is the one that is stored.
proof fn lemma_checkpoint(
    r: SharePriceResolution,
    state: EventsView,
    ts: spec_fn(u64) -> u64,
    price_at: spec_fn(u64) -> Uint256,
)
    requires
        r.wf(),
        !(r.stage is Done),
    ensures
        r.outcome(state, ts, price_at) == if r.stage is Open {
            r.advanced().outcome(r.priced(state, ts, price_at), ts, price_at)
        } else {
            r.priced(state, ts, price_at)
        },
    decreases r.requests_left(),
{
    reveal_with_fuel(SharePriceResolution::outcome, 2);
    if r.search.finished is None {
        let block = r.search.mid();
        let next = SharePriceResolution { search: r.search.step(ts(block)), ..r };
        lemma_step_outcome(r.search, ts);
        lemma_checkpoint(next, state, ts, price_at);
        assert(r.next() == PriceRequest::BlockTimestamp(block));
        assert(r.outcome(state, ts, price_at) == next.outcome(state, ts, price_at));
        assert(next.search.outcome(ts) == r.search.outcome(ts));
        assert(next.priced(state, ts, price_at) == r.priced(state, ts, price_at));
        if r.stage is Open {
            assert(next.advanced() == r.advanced());
        }
    } else {
        let block = r.search.finished->Some_0;
        assert(r.next() == PriceRequest::SharePrice(block));
        assert(r.search.outcome(ts) == block);
        if !(r.stage is Open) {
            let done = r.advanced();
            assert(done.stage is Done);
            assert(done.next() == PriceRequest::Done);
        }
    }
}

/// A resolution that is run to its end stores, for the open checkpoint and
/// then for the maturity checkpoint, the price as of the block that the
/// locator finds for the checkpoint time in the blocks under observation;
/// a checkpoint that has a price keeps it.
pub proof fn lemma_resolution(
    maturity_time: Uint256,
    position_duration: Uint256,
    start_block: u64,
    end_block: u64,
    state: EventsView,
    ts: spec_fn(u64) -> u64,
    price_at: spec_fn(u64) -> Uint256,
)
    requires
        resolution_of(maturity_time, position_duration, start_block, end_block) is Ok,
    ensures
        ({
            let r = resolution_of(maturity_time, position_duration, start_block, end_block)->Ok_0;
            let open_block = locate(ts, r.open_time@ as u64, start_block, end_block) as u64;
            let maturity_block = locate(ts, maturity_time@ as u64, start_block, end_block) as u64;
            r.outcome(state, ts, price_at) == state.with_share_price(
                r.open_time,
                SharePrice { block_num: open_block, price: price_at(open_block) },
            ).with_share_price(
                maturity_time,
                SharePrice { block_num: maturity_block, price: price_at(maturity_block) },
            )
        }),
{
    let r = resolution_of(maturity_time, position_duration, start_block, end_block)->Ok_0;
    crate::word::lemma_uint256_of((maturity_time@ - position_duration@) as nat);
    assert(r.wf());
    lemma_checkpoint(r, state, ts, price_at);
    let second = r.advanced();
    let between = r.priced(state, ts, price_at);
    assert(second.wf());
    lemma_checkpoint(second, between, ts, price_at);
}

} // verus!
