//! The block locator: which block was the last one at or before a given
//! time.
//!
//! Block timestamps never decrease along the chain, so the block is found
//! by bisection. Each probe needs the timestamp of one block, which only
//! the chain can tell; the search therefore runs as a machine that names
//! the block it wants to see next and is told its timestamp.

use vstd::prelude::*;

verus! {

/// A bisection in progress, or its result.
#[derive(Clone, Copy, Debug, PartialEq, Eq, Structural)]
pub struct BlockSearch {
    /// The time that is looked for.
    pub desired: u64,
    /// The first block of the range, to which the result is clamped.
    pub start: u64,
    /// The blocks still in question are `low..=high`.
    pub low: u64,
    pub high: u64,
    /// The result, once there is one.
    pub finished: Option<u64>,
}

/// The block that the bisection of `low..=high` ends on, when block `b` has
/// the timestamp `ts(b)`.
pub open spec fn bisect(
    ts: spec_fn(u64) -> u64,
    desired: u64,
    start: u64,
    low: int,
    high: int,
) -> int
    decreases high - low + 1,
{
    if low > high {
        if high >= start {
            high
        } else {
            start as int
        }
    } else {
        let mid = low + (high - low) / 2;
        if ts(mid as u64) < desired {
            bisect(ts, desired, start, mid + 1, high)
        } else if ts(mid as u64) > desired {
            bisect(ts, desired, start, low, mid - 1)
        } else {
            mid
        }
    }
}

/// The located block for the range `start..=end`.
pub open spec fn locate(ts: spec_fn(u64) -> u64, desired: u64, start: u64, end: u64) -> int {
    bisect(ts, desired, start, start as int, end as int)
}

/// Timestamps do not decrease from `start` to `end`.
pub open spec fn non_decreasing(ts: spec_fn(u64) -> u64, start: u64, end: u64) -> bool {
    forall|a: u64, b: u64| start <= a <= b <= end ==> #[trigger] ts(a) <= #[trigger] ts(b)
}

/// `r` is the answer that is asked of the locator on `start..=end`: a
/// block of the range; one with exactly the desired timestamp if there is
/// any; else the last block that is earlier than the desired time; and
/// `start` if every block is later.
pub open spec fn is_located(
    ts: spec_fn(u64) -> u64,
    desired: u64,
    start: u64,
    end: u64,
    r: int,
) -> bool {
    &&& start <= r <= end
    &&& (exists|b: u64| start <= b <= end && #[trigger] ts(b) == desired) ==> ts(r as u64)
        == desired
    &&& ts(r as u64) > desired ==> r == start
    &&& ts(r as u64) != desired ==> forall|b: u64| r < b <= end ==> #[trigger] ts(b) > desired
}

impl BlockSearch {
    /// What holds of every search: while it runs, the blocks in question
    /// form a range that is not empty and does not begin before `start`.
    pub open spec fn wf(self) -> bool {
        self.finished is None ==> self.start <= self.low <= self.high
    }

    /// The block that the search asks for next.
    pub open spec fn mid(self) -> u64 {
        (self.low + (self.high - self.low) / 2) as u64
    }

    /// The search after it has been told the timestamp `t` of `mid()`.
    pub open spec fn step(self, t: u64) -> BlockSearch {
        let mid = self.mid();
        if t < self.desired {
            if mid == self.high {
                BlockSearch { finished: Some(self.high), ..self }
            } else {
                BlockSearch { low: (mid + 1) as u64, ..self }
            }
        } else if t > self.desired {
            if mid == self.low {
                BlockSearch {
                    finished: Some(
                        if mid == self.start {
                            self.start
                        } else {
                            (mid - 1) as u64
                        },
                    ),
                    ..self
                }
            } else {
                BlockSearch { high: (mid - 1) as u64, ..self }
            }
        } else {
            BlockSearch { finished: Some(mid), ..self }
        }
    }

    /// The block that the search ends on when block `b` has the timestamp
    /// `ts(b)`.
    pub open spec fn outcome(self, ts: spec_fn(u64) -> u64) -> int {
        match self.finished {
            Some(r) => r as int,
            None => bisect(ts, self.desired, self.start, self.low as int, self.high as int),
        }
    }

    /// The search of `start_block..=end_block` before its first probe. On an
    /// empty range it is over at once, with `start_block`.
    pub open spec fn initial(desired_timestamp: u64, start_block: u64, end_block: u64) -> BlockSearch {
        BlockSearch {
            desired: desired_timestamp,
            start: start_block,
            low: start_block,
            high: end_block,
            finished: if start_block > end_block {
                Some(start_block)
            } else {
                None
            },
        }
    }

    /// A search for the last block of `start_block..=end_block` that is not
    /// later than `desired_timestamp`.
    pub fn new(desired_timestamp: u64, start_block: u64, end_block: u64) -> (s: BlockSearch)
        ensures
            s.wf(),
            s == BlockSearch::initial(desired_timestamp, start_block, end_block),
            forall|ts: spec_fn(u64) -> u64| #[trigger]
                s.outcome(ts) == locate(ts, desired_timestamp, start_block, end_block),
    {
        let finished = if start_block > end_block {
            Some(start_block)
        } else {
            None
        };
        BlockSearch {
            desired: desired_timestamp,
            start: start_block,
            low: start_block,
            high: end_block,
            finished,
        }
    }

    /// The block whose timestamp the search needs next; `None` once the
    /// search is over.
    pub fn probe(&self) -> (r: Option<u64>)
        requires
            self.wf(),
        ensures
            r == if self.finished is None {
                Some(self.mid())
            } else {
                None
            },
    {
        match self.finished {
            Some(_) => None,
            None => Some(self.low + (self.high - self.low) / 2),
        }
    }

    /// The located block; `None` while the search runs.
    pub fn result(&self) -> (r: Option<u64>)
        ensures
            r == self.finished,
    {
        self.finished
    }

    /// Tells the search the timestamp of the block that `probe` named.
    /// A smaller timestamp than the desired one sends the search to the
    /// later half, a larger one to the earlier half, and an equal one ends
    /// it on that block. The outcome of the search is the same before and
    /// after, for every chain on which the block has this timestamp.
    pub fn observe(&mut self, timestamp: u64)
        requires
            old(self).wf(),
            old(self).finished is None,
        ensures
            final(self).wf(),
            *final(self) == old(self).step(timestamp),
            final(self).finished is None ==> final(self).high - final(self).low < old(self).high
                - old(self).low,
            forall|ts: spec_fn(u64) -> u64|
                ts(old(self).mid()) == timestamp ==> #[trigger] final(self).outcome(ts) == old(
                    self,
                ).outcome(ts),
    {
        let mid = self.low + (self.high - self.low) / 2;
        if timestamp < self.desired {
            if mid == self.high {
                self.finished = Some(self.high);
            } else {
                self.low = mid + 1;
            }
        } else if timestamp > self.desired {
            if mid == self.low {
                self.finished = Some(
                    if mid == self.start {
                        self.start
                    } else {
                        mid - 1
                    },
                );
            } else {
                self.high = mid - 1;
            }
        } else {
            self.finished = Some(mid);
        }
        proof {
            assert forall|ts: spec_fn(u64) -> u64| ts(old(self).mid()) == timestamp implies #[trigger]
                self.outcome(ts) == old(self).outcome(ts) by {
                lemma_step_outcome(*old(self), ts);
            }
        }
    }
}

/// A step of the search does not change where it ends.
pub proof fn lemma_step_outcome(s: BlockSearch, ts: spec_fn(u64) -> u64)
    requires
        s.wf(),
        s.finished is None,
    ensures
        s.step(ts(s.mid())).outcome(ts) == s.outcome(ts),
        s.step(ts(s.mid())).wf(),
{
    let mid = s.mid();
    let t = ts(mid);
    if t < s.desired && mid == s.high {
        assert(bisect(ts, s.desired, s.start, mid + 1, s.high as int) == s.high);
    } else if t > s.desired && mid == s.low {
        assert(bisect(ts, s.desired, s.start, s.low as int, mid - 1) == if mid == s.start {
            s.start as int
        } else {
            mid - 1
        });
    }
}

/// Where the bisection of `low..=high` ends, given what is known of the
/// blocks around that range.
proof fn lemma_bisect(ts: spec_fn(u64) -> u64, desired: u64, start: u64, end: u64, low: int, high: int)
    requires
        non_decreasing(ts, start, end),
        start <= low,
        high <= end,
        low <= high + 1,
        forall|b: u64| start <= b < low ==> #[trigger] ts(b) < desired,
        forall|b: u64| high < b <= end ==> #[trigger] ts(b) > desired,
        start <= end,
    ensures
        is_located(ts, desired, start, end, bisect(ts, desired, start, low, high)),
    decreases high - low + 1,
{
    let r = bisect(ts, desired, start, low, high);
    if low > high {
        if high >= start {
            assert(ts(high as u64) < desired);
        } else {
            assert(r == start);
        }
        assert forall|b: u64| start <= b <= end implies #[trigger] ts(b) != desired by {
            if b < low {
            } else {
                assert(high < b);
            }
        }
    } else {
        let mid = low + (high - low) / 2;
        let m = mid as u64;
        if ts(m) < desired {
            assert forall|b: u64| start <= b < mid + 1 implies #[trigger] ts(b) < desired by {
                assert(ts(b) <= ts(m));
            }
            lemma_bisect(ts, desired, start, end, mid + 1, high);
        } else if ts(m) > desired {
            assert forall|b: u64| mid - 1 < b <= end implies #[trigger] ts(b) > desired by {
                assert(ts(m) <= ts(b));
            }
            lemma_bisect(ts, desired, start, end, low, mid - 1);
        }
    }
}

/// On a chain whose timestamps do not decrease, the located block is the
/// last one at or before the desired time, clamped to the first block of
/// the range.
pub proof fn lemma_locate(ts: spec_fn(u64) -> u64, desired: u64, start: u64, end: u64)
    requires
        start <= end,
        non_decreasing(ts, start, end),
    ensures
        is_located(ts, desired, start, end, locate(ts, desired, start, end)),
{
    lemma_bisect(ts, desired, start, end, start as int, end as int);
}

/// Whatever the timestamps are, the located block lies in the range.
pub proof fn lemma_locate_in_range(
    ts: spec_fn(u64) -> u64,
    desired: u64,
    start: u64,
    low: int,
    high: int,
)
    requires
        start <= low,
        low <= high + 1,
    ensures
        start <= bisect(ts, desired, start, low, high),
        bisect(ts, desired, start, low, high) <= high || bisect(ts, desired, start, low, high)
            == start,
    decreases high - low + 1,
{
    if low <= high {
        let mid = low + (high - low) / 2;
        if ts(mid as u64) < desired {
            lemma_locate_in_range(ts, desired, start, mid + 1, high);
        } else if ts(mid as u64) > desired {
            lemma_locate_in_range(ts, desired, start, low, mid - 1);
        }
    }
}

/// The chain as a table: `table[i]` is the timestamp of block `first + i`.
pub open spec fn table_timestamps(table: Seq<u64>, first: u64) -> spec_fn(u64) -> u64 {
    |b: u64|
        if first <= b < first + table.len() {
            table[b - first]
        } else {
            0
        }
}

/// Locates the last block of `start_block..=end_block` at or before
/// `desired_timestamp`, on a chain whose timestamps are at hand:
/// `timestamps[i]` is that of block `start_block + i`.
///
/// The result is a block with exactly the desired timestamp if the range
/// has one; otherwise the last block before that time; and `start_block`
/// if the range is empty or begins later than the desired time.
pub fn find_block_by_timestamp(
    timestamps: &Vec<u64>,
    desired_timestamp: u64,
    start_block: u64,
    end_block: u64,
) -> (r: u64)
    requires
        start_block <= end_block ==> timestamps.len() > end_block - start_block,
    ensures
        r == locate(
            table_timestamps(timestamps@, start_block),
            desired_timestamp,
            start_block,
            end_block,
        ),
        start_block > end_block ==> r == start_block,
        start_block <= end_block ==> start_block <= r <= end_block,
        start_block <= end_block && non_decreasing(
            table_timestamps(timestamps@, start_block),
            start_block,
            end_block,
        ) ==> is_located(
            table_timestamps(timestamps@, start_block),
            desired_timestamp,
            start_block,
            end_block,
            r as int,
        ),
{
    let ghost ts = table_timestamps(timestamps@, start_block);
    let mut search = BlockSearch::new(desired_timestamp, start_block, end_block);
    while search.finished.is_none()
        invariant
            search.wf(),
            search.start == start_block,
            search.desired == desired_timestamp,
            search.finished is None ==> search.high <= end_block,
            start_block <= end_block ==> timestamps.len() > end_block - start_block,
            ts == table_timestamps(timestamps@, start_block),
            search.outcome(ts) == locate(ts, desired_timestamp, start_block, end_block),
        decreases
            (if search.finished is None {
                search.high - search.low + 1
            } else {
                0
            }),
    {
        let mid = search.low + (search.high - search.low) / 2;
        let timestamp = timestamps[(mid - start_block) as usize];
        assert(ts(mid) == timestamp);
        search.observe(timestamp);
    }
    let r = search.finished.unwrap();
    proof {
        if start_block <= end_block {
            lemma_locate_in_range(
                ts,
                desired_timestamp,
                start_block,
                start_block as int,
                end_block as int,
            );
            if non_decreasing(ts, start_block, end_block) {
                lemma_locate(ts, desired_timestamp, start_block, end_block);
            }
        }
    }
    r
}

} // verus!
