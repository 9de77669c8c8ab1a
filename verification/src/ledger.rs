//! The ledger accumulator: what each event of the pool does to the state.
//!
//! An opening event appends a debit with the event's amounts to the ledger
//! of its key, and starts that ledger if there is none. A closing event
//! appends the negated amounts, and only to a ledger that exists: a close
//! without an open means that the event stream is out of order, and is
//! reported with the key instead of being recorded.

use crate::keys::{address_text, position_key_text, Address, LpKey, PositionKey};
use vstd::string::StringExecFns;
use crate::state::{
    lp_map_insert, lp_map_remove, position_map_insert, position_map_remove, Events, EventsView,
    LpDebit, PositionDebit,
};
use crate::word::{int256_min, negated, Int256, Uint256};
use dashmap::DashMap;
use vstd::prelude::*;

verus! {

/// The fields of an event that opens or closes a long or a short.
#[derive(Clone, Copy, Debug, PartialEq, Eq)]
pub struct PositionEvent {
    pub trader: Address,
    pub maturity_time: Uint256,
    pub base_amount: Uint256,
    pub bond_amount: Uint256,
}

/// The fields of an event that adds or removes liquidity.
#[derive(Clone, Copy, Debug, PartialEq, Eq)]
pub struct LiquidityEvent {
    pub provider: Address,
    pub lp_amount: Uint256,
    pub base_amount: Uint256,
}

/// A decoded event of the pool.
#[derive(Clone, Copy, Debug, PartialEq, Eq)]
pub enum PoolEvent {
    OpenLong(PositionEvent),
    CloseLong(PositionEvent),
    OpenShort(PositionEvent),
    CloseShort(PositionEvent),
    Initialize(LiquidityEvent),
    AddLiquidity(LiquidityEvent),
    RemoveLiquidity(LiquidityEvent),
    /// Any other kind of event; the ledgers take no note of it.
    Other,
}

/// The block that an event was found in.
#[derive(Clone, Copy, Debug, PartialEq, Eq, Structural)]
pub struct BlockContext {
    pub number: u64,
    pub timestamp: Uint256,
}

/// Why an event was not recorded.
#[derive(Clone, Copy, Debug, PartialEq, Eq)]
pub enum LedgerError {
    /// A closing amount is the least 256-bit integer, which cannot be
    /// negated.
    AmountOverflow,
    /// A long was closed that was never opened.
    MissingLong(PositionKey),
    /// A short was closed that was never opened.
    MissingShort(PositionKey),
    /// Liquidity was removed that was never added.
    MissingLp(LpKey),
}

/// `m` with `debit` at the end of the ledger of `key`, which is started if
/// `m` has none.
pub open spec fn appended<K, D>(m: Map<K, Seq<D>>, key: K, debit: D) -> Map<K, Seq<D>> {
    if m.contains_key(key) {
        m.insert(key, m[key].push(debit))
    } else {
        m.insert(key, seq![debit])
    }
}

impl PositionEvent {
    pub open spec fn key(self) -> PositionKey {
        PositionKey { trader: self.trader, maturity_time: self.maturity_time }
    }

    /// The debit of an opening: the amounts as they are.
    pub open spec fn opening(self, block: BlockContext) -> PositionDebit {
        PositionDebit {
            block_number: block.number,
            timestamp: block.timestamp,
            base_amount: Int256::of_raw(self.base_amount),
            bond_amount: Int256::of_raw(self.bond_amount),
        }
    }

    /// Both amounts have a negation.
    pub open spec fn negatable(self) -> bool {
        Int256::of_raw(self.base_amount)@ != int256_min() && Int256::of_raw(self.bond_amount)@
            != int256_min()
    }

    /// The debit of a closing: both amounts negated.
    pub open spec fn closing(self, block: BlockContext) -> PositionDebit {
        PositionDebit {
            block_number: block.number,
            timestamp: block.timestamp,
            base_amount: Int256::of_raw(self.base_amount).negation(),
            bond_amount: Int256::of_raw(self.bond_amount).negation(),
        }
    }
}

impl LiquidityEvent {
    pub open spec fn key(self) -> LpKey {
        LpKey { provider: self.provider }
    }

    /// The debit of an addition: the amounts as they are.
    pub open spec fn opening(self, block: BlockContext) -> LpDebit {
        LpDebit {
            block_number: block.number,
            timestamp: block.timestamp,
            lp_amount: Int256::of_raw(self.lp_amount),
            base_amount: Int256::of_raw(self.base_amount),
        }
    }

    /// Both amounts have a negation.
    pub open spec fn negatable(self) -> bool {
        Int256::of_raw(self.lp_amount)@ != int256_min() && Int256::of_raw(self.base_amount)@
            != int256_min()
    }

    /// The debit of a removal: both amounts negated.
    pub open spec fn closing(self, block: BlockContext) -> LpDebit {
        LpDebit {
            block_number: block.number,
            timestamp: block.timestamp,
            lp_amount: Int256::of_raw(self.lp_amount).negation(),
            base_amount: Int256::of_raw(self.base_amount).negation(),
        }
    }
}

impl EventsView {
    pub open spec fn open_long(self, e: PositionEvent, block: BlockContext) -> EventsView {
        EventsView { longs: appended(self.longs, e.key(), e.opening(block)), ..self }
    }

    pub open spec fn open_short(self, e: PositionEvent, block: BlockContext) -> EventsView {
        EventsView { shorts: appended(self.shorts, e.key(), e.opening(block)), ..self }
    }

    pub open spec fn add_liquidity(self, e: LiquidityEvent, block: BlockContext) -> EventsView {
        EventsView { lps: appended(self.lps, e.key(), e.opening(block)), ..self }
    }

    pub open spec fn close_long(self, e: PositionEvent, block: BlockContext) -> Result<
        EventsView,
        LedgerError,
    > {
        if !e.negatable() {
            Err(LedgerError::AmountOverflow)
        } else if !self.longs.contains_key(e.key()) {
            Err(LedgerError::MissingLong(e.key()))
        } else {
            Ok(EventsView { longs: appended(self.longs, e.key(), e.closing(block)), ..self })
        }
    }

    pub open spec fn close_short(self, e: PositionEvent, block: BlockContext) -> Result<
        EventsView,
        LedgerError,
    > {
        if !e.negatable() {
            Err(LedgerError::AmountOverflow)
        } else if !self.shorts.contains_key(e.key()) {
            Err(LedgerError::MissingShort(e.key()))
        } else {
            Ok(EventsView { shorts: appended(self.shorts, e.key(), e.closing(block)), ..self })
        }
    }

    pub open spec fn remove_liquidity(self, e: LiquidityEvent, block: BlockContext) -> Result<
        EventsView,
        LedgerError,
    > {
        if !e.negatable() {
            Err(LedgerError::AmountOverflow)
        } else if !self.lps.contains_key(e.key()) {
            Err(LedgerError::MissingLp(e.key()))
        } else {
            Ok(EventsView { lps: appended(self.lps, e.key(), e.closing(block)), ..self })
        }
    }

    /// The state after `event`, or why the event cannot be recorded.
    pub open spec fn apply(self, event: PoolEvent, block: BlockContext) -> Result<
        EventsView,
        LedgerError,
    > {
        match event {
            PoolEvent::OpenLong(e) => Ok(self.open_long(e, block)),
            PoolEvent::CloseLong(e) => self.close_long(e, block),
            PoolEvent::OpenShort(e) => Ok(self.open_short(e, block)),
            PoolEvent::CloseShort(e) => self.close_short(e, block),
            PoolEvent::Initialize(e) => Ok(self.add_liquidity(e, block)),
            PoolEvent::AddLiquidity(e) => Ok(self.add_liquidity(e, block)),
            PoolEvent::RemoveLiquidity(e) => self.remove_liquidity(e, block),
            PoolEvent::Other => Ok(self),
        }
    }
}

impl LedgerError {
    /// What the error says, with the offending key in quotes.
    pub open spec fn message(self) -> Seq<char> {
        match self {
            LedgerError::AmountOverflow => "overflow"@,
            LedgerError::MissingLong(key) => "CloseLong position doesn't exist: \""@
                + position_key_text(key@) + "\""@,
            LedgerError::MissingShort(key) => "CloseShort position doesn't exist: \""@
                + position_key_text(key@) + "\""@,
            LedgerError::MissingLp(key) => "RemoveLiquidity position doesn't exist: \""@
                + address_text(key@) + "\""@,
        }
    }

    /// The error as a sentence for the operator.
    pub fn describe(&self) -> (r: String)
        ensures
            r@ == self.message(),
    {
        match self {
            LedgerError::AmountOverflow => "overflow".to_owned(),
            LedgerError::MissingLong(key) => {
                let mut out = "CloseLong position doesn't exist: \"".to_owned();
                out.append(key.encode().as_str());
                out.append("\"");
                out
            },
            LedgerError::MissingShort(key) => {
                let mut out = "CloseShort position doesn't exist: \"".to_owned();
                out.append(key.encode().as_str());
                out.append("\"");
                out
            },
            LedgerError::MissingLp(key) => {
                let mut out = "RemoveLiquidity position doesn't exist: \"".to_owned();
                out.append(key.encode().as_str());
                out.append("\"");
                out
            },
        }
    }
}

/// Appends `debit` to the ledger of `key`, starting one if there is none.
fn append_position(
    m: &mut DashMap<PositionKey, Vec<PositionDebit>>,
    key: PositionKey,
    debit: PositionDebit,
)
    ensures
        crate::state::position_ledgers(*final(m)) == appended(
            crate::state::position_ledgers(*old(m)),
            key,
            debit,
        ),
{
    let ledger = match position_map_remove(m, &key) {
        Some(mut ledger) => {
            ledger.push(debit);
            ledger
        },
        None => {
            let mut ledger = Vec::new();
            ledger.push(debit);
            ledger
        },
    };
    position_map_insert(m, key, ledger);
}

/// Appends `debit` to the ledger of `key` if there is one, and says
/// whether there was.
fn append_to_position(
    m: &mut DashMap<PositionKey, Vec<PositionDebit>>,
    key: PositionKey,
    debit: PositionDebit,
) -> (found: bool)
    ensures
        found == crate::state::position_ledgers(*old(m)).contains_key(key),
        crate::state::position_ledgers(*final(m)) == if found {
            appended(crate::state::position_ledgers(*old(m)), key, debit)
        } else {
            crate::state::position_ledgers(*old(m))
        },
{
    match position_map_remove(m, &key) {
        Some(mut ledger) => {
            ledger.push(debit);
            position_map_insert(m, key, ledger);
            true
        },
        None => false,
    }
}

/// Appends `debit` to the ledger of `key`, starting one if there is none.
fn append_lp(m: &mut DashMap<LpKey, Vec<LpDebit>>, key: LpKey, debit: LpDebit)
    ensures
        crate::state::lp_ledgers(*final(m)) == appended(
            crate::state::lp_ledgers(*old(m)),
            key,
            debit,
        ),
{
    let ledger = match lp_map_remove(m, &key) {
        Some(mut ledger) => {
            ledger.push(debit);
            ledger
        },
        None => {
            let mut ledger = Vec::new();
            ledger.push(debit);
            ledger
        },
    };
    lp_map_insert(m, key, ledger);
}

/// Appends `debit` to the ledger of `key` if there is one, and says
/// whether there was.
fn append_to_lp(m: &mut DashMap<LpKey, Vec<LpDebit>>, key: LpKey, debit: LpDebit) -> (found: bool)
    ensures
        found == crate::state::lp_ledgers(*old(m)).contains_key(key),
        crate::state::lp_ledgers(*final(m)) == if found {
            appended(crate::state::lp_ledgers(*old(m)), key, debit)
        } else {
            crate::state::lp_ledgers(*old(m))
        },
{
    match lp_map_remove(m, &key) {
        Some(mut ledger) => {
            ledger.push(debit);
            lp_map_insert(m, key, ledger);
            true
        },
        None => false,
    }
}

/// The debit of an opening.
fn opening_debit(event: &PositionEvent, block: &BlockContext) -> (d: PositionDebit)
    ensures
        d == event.opening(*block),
{
    PositionDebit {
        block_number: block.number,
        timestamp: block.timestamp,
        base_amount: Int256::from_raw(event.base_amount),
        bond_amount: Int256::from_raw(event.bond_amount),
    }
}

/// The debit of a closing, where both amounts can be negated.
fn closing_debit(event: &PositionEvent, block: &BlockContext) -> (r: Option<PositionDebit>)
    ensures
        r == if event.negatable() {
            Some(event.closing(*block))
        } else {
            None
        },
{
    let base_amount = match negated(event.base_amount) {
        Some(n) => n,
        None => {
            return None;
        },
    };
    let bond_amount = match negated(event.bond_amount) {
        Some(n) => n,
        None => {
            return None;
        },
    };
    Some(
        PositionDebit {
            block_number: block.number,
            timestamp: block.timestamp,
            base_amount,
            bond_amount,
        },
    )
}

/// The debit of an addition of liquidity.
fn adding_debit(event: &LiquidityEvent, block: &BlockContext) -> (d: LpDebit)
    ensures
        d == event.opening(*block),
{
    LpDebit {
        block_number: block.number,
        timestamp: block.timestamp,
        lp_amount: Int256::from_raw(event.lp_amount),
        base_amount: Int256::from_raw(event.base_amount),
    }
}

/// The debit of a removal of liquidity, where both amounts can be negated.
fn removing_debit(event: &LiquidityEvent, block: &BlockContext) -> (r: Option<LpDebit>)
    ensures
        r == if event.negatable() {
            Some(event.closing(*block))
        } else {
            None
        },
{
    let lp_amount = match negated(event.lp_amount) {
        Some(n) => n,
        None => {
            return None;
        },
    };
    let base_amount = match negated(event.base_amount) {
        Some(n) => n,
        None => {
            return None;
        },
    };
    Some(LpDebit { block_number: block.number, timestamp: block.timestamp, lp_amount, base_amount })
}

/// Records the opening of a long.
pub fn record_open_long(events: &mut Events, event: &PositionEvent, block: &BlockContext)
    ensures
        final(events)@ =~= old(events)@.open_long(*event, *block),
{
    let key = PositionKey { trader: event.trader, maturity_time: event.maturity_time };
    let debit = opening_debit(event, block);
    append_position(&mut events.longs, key, debit);
}

/// Records the closing of a long. A long that was never opened is an
/// error, and the state then stays as it was.
pub fn record_close_long(events: &mut Events, event: &PositionEvent, block: &BlockContext) -> (r:
    Result<(), LedgerError>)
    ensures
        match old(events)@.close_long(*event, *block) {
            Ok(after) => r is Ok && final(events)@ =~= after,
            Err(e) => r == Err::<(), LedgerError>(e) && final(events)@ =~= old(events)@,
        },
{
    let key = PositionKey { trader: event.trader, maturity_time: event.maturity_time };
    let debit = match closing_debit(event, block) {
        Some(d) => d,
        None => {
            return Err(LedgerError::AmountOverflow);
        },
    };
    if append_to_position(&mut events.longs, key, debit) {
        Ok(())
    } else {
        Err(LedgerError::MissingLong(key))
    }
}

/// Records the opening of a short and returns its key, for which the share
/// prices are then to be resolved.
pub fn record_open_short(events: &mut Events, event: &PositionEvent, block: &BlockContext) -> (key:
    PositionKey)
    ensures
        key == event.key(),
        final(events)@ =~= old(events)@.open_short(*event, *block),
{
    let key = PositionKey { trader: event.trader, maturity_time: event.maturity_time };
    let debit = opening_debit(event, block);
    append_position(&mut events.shorts, key, debit);
    key
}

/// Records the closing of a short. A short that was never opened is an
/// error, and the state then stays as it was.
pub fn record_close_short(events: &mut Events, event: &PositionEvent, block: &BlockContext) -> (r:
    Result<(), LedgerError>)
    ensures
        match old(events)@.close_short(*event, *block) {
            Ok(after) => r is Ok && final(events)@ =~= after,
            Err(e) => r == Err::<(), LedgerError>(e) && final(events)@ =~= old(events)@,
        },
{
    let key = PositionKey { trader: event.trader, maturity_time: event.maturity_time };
    let debit = match closing_debit(event, block) {
        Some(d) => d,
        None => {
            return Err(LedgerError::AmountOverflow);
        },
    };
    if append_to_position(&mut events.shorts, key, debit) {
        Ok(())
    } else {
        Err(LedgerError::MissingShort(key))
    }
}

/// Records the first liquidity of the pool.
pub fn record_initialize(events: &mut Events, event: &LiquidityEvent, block: &BlockContext)
    ensures
        final(events)@ =~= old(events)@.add_liquidity(*event, *block),
{
    let key = LpKey { provider: event.provider };
    let debit = adding_debit(event, block);
    append_lp(&mut events.lps, key, debit);
}

/// Records an addition of liquidity.
pub fn record_add_liquidity(events: &mut Events, event: &LiquidityEvent, block: &BlockContext)
    ensures
        final(events)@ =~= old(events)@.add_liquidity(*event, *block),
{
    let key = LpKey { provider: event.provider };
    let debit = adding_debit(event, block);
    append_lp(&mut events.lps, key, debit);
}

/// Records a removal of liquidity. A provider that never added any is an
/// error, and the state then stays as it was.
pub fn record_remove_liquidity(events: &mut Events, event: &LiquidityEvent, block: &BlockContext) -> (r:
    Result<(), LedgerError>)
    ensures
        match old(events)@.remove_liquidity(*event, *block) {
            Ok(after) => r is Ok && final(events)@ =~= after,
            Err(e) => r == Err::<(), LedgerError>(e) && final(events)@ =~= old(events)@,
        },
{
    let key = LpKey { provider: event.provider };
    let debit = match removing_debit(event, block) {
        Some(d) => d,
        None => {
            return Err(LedgerError::AmountOverflow);
        },
    };
    if append_to_lp(&mut events.lps, key, debit) {
        Ok(())
    } else {
        Err(LedgerError::MissingLp(key))
    }
}

/// Records one event of a page. For a short that was opened, the key
/// comes back: its share prices are to be resolved next. An event of a
/// kind that the ledgers do not follow changes nothing.
pub fn record_event(events: &mut Events, event: &PoolEvent, block: &BlockContext) -> (r: Result<
    Option<PositionKey>,
    LedgerError,
>)
    ensures
        match old(events)@.apply(*event, *block) {
            Ok(after) => final(events)@ =~= after && r == Ok::<Option<PositionKey>, LedgerError>(
                match *event {
                    PoolEvent::OpenShort(e) => Some(e.key()),
                    _ => None,
                },
            ),
            Err(e) => r == Err::<Option<PositionKey>, LedgerError>(e) && final(events)@ =~= old(
                events,
            )@,
        },
{
    match event {
        PoolEvent::OpenLong(e) => {
            record_open_long(events, e, block);
            Ok(None)
        },
        PoolEvent::CloseLong(e) => match record_close_long(events, e, block) {
            Ok(()) => Ok(None),
            Err(x) => Err(x),
        },
        PoolEvent::OpenShort(e) => {
            let key = record_open_short(events, e, block);
            Ok(Some(key))
        },
        PoolEvent::CloseShort(e) => match record_close_short(events, e, block) {
            Ok(()) => Ok(None),
            Err(x) => Err(x),
        },
        PoolEvent::Initialize(e) => {
            record_initialize(events, e, block);
            Ok(None)
        },
        PoolEvent::AddLiquidity(e) => {
            record_add_liquidity(events, e, block);
            Ok(None)
        },
        PoolEvent::RemoveLiquidity(e) => match record_remove_liquidity(events, e, block) {
            Ok(()) => Ok(None),
            Err(x) => Err(x),
        },
        PoolEvent::Other => Ok(None),
    }
}

/// The ledger of `key` in `m`; the empty ledger where `m` has none.
pub open spec fn ledger_of<K, D>(m: Map<K, Seq<D>>, key: K) -> Seq<D> {
    if m.contains_key(key) {
        m[key]
    } else {
        Seq::empty()
    }
}

/// The net base amount of a ledger of positions: the sum of its debits.
pub open spec fn net_base(ledger: Seq<PositionDebit>) -> int
    decreases ledger.len(),
{
    if ledger.len() == 0 {
        0
    } else {
        net_base(ledger.drop_last()) + ledger.last().base_amount@
    }
}

/// The net bond amount of a ledger of positions: the sum of its debits.
pub open spec fn net_bonds(ledger: Seq<PositionDebit>) -> int
    decreases ledger.len(),
{
    if ledger.len() == 0 {
        0
    } else {
        net_bonds(ledger.drop_last()) + ledger.last().bond_amount@
    }
}

/// The net amount of liquidity shares of a provider's ledger.
pub open spec fn net_lp_shares(ledger: Seq<LpDebit>) -> int
    decreases ledger.len(),
{
    if ledger.len() == 0 {
        0
    } else {
        net_lp_shares(ledger.drop_last()) + ledger.last().lp_amount@
    }
}

/// The net base amount of a provider's ledger.
pub open spec fn net_lp_base(ledger: Seq<LpDebit>) -> int
    decreases ledger.len(),
{
    if ledger.len() == 0 {
        0
    } else {
        net_lp_base(ledger.drop_last()) + ledger.last().base_amount@
    }
}

/// The state after a run of events, each with its block, recorded in
/// order; the first event that cannot be recorded is the error.
pub open spec fn apply_all(state: EventsView, events: Seq<(PoolEvent, BlockContext)>) -> Result<
    EventsView,
    LedgerError,
>
    decreases events.len(),
{
    if events.len() == 0 {
        Ok(state)
    } else {
        match apply_all(state, events.drop_last()) {
            Err(e) => Err(e),
            Ok(before) => before.apply(events.last().0, events.last().1),
        }
    }
}

/// What one event adds to the net base amount of the long of `key`: the
/// amount of an opening, the amount of a closing with the sign turned, and
/// nothing for any other event or key.
pub open spec fn long_base_delta(event: PoolEvent, key: PositionKey) -> int {
    match event {
        PoolEvent::OpenLong(e) => if e.key() == key {
            Int256::of_raw(e.base_amount)@
        } else {
            0
        },
        PoolEvent::CloseLong(e) => if e.key() == key {
            -Int256::of_raw(e.base_amount)@
        } else {
            0
        },
        _ => 0,
    }
}

/// The sum of what the events add to the net base amount of the long of
/// `key`.
pub open spec fn long_base_total(events: Seq<(PoolEvent, BlockContext)>, key: PositionKey) -> int
    decreases events.len(),
{
    if events.len() == 0 {
        0
    } else {
        long_base_total(events.drop_last(), key) + long_base_delta(events.last().0, key)
    }
}

/// Appending a debit puts it at the end of the ledger of its key and
/// leaves every other ledger alone.
pub proof fn lemma_appended<K, D>(m: Map<K, Seq<D>>, key: K, debit: D, other: K)
    ensures
        ledger_of(appended(m, key, debit), key) == ledger_of(m, key).push(debit),
        other != key ==> ledger_of(appended(m, key, debit), other) == ledger_of(m, other),
{
}

/// A debit that is appended adds its amounts to the net amounts.
pub proof fn lemma_net_push(ledger: Seq<PositionDebit>, debit: PositionDebit)
    ensures
        net_base(ledger.push(debit)) == net_base(ledger) + debit.base_amount@,
        net_bonds(ledger.push(debit)) == net_bonds(ledger) + debit.bond_amount@,
{
    assert(ledger.push(debit).drop_last() =~= ledger);
}

/// A debit that is appended adds its amounts to the net amounts.
pub proof fn lemma_net_lp_push(ledger: Seq<LpDebit>, debit: LpDebit)
    ensures
        net_lp_shares(ledger.push(debit)) == net_lp_shares(ledger) + debit.lp_amount@,
        net_lp_base(ledger.push(debit)) == net_lp_base(ledger) + debit.base_amount@,
{
    assert(ledger.push(debit).drop_last() =~= ledger);
}

/// The amounts of a closing debit are those of the event with the sign
/// turned.
pub proof fn lemma_closing_amounts(e: PositionEvent, l: LiquidityEvent, block: BlockContext)
    ensures
        e.negatable() ==> e.closing(block).base_amount@ == -Int256::of_raw(e.base_amount)@
            && e.closing(block).bond_amount@ == -Int256::of_raw(e.bond_amount)@,
        l.negatable() ==> l.closing(block).lp_amount@ == -Int256::of_raw(l.lp_amount)@
            && l.closing(block).base_amount@ == -Int256::of_raw(l.base_amount)@,
{
    let a = Int256::of_raw(e.base_amount);
    let b = Int256::of_raw(e.bond_amount);
    let c = Int256::of_raw(l.lp_amount);
    let d = Int256::of_raw(l.base_amount);
    crate::word::lemma_int256_view(a, b);
    crate::word::lemma_int256_view(c, d);
    if e.negatable() {
        crate::word::lemma_int256_of(-a@);
        crate::word::lemma_int256_of(-b@);
    }
    if l.negatable() {
        crate::word::lemma_int256_of(-c@);
        crate::word::lemma_int256_of(-d@);
    }
}

/// One event changes the net base amount of a long by the event's amount:
/// added by an opening, taken off by a closing; and a closing of a long
/// that has no ledger is refused with the key.
pub proof fn lemma_long_step(state: EventsView, event: PoolEvent, block: BlockContext, key: PositionKey)
    ensures
        state.apply(event, block) matches Ok(after) ==> net_base(ledger_of(after.longs, key))
            == net_base(ledger_of(state.longs, key)) + long_base_delta(event, key),
        event matches PoolEvent::CloseLong(e) ==> (e.negatable() && !state.longs.contains_key(
            e.key(),
        ) ==> state.apply(event, block) == Err::<EventsView, LedgerError>(
            LedgerError::MissingLong(e.key()),
        )),
{
    match event {
        PoolEvent::OpenLong(e) => {
            lemma_appended(state.longs, e.key(), e.opening(block), key);
            lemma_net_push(ledger_of(state.longs, e.key()), e.opening(block));
        },
        PoolEvent::CloseLong(e) => {
            if state.apply(event, block) is Ok {
                lemma_appended(state.longs, e.key(), e.closing(block), key);
                lemma_net_push(ledger_of(state.longs, e.key()), e.closing(block));
                lemma_closing_amounts(
                    e,
                    LiquidityEvent {
                        provider: e.trader,
                        lp_amount: e.base_amount,
                        base_amount: e.base_amount,
                    },
                    block,
                );
            }
        },
        _ => {},
    }
}

/// After any run of events that could all be recorded, the net base amount
/// of a long is what it was before plus the amounts of its openings less
/// the amounts of its closings.
pub proof fn lemma_long_net(
    state: EventsView,
    events: Seq<(PoolEvent, BlockContext)>,
    key: PositionKey,
)
    ensures
        apply_all(state, events) matches Ok(after) ==> net_base(ledger_of(after.longs, key))
            == net_base(ledger_of(state.longs, key)) + long_base_total(events, key),
    decreases events.len(),
{
    if events.len() > 0 {
        lemma_long_net(state, events.drop_last(), key);
        if let Ok(before) = apply_all(state, events.drop_last()) {
            lemma_long_step(before, events.last().0, events.last().1, key);
        }
    }
}

/// Every ledger of `m` lists its debits in the order of their blocks, and
/// none of them is of a block after `upto`.
pub open spec fn in_block_order<K, D>(m: Map<K, Seq<D>>, block_of: spec_fn(D) -> u64, upto: u64) -> bool {
    forall|k: K, i: int, j: int|
        m.contains_key(k) && 0 <= i <= j < m[k].len() ==> block_of(#[trigger] m[k][i]) <= block_of(
            #[trigger] m[k][j],
        ) <= upto
}

pub open spec fn position_block() -> spec_fn(PositionDebit) -> u64 {
    |d: PositionDebit| d.block_number
}

pub open spec fn lp_block() -> spec_fn(LpDebit) -> u64 {
    |d: LpDebit| d.block_number
}

impl EventsView {
    /// Every ledger of the state lists its debits in the order of their
    /// blocks, and none of them is of a block after `upto`.
    pub open spec fn in_block_order(self, upto: u64) -> bool {
        &&& in_block_order(self.longs, position_block(), upto)
        &&& in_block_order(self.shorts, position_block(), upto)
        &&& in_block_order(self.lps, lp_block(), upto)
    }
}

/// A debit of a block that is not before any block recorded so far keeps
/// the ledgers in the order of their blocks.
pub proof fn lemma_appended_in_order<K, D>(
    m: Map<K, Seq<D>>,
    block_of: spec_fn(D) -> u64,
    upto: u64,
    key: K,
    debit: D,
)
    requires
        in_block_order(m, block_of, upto),
        upto <= block_of(debit),
    ensures
        in_block_order(appended(m, key, debit), block_of, block_of(debit)),
{
    let after = appended(m, key, debit);
    assert forall|k: K, i: int, j: int|
        after.contains_key(k) && 0 <= i <= j < after[k].len() implies block_of(
        #[trigger] after[k][i],
    ) <= block_of(#[trigger] after[k][j]) <= block_of(debit) by {
        if k == key {
            let old_len = ledger_of(m, key).len();
            if j < old_len {
                assert(after[k][i] == m[k][i]);
                assert(after[k][j] == m[k][j]);
            } else if i < old_len {
                assert(after[k][i] == m[k][i]);
                assert(block_of(m[k][i]) <= block_of(m[k][i]) <= upto);
            }
        } else {
            assert(after[k] == m[k]);
        }
    }
}

/// While the events come in the order of their blocks, every ledger lists
/// its debits in the order of their blocks.
pub proof fn lemma_block_order(state: EventsView, upto: u64, event: PoolEvent, block: BlockContext)
    requires
        state.in_block_order(upto),
        upto <= block.number,
    ensures
        state.apply(event, block) matches Ok(after) ==> after.in_block_order(block.number),
{
    lemma_in_order_later(state.longs, position_block(), upto, block.number);
    lemma_in_order_later(state.shorts, position_block(), upto, block.number);
    lemma_in_order_later(state.lps, lp_block(), upto, block.number);
    match event {
        PoolEvent::OpenLong(e) => {
            lemma_appended_in_order(state.longs, position_block(), upto, e.key(), e.opening(block));
        },
        PoolEvent::CloseLong(e) => {
            lemma_appended_in_order(state.longs, position_block(), upto, e.key(), e.closing(block));
        },
        PoolEvent::OpenShort(e) => {
            lemma_appended_in_order(state.shorts, position_block(), upto, e.key(), e.opening(block));
        },
        PoolEvent::CloseShort(e) => {
            lemma_appended_in_order(state.shorts, position_block(), upto, e.key(), e.closing(block));
        },
        PoolEvent::Initialize(e) => {
            lemma_appended_in_order(state.lps, lp_block(), upto, e.key(), e.opening(block));
        },
        PoolEvent::AddLiquidity(e) => {
            lemma_appended_in_order(state.lps, lp_block(), upto, e.key(), e.opening(block));
        },
        PoolEvent::RemoveLiquidity(e) => {
            lemma_appended_in_order(state.lps, lp_block(), upto, e.key(), e.closing(block));
        },
        PoolEvent::Other => {},
    }
}

/// Ledgers that hold nothing after one block hold nothing after a later
/// one.
proof fn lemma_in_order_later<K, D>(m: Map<K, Seq<D>>, block_of: spec_fn(D) -> u64, upto: u64, later: u64)
    requires
        in_block_order(m, block_of, upto),
        upto <= later,
    ensures
        in_block_order(m, block_of, later),
{
    assert forall|k: K, i: int, j: int|
        m.contains_key(k) && 0 <= i <= j < m[k].len() implies block_of(#[trigger] m[k][i])
        <= block_of(#[trigger] m[k][j]) <= later by {
        assert(block_of(m[k][i]) <= block_of(m[k][j]) <= upto);
    }
}

} // verus!
