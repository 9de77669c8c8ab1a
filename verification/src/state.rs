//! The indexer's state: the ledgers of longs, shorts and liquidity
//! positions, and the table of share prices.
//!
//! The four tables are `DashMap`s. Verus does not look inside one, so each
//! table has a specification function that names what it holds, and the
//! few map operations that the library uses are declared here with what
//! they do to those contents. They take the map by `&mut`: the library is
//! the only holder of its maps, and a change is then a change of value.

use crate::keys::{LpKey, PositionKey};
use crate::word::{Int256, Uint256};
use dashmap::DashMap;
use vstd::prelude::*;

verus! {

/// One signed entry of a long's or a short's ledger.
#[derive(Clone, Copy, Debug, PartialEq, Eq, Structural)]
pub struct PositionDebit {
    pub block_number: u64,
    pub timestamp: Uint256,
    pub base_amount: Int256,
    pub bond_amount: Int256,
}

/// One signed entry of a liquidity provider's ledger.
#[derive(Clone, Copy, Debug, PartialEq, Eq, Structural)]
pub struct LpDebit {
    pub block_number: u64,
    pub timestamp: Uint256,
    pub lp_amount: Int256,
    pub base_amount: Int256,
}

/// The vault share price as it stood at a block.
#[derive(Clone, Copy, Debug, PartialEq, Eq, Structural)]
pub struct SharePrice {
    pub block_num: u64,
    pub price: Uint256,
}

#[verifier::external_type_specification]
#[verifier::external_body]
#[verifier::reject_recursive_types(K)]
#[verifier::reject_recursive_types(V)]
#[verifier::reject_recursive_types(S)]
pub struct ExDashMap<K, V, S>(DashMap<K, V, S>);

/// The ledgers that a map of positions holds, by key.
pub uninterp spec fn position_ledgers(m: DashMap<PositionKey, Vec<PositionDebit>>) -> Map<
    PositionKey,
    Seq<PositionDebit>,
>;

/// The ledgers that a map of liquidity positions holds, by key.
pub uninterp spec fn lp_ledgers(m: DashMap<LpKey, Vec<LpDebit>>) -> Map<LpKey, Seq<LpDebit>>;

/// The share prices that a map holds, by checkpoint time.
pub uninterp spec fn price_table(m: DashMap<Uint256, SharePrice>) -> Map<Uint256, SharePrice>;

/// `entries` lists the ledgers of `m`: each key once, with its ledger.
pub open spec fn lists_ledgers<K, D>(entries: Seq<(K, Vec<D>)>, m: Map<K, Seq<D>>) -> bool {
    &&& forall|i: int| 0 <= i < entries.len() ==> m.contains_key(#[trigger] entries[i].0)
    &&& forall|i: int| 0 <= i < entries.len() ==> m[entries[i].0] == (#[trigger] entries[i]).1@
    &&& forall|i: int, j: int|
        0 <= i < j < entries.len() ==> (#[trigger] entries[i]).0 != (#[trigger] entries[j]).0
    &&& forall|k: K| m.contains_key(k) ==> exists|i: int| 0 <= i < entries.len() && (#[trigger] entries[i]).0 == k
}

/// `entries` lists the prices of `m`: each checkpoint time once, with its
/// price.
pub open spec fn lists_prices(entries: Seq<(Uint256, SharePrice)>, m: Map<Uint256, SharePrice>) -> bool {
    &&& forall|i: int| 0 <= i < entries.len() ==> m.contains_key(#[trigger] entries[i].0)
    &&& forall|i: int| 0 <= i < entries.len() ==> m[entries[i].0] == (#[trigger] entries[i]).1
    &&& forall|i: int, j: int|
        0 <= i < j < entries.len() ==> (#[trigger] entries[i]).0 != (#[trigger] entries[j]).0
    &&& forall|k: Uint256| m.contains_key(k) ==> exists|i: int| 0 <= i < entries.len() && (#[trigger] entries[i]).0 == k
}

/// Calls `DashMap::new`. The claim: the new map is empty.
#[verifier::external_body]
pub(crate) fn position_map_new() -> (m: DashMap<PositionKey, Vec<PositionDebit>>)
    ensures
        position_ledgers(m) == EventsView::empty().longs,
{
    DashMap::new()
}

/// Calls `DashMap::insert`. The claim: afterwards the map holds `ledger`
/// under `key`, in place of what it held there, and its other entries as
/// before.
#[verifier::external_body]
pub(crate) fn position_map_insert(
    m: &mut DashMap<PositionKey, Vec<PositionDebit>>,
    key: PositionKey,
    ledger: Vec<PositionDebit>,
)
    ensures
        position_ledgers(*final(m)) == position_ledgers(*old(m)).insert(key, ledger@),
{
    m.insert(key, ledger);
}

/// Calls `DashMap::remove`. The claim: it takes the entry of `key` out of
/// the map and returns its ledger, or returns `None` and leaves the map as
/// it was where the map has no such entry.
#[verifier::external_body]
pub(crate) fn position_map_remove(
    m: &mut DashMap<PositionKey, Vec<PositionDebit>>,
    key: &PositionKey,
) -> (r: Option<Vec<PositionDebit>>)
    ensures
        position_ledgers(*final(m)) == position_ledgers(*old(m)).remove(*key),
        match r {
            Some(ledger) => position_ledgers(*old(m)).contains_key(*key) && ledger@
                == position_ledgers(*old(m))[*key],
            None => !position_ledgers(*old(m)).contains_key(*key),
        },
{
    m.remove(key).map(|entry| entry.1)
}

/// Walks the map with `DashMap::iter`. The claim: every entry comes out
/// once, as a copy, in an order that is the map's own affair.
#[verifier::external_body]
pub(crate) fn position_map_entries(m: &DashMap<PositionKey, Vec<PositionDebit>>) -> (r: Vec<
    (PositionKey, Vec<PositionDebit>),
>)
    ensures
        lists_ledgers(r@, position_ledgers(*m)),
{
    m.iter().map(|entry| (*entry.key(), entry.value().clone())).collect()
}

/// Calls `DashMap::new`. The claim: the new map is empty.
#[verifier::external_body]
pub(crate) fn lp_map_new() -> (m: DashMap<LpKey, Vec<LpDebit>>)
    ensures
        lp_ledgers(m) == EventsView::empty().lps,
{
    DashMap::new()
}

/// Calls `DashMap::insert`. The claim: afterwards the map holds `ledger`
/// under `key`, in place of what it held there, and its other entries as
/// before.
#[verifier::external_body]
pub(crate) fn lp_map_insert(m: &mut DashMap<LpKey, Vec<LpDebit>>, key: LpKey, ledger: Vec<LpDebit>)
    ensures
        lp_ledgers(*final(m)) == lp_ledgers(*old(m)).insert(key, ledger@),
{
    m.insert(key, ledger);
}

/// Calls `DashMap::remove`. The claim: it takes the entry of `key` out of
/// the map and returns its ledger, or returns `None` and leaves the map as
/// it was where the map has no such entry.
#[verifier::external_body]
pub(crate) fn lp_map_remove(m: &mut DashMap<LpKey, Vec<LpDebit>>, key: &LpKey) -> (r: Option<
    Vec<LpDebit>,
>)
    ensures
        lp_ledgers(*final(m)) == lp_ledgers(*old(m)).remove(*key),
        match r {
            Some(ledger) => lp_ledgers(*old(m)).contains_key(*key) && ledger@ == lp_ledgers(
                *old(m),
            )[*key],
            None => !lp_ledgers(*old(m)).contains_key(*key),
        },
{
    m.remove(key).map(|entry| entry.1)
}

/// Walks the map with `DashMap::iter`. The claim: every entry comes out
/// once, as a copy, in an order that is the map's own affair.
#[verifier::external_body]
pub(crate) fn lp_map_entries(m: &DashMap<LpKey, Vec<LpDebit>>) -> (r: Vec<(LpKey, Vec<LpDebit>)>)
    ensures
        lists_ledgers(r@, lp_ledgers(*m)),
{
    m.iter().map(|entry| (*entry.key(), entry.value().clone())).collect()
}

/// Calls `DashMap::new`. The claim: the new map is empty.
#[verifier::external_body]
pub(crate) fn price_map_new() -> (m: DashMap<Uint256, SharePrice>)
    ensures
        price_table(m) == EventsView::empty().share_prices,
{
    DashMap::new()
}

/// Calls `DashMap::contains_key`. The claim: it says whether the map has
/// an entry for `key`.
#[verifier::external_body]
pub(crate) fn price_map_contains(m: &DashMap<Uint256, SharePrice>, key: &Uint256) -> (r: bool)
    ensures
        r == price_table(*m).contains_key(*key),
{
    m.contains_key(key)
}

/// Calls `DashMap::insert`. The claim: afterwards the map holds `price`
/// under `key`, in place of what it held there, and its other entries as
/// before.
#[verifier::external_body]
pub(crate) fn price_map_insert(m: &mut DashMap<Uint256, SharePrice>, key: Uint256, price: SharePrice)
    ensures
        price_table(*final(m)) == price_table(*old(m)).insert(key, price),
{
    m.insert(key, price);
}

/// Walks the map with `DashMap::iter`. The claim: every entry comes out
/// once, as a copy, in an order that is the map's own affair.
#[verifier::external_body]
pub(crate) fn price_map_entries(m: &DashMap<Uint256, SharePrice>) -> (r: Vec<(Uint256, SharePrice)>)
    ensures
        lists_prices(r@, price_table(*m)),
{
    m.iter().map(|entry| (*entry.key(), *entry.value())).collect()
}

/// Everything that the indexer has learnt from the events so far.
pub struct Events {
    pub longs: DashMap<PositionKey, Vec<PositionDebit>>,
    pub shorts: DashMap<PositionKey, Vec<PositionDebit>>,
    pub lps: DashMap<LpKey, Vec<LpDebit>>,
    pub share_prices: DashMap<Uint256, SharePrice>,
}

/// The state as mathematics: four maps.
#[verifier::ext_equal]
pub struct EventsView {
    pub longs: Map<PositionKey, Seq<PositionDebit>>,
    pub shorts: Map<PositionKey, Seq<PositionDebit>>,
    pub lps: Map<LpKey, Seq<LpDebit>>,
    pub share_prices: Map<Uint256, SharePrice>,
}

impl View for Events {
    type V = EventsView;

    open spec fn view(&self) -> EventsView {
        EventsView {
            longs: position_ledgers(self.longs),
            shorts: position_ledgers(self.shorts),
            lps: lp_ledgers(self.lps),
            share_prices: price_table(self.share_prices),
        }
    }
}

impl EventsView {
    /// The state before any event: no ledger and no price.
    pub open spec fn empty() -> EventsView {
        EventsView {
            longs: Map::empty(),
            shorts: Map::empty(),
            lps: Map::empty(),
            share_prices: Map::empty(),
        }
    }
}

impl Events {
    /// The state before any event.
    pub fn new() -> (events: Events)
        ensures
            events@ == EventsView::empty(),
    {
        Events {
            longs: position_map_new(),
            shorts: position_map_new(),
            lps: lp_map_new(),
            share_prices: price_map_new(),
        }
    }
}

} // verus!
