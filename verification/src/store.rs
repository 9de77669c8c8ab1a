//! The checkpoint: the whole state with the block at which it ends, in the
//! shape of the document that is written to disk.
//!
//! In the document each table is a list of entries whose keys are texts,
//! as the key codec writes them. Writing lists every entry of the state
//! once; reading decodes each key and refuses the document at the first
//! key that is none. What was written is read back as the same state.

use crate::keys::{
    address_text, decode_time_key, encode_time_key, lemma_lp_key_reads_back,
    lemma_position_key_reads_back, lemma_time_key_reads_back, position_key_text,
    read_lp_key, read_position_key, read_time_key, time_key_text, KeyError, LpKey, PositionKey,
};
use crate::state::{
    lp_ledgers, lp_map_entries, lp_map_insert, lp_map_new,
    position_ledgers, position_map_entries, position_map_insert, position_map_new,
    price_map_entries, price_map_insert, price_map_new, price_table, Events, EventsView, LpDebit,
    PositionDebit, SharePrice,
};
use crate::word::Uint256;
use dashmap::DashMap;
use vstd::prelude::*;

verus! {

/// The four tables of the state as lists of entries with text keys.
pub struct SerializableEvents {
    pub longs: Vec<(String, Vec<PositionDebit>)>,
    pub shorts: Vec<(String, Vec<PositionDebit>)>,
    pub lps: Vec<(String, Vec<LpDebit>)>,
    pub share_prices: Vec<(String, SharePrice)>,
}

/// A checkpoint: the state after every block before `end_block_num`.
pub struct EventsDb {
    pub end_block_num: u64,
    pub events: SerializableEvents,
}

/// Conversion between the state and its document form.
pub trait EventsSerializable: Sized {
    fn to_serializable(&self) -> SerializableEvents;

    fn from_serializable(sevents: SerializableEvents) -> Result<Self, KeyError>;
}

/// A list of ledgers as mathematics: key texts with sequences of debits.
pub open spec fn ledger_doc<D>(entries: Seq<(String, Vec<D>)>) -> Seq<(Seq<char>, Seq<D>)> {
    Seq::new(entries.len(), |i: int| (entries[i].0@, entries[i].1@))
}

/// A list of prices as mathematics: key texts with prices.
pub open spec fn price_doc(entries: Seq<(String, SharePrice)>) -> Seq<(Seq<char>, SharePrice)> {
    Seq::new(entries.len(), |i: int| (entries[i].0@, entries[i].1))
}

/// The table that a list of entries is read as: the entries are taken in
/// order, a later entry replaces an earlier one of the same key, and the
/// first key text that denotes no key makes the whole list unreadable.
pub open spec fn read_entries<K, V>(
    doc: Seq<(Seq<char>, V)>,
    read_key: spec_fn(Seq<char>) -> Result<K, KeyError>,
) -> Result<Map<K, V>, KeyError>
    decreases doc.len(),
{
    if doc.len() == 0 {
        Ok(Map::empty())
    } else {
        match read_entries(doc.drop_last(), read_key) {
            Err(e) => Err(e),
            Ok(m) => match read_key(doc.last().0) {
                Err(e) => Err(e),
                Ok(k) => Ok(m.insert(k, doc.last().1)),
            },
        }
    }
}

/// `entry` is an entry of the table `m` under the text of its key.
pub open spec fn is_entry_of<K, V>(entry: (Seq<char>, V), m: Map<K, V>, text: spec_fn(K) -> Seq<char>) -> bool {
    exists|k: K| #[trigger] m.contains_key(k) && text(k) == entry.0 && m[k] == entry.1
}

/// `doc` is a writing of the table `m`: each entry of `m` stands in it
/// once, under the text of its key, and nothing else does.
pub open spec fn writes<K, V>(doc: Seq<(Seq<char>, V)>, m: Map<K, V>, text: spec_fn(K) -> Seq<char>) -> bool {
    &&& forall|i: int| 0 <= i < doc.len() ==> is_entry_of(#[trigger] doc[i], m, text)
    &&& forall|i: int, j: int| 0 <= i < j < doc.len() ==> (#[trigger] doc[i]).0 != (#[trigger] doc[j]).0
    &&& forall|k: K| #[trigger]
        m.contains_key(k) ==> exists|i: int| 0 <= i < doc.len() && (#[trigger] doc[i]).0 == text(k)
}

pub open spec fn position_text() -> spec_fn(PositionKey) -> Seq<char> {
    |k: PositionKey| position_key_text(k@)
}

pub open spec fn lp_text() -> spec_fn(LpKey) -> Seq<char> {
    |k: LpKey| address_text(k@)
}

pub open spec fn time_text() -> spec_fn(Uint256) -> Seq<char> {
    |t: Uint256| time_key_text(t@)
}

pub open spec fn position_reader() -> spec_fn(Seq<char>) -> Result<PositionKey, KeyError> {
    |s: Seq<char>| read_position_key(s)
}

pub open spec fn lp_reader() -> spec_fn(Seq<char>) -> Result<LpKey, KeyError> {
    |s: Seq<char>| read_lp_key(s)
}

pub open spec fn time_reader() -> spec_fn(Seq<char>) -> Result<Uint256, KeyError> {
    |s: Seq<char>| read_time_key(s)
}

impl SerializableEvents {
    /// The document is a writing of `state`, table by table.
    pub open spec fn writes(self, state: EventsView) -> bool {
        &&& writes(ledger_doc(self.longs@), state.longs, position_text())
        &&& writes(ledger_doc(self.shorts@), state.shorts, position_text())
        &&& writes(ledger_doc(self.lps@), state.lps, lp_text())
        &&& writes(price_doc(self.share_prices@), state.share_prices, time_text())
    }

    /// The state that the document is read as; the tables are read in the
    /// order longs, shorts, liquidity, share prices, and the first key
    /// that is none is the error.
    pub open spec fn read(self) -> Result<EventsView, KeyError> {
        match read_entries(ledger_doc(self.longs@), position_reader()) {
            Err(e) => Err(e),
            Ok(longs) => match read_entries(ledger_doc(self.shorts@), position_reader()) {
                Err(e) => Err(e),
                Ok(shorts) => match read_entries(ledger_doc(self.lps@), lp_reader()) {
                    Err(e) => Err(e),
                    Ok(lps) => match read_entries(price_doc(self.share_prices@), time_reader()) {
                        Err(e) => Err(e),
                        Ok(share_prices) => Ok(EventsView { longs, shorts, lps, share_prices }),
                    },
                },
            },
        }
    }
}

/// The part of `m` whose keys stand among the first `n` entries of `doc`.
spec fn written_part<K, V>(
    doc: Seq<(Seq<char>, V)>,
    m: Map<K, V>,
    text: spec_fn(K) -> Seq<char>,
    n: int,
) -> Map<K, V> {
    Map::new(
        |k: K| m.contains_key(k) && exists|i: int| 0 <= i < n && (#[trigger] doc[i]).0 == text(k),
        |k: K| m[k],
    )
}

proof fn lemma_read_prefix<K, V>(
    doc: Seq<(Seq<char>, V)>,
    m: Map<K, V>,
    text: spec_fn(K) -> Seq<char>,
    read_key: spec_fn(Seq<char>) -> Result<K, KeyError>,
    n: int,
)
    requires
        writes(doc, m, text),
        forall|k: K| #[trigger] read_key(text(k)) == Ok::<K, KeyError>(k),
        0 <= n <= doc.len(),
    ensures
        read_entries(doc.take(n), read_key) == Ok::<Map<K, V>, KeyError>(
            written_part(doc, m, text, n),
        ),
    decreases n,
{
    if n == 0 {
        assert(written_part(doc, m, text, 0) =~= Map::<K, V>::empty());
    } else {
        lemma_read_prefix(doc, m, text, read_key, n - 1);
        let head = doc.take(n);
        assert(head.drop_last() =~= doc.take(n - 1));
        assert(head.last() == doc[n - 1]);
        assert(is_entry_of(doc[n - 1], m, text));
        let k = choose|k: K| #[trigger]
            m.contains_key(k) && text(k) == doc[n - 1].0 && m[k] == doc[n - 1].1;
        assert(read_key(text(k)) == Ok::<K, KeyError>(k));
        let before = written_part(doc, m, text, n - 1);
        let now = written_part(doc, m, text, n);
        assert forall|x: K| #[trigger] now.contains_key(x) <==> before.insert(k, m[k]).contains_key(x) by {
            if now.contains_key(x) {
                let i = choose|i: int| 0 <= i < n && (#[trigger] doc[i]).0 == text(x);
                if i == n - 1 {
                    assert(read_key(text(x)) == Ok::<K, KeyError>(x));
                    assert(x == k);
                }
            }
            if before.contains_key(x) {
                let i = choose|i: int| 0 <= i < n - 1 && (#[trigger] doc[i]).0 == text(x);
                assert(0 <= i < n && doc[i].0 == text(x));
            }
            if x == k {
                assert(doc[n - 1].0 == text(k));
            }
        }
        assert(now =~= before.insert(k, m[k]));
    }
}

/// What was written of a table is read back as that table, with any key
/// codec that reads back what it writes.
pub proof fn lemma_read_written<K, V>(
    doc: Seq<(Seq<char>, V)>,
    m: Map<K, V>,
    text: spec_fn(K) -> Seq<char>,
    read_key: spec_fn(Seq<char>) -> Result<K, KeyError>,
)
    requires
        writes(doc, m, text),
        forall|k: K| #[trigger] read_key(text(k)) == Ok::<K, KeyError>(k),
    ensures
        read_entries(doc, read_key) == Ok::<Map<K, V>, KeyError>(m),
{
    lemma_read_prefix(doc, m, text, read_key, doc.len() as int);
    assert(doc.take(doc.len() as int) =~= doc);
    assert(written_part(doc, m, text, doc.len() as int) =~= m);
}

/// A checkpoint document that was written of a state is read back as that
/// state: the same keys, the same ledgers in the same order, the same
/// share prices.
pub proof fn lemma_checkpoint_roundtrip(doc: SerializableEvents, state: EventsView)
    requires
        doc.writes(state),
    ensures
        doc.read() == Ok::<EventsView, KeyError>(state),
{
    assert forall|k: PositionKey| #[trigger]
        position_reader()(position_text()(k)) == Ok::<PositionKey, KeyError>(k) by {
        lemma_position_key_reads_back(k);
    }
    assert forall|k: LpKey| #[trigger] lp_reader()(lp_text()(k)) == Ok::<LpKey, KeyError>(k) by {
        lemma_lp_key_reads_back(k);
    }
    assert forall|t: Uint256| #[trigger] time_reader()(time_text()(t)) == Ok::<Uint256, KeyError>(t) by {
        lemma_time_key_reads_back(t);
    }
    lemma_read_written(ledger_doc(doc.longs@), state.longs, position_text(), position_reader());
    lemma_read_written(ledger_doc(doc.shorts@), state.shorts, position_text(), position_reader());
    lemma_read_written(ledger_doc(doc.lps@), state.lps, lp_text(), lp_reader());
    lemma_read_written(price_doc(doc.share_prices@), state.share_prices, time_text(), time_reader());
    assert(doc.read()->Ok_0 =~= state);
}

/// A copy of a ledger.
fn copied<D: Copy>(ledger: &Vec<D>) -> (r: Vec<D>)
    ensures
        r@ == ledger@,
{
    let mut r: Vec<D> = Vec::new();
    let mut i: usize = 0;
    while i < ledger.len()
        invariant
            i <= ledger.len(),
            r@ == ledger@.take(i as int),
        decreases ledger.len() - i,
    {
        r.push(ledger[i]);
        proof {
            assert(ledger@.take(i as int).push(ledger@[i as int]) =~= ledger@.take(i + 1));
        }
        i += 1;
    }
    proof {
        assert(ledger@.take(ledger@.len() as int) =~= ledger@);
    }
    r
}

/// Lists the ledgers of a table of positions under the texts of their
/// keys.
fn write_positions(m: &DashMap<PositionKey, Vec<PositionDebit>>) -> (r: Vec<
    (String, Vec<PositionDebit>),
>)
    ensures
        writes(ledger_doc(r@), position_ledgers(*m), position_text()),
{
    let entries = position_map_entries(m);
    let mut out: Vec<(String, Vec<PositionDebit>)> = Vec::new();
    let mut i: usize = 0;
    while i < entries.len()
        invariant
            i <= entries.len(),
            out.len() == i,
            forall|j: int|
                0 <= j < i ==> (#[trigger] out[j]).0@ == position_key_text(entries[j].0@)
                    && out[j].1@ == entries[j].1@,
        decreases entries.len() - i,
    {
        let key = entries[i].0.encode();
        let ledger = copied(&entries[i].1);
        out.push((key, ledger));
        i += 1;
    }
    proof {
        let doc = ledger_doc(out@);
        let table = position_ledgers(*m);
        assert forall|a: int| 0 <= a < doc.len() implies is_entry_of(
            #[trigger] doc[a],
            table,
            position_text(),
        ) by {
            let k = entries[a].0;
            assert(out[a].0@ == position_key_text(k@));
            assert(table.contains_key(k) && position_text()(k) == doc[a].0 && table[k]
                == doc[a].1);
        }
        assert forall|a: int, b: int| 0 <= a < b < doc.len() implies (#[trigger] doc[a]).0 != (
        #[trigger] doc[b]).0 by {
            let ka = entries[a].0;
            let kb = entries[b].0;
            assert(out[a].0@ == position_key_text(ka@));
            assert(out[b].0@ == position_key_text(kb@));
            lemma_position_key_reads_back(ka);
            lemma_position_key_reads_back(kb);
        }
        assert forall|k: PositionKey| #[trigger] table.contains_key(k) implies exists|a: int|
            0 <= a < doc.len() && (#[trigger] doc[a]).0 == position_text()(k) by {
            let a = choose|a: int| 0 <= a < entries.len() && (#[trigger] entries[a]).0 == k;
            assert(out[a].0@ == position_key_text(k@));
            assert(doc[a].0 == position_text()(k));
        }
    }
    out
}

/// Lists the ledgers of a table of liquidity positions under the texts of
/// their keys.
fn write_lps(m: &DashMap<LpKey, Vec<LpDebit>>) -> (r: Vec<(String, Vec<LpDebit>)>)
    ensures
        writes(ledger_doc(r@), lp_ledgers(*m), lp_text()),
{
    let entries = lp_map_entries(m);
    let mut out: Vec<(String, Vec<LpDebit>)> = Vec::new();
    let mut i: usize = 0;
    while i < entries.len()
        invariant
            i <= entries.len(),
            out.len() == i,
            forall|j: int|
                0 <= j < i ==> (#[trigger] out[j]).0@ == address_text(entries[j].0@) && out[j].1@
                    == entries[j].1@,
        decreases entries.len() - i,
    {
        let key = entries[i].0.encode();
        let ledger = copied(&entries[i].1);
        out.push((key, ledger));
        i += 1;
    }
    proof {
        let doc = ledger_doc(out@);
        let table = lp_ledgers(*m);
        assert forall|a: int| 0 <= a < doc.len() implies is_entry_of(
            #[trigger] doc[a],
            table,
            lp_text(),
        ) by {
            let k = entries[a].0;
            assert(out[a].0@ == address_text(k@));
            assert(table.contains_key(k) && lp_text()(k) == doc[a].0 && table[k] == doc[a].1);
        }
        assert forall|a: int, b: int| 0 <= a < b < doc.len() implies (#[trigger] doc[a]).0 != (
        #[trigger] doc[b]).0 by {
            let ka = entries[a].0;
            let kb = entries[b].0;
            assert(out[a].0@ == address_text(ka@));
            assert(out[b].0@ == address_text(kb@));
            lemma_lp_key_reads_back(ka);
            lemma_lp_key_reads_back(kb);
        }
        assert forall|k: LpKey| #[trigger] table.contains_key(k) implies exists|a: int|
            0 <= a < doc.len() && (#[trigger] doc[a]).0 == lp_text()(k) by {
            let a = choose|a: int| 0 <= a < entries.len() && (#[trigger] entries[a]).0 == k;
            assert(out[a].0@ == address_text(k@));
            assert(doc[a].0 == lp_text()(k));
        }
    }
    out
}

/// Lists the share prices of a table under the texts of their checkpoint
/// times.
fn write_prices(m: &DashMap<Uint256, SharePrice>) -> (r: Vec<(String, SharePrice)>)
    ensures
        writes(price_doc(r@), price_table(*m), time_text()),
{
    let entries = price_map_entries(m);
    let mut out: Vec<(String, SharePrice)> = Vec::new();
    let mut i: usize = 0;
    while i < entries.len()
        invariant
            i <= entries.len(),
            out.len() == i,
            forall|j: int|
                0 <= j < i ==> (#[trigger] out[j]).0@ == time_key_text(entries[j].0@) && out[j].1
                    == entries[j].1,
        decreases entries.len() - i,
    {
        let key = encode_time_key(&entries[i].0);
        let price = entries[i].1;
        out.push((key, price));
        i += 1;
    }
    proof {
        let doc = price_doc(out@);
        let table = price_table(*m);
        assert forall|a: int| 0 <= a < doc.len() implies is_entry_of(
            #[trigger] doc[a],
            table,
            time_text(),
        ) by {
            let k = entries[a].0;
            assert(out[a].0@ == time_key_text(k@));
            assert(table.contains_key(k) && time_text()(k) == doc[a].0 && table[k] == doc[a].1);
        }
        assert forall|a: int, b: int| 0 <= a < b < doc.len() implies (#[trigger] doc[a]).0 != (
        #[trigger] doc[b]).0 by {
            let ka = entries[a].0;
            let kb = entries[b].0;
            assert(out[a].0@ == time_key_text(ka@));
            assert(out[b].0@ == time_key_text(kb@));
            lemma_time_key_reads_back(ka);
            lemma_time_key_reads_back(kb);
        }
        assert forall|k: Uint256| #[trigger] table.contains_key(k) implies exists|a: int|
            0 <= a < doc.len() && (#[trigger] doc[a]).0 == time_text()(k) by {
            let a = choose|a: int| 0 <= a < entries.len() && (#[trigger] entries[a]).0 == k;
            assert(out[a].0@ == time_key_text(k@));
            assert(doc[a].0 == time_text()(k));
        }
    }
    out
}

/// Reads a table of positions from its list.
fn read_positions(entries: &Vec<(String, Vec<PositionDebit>)>) -> (r: Result<
    DashMap<PositionKey, Vec<PositionDebit>>,
    KeyError,
>)
    ensures
        match read_entries(ledger_doc(entries@), position_reader()) {
            Ok(table) => r matches Ok(m) && position_ledgers(m) == table,
            Err(e) => r matches Err(x) && x == e,
        },
{
    let mut m = position_map_new();
    let mut i: usize = 0;
    let ghost doc = ledger_doc(entries@);
    while i < entries.len()
        invariant
            i <= entries.len(),
            doc == ledger_doc(entries@),
            read_entries(doc.take(i as int), position_reader()) == Ok::<
                Map<PositionKey, Seq<PositionDebit>>,
                KeyError,
            >(position_ledgers(m)),
        decreases entries.len() - i,
    {
        proof {
            assert(doc.take(i + 1).drop_last() =~= doc.take(i as int));
            assert(doc.take(i + 1).last() == doc[i as int]);
        }
        match PositionKey::decode(entries[i].0.as_str()) {
            Ok(key) => {
                let ledger = copied(&entries[i].1);
                position_map_insert(&mut m, key, ledger);
            },
            Err(e) => {
                proof {
                    lemma_unreadable(doc, position_reader(), i + 1);
                }
                return Err(e);
            },
        }
        i += 1;
    }
    proof {
        assert(doc.take(doc.len() as int) =~= doc);
    }
    Ok(m)
}

/// Reads a table of liquidity positions from its list.
fn read_lps(entries: &Vec<(String, Vec<LpDebit>)>) -> (r: Result<
    DashMap<LpKey, Vec<LpDebit>>,
    KeyError,
>)
    ensures
        match read_entries(ledger_doc(entries@), lp_reader()) {
            Ok(table) => r matches Ok(m) && lp_ledgers(m) == table,
            Err(e) => r matches Err(x) && x == e,
        },
{
    let mut m = lp_map_new();
    let mut i: usize = 0;
    let ghost doc = ledger_doc(entries@);
    while i < entries.len()
        invariant
            i <= entries.len(),
            doc == ledger_doc(entries@),
            read_entries(doc.take(i as int), lp_reader()) == Ok::<
                Map<LpKey, Seq<LpDebit>>,
                KeyError,
            >(lp_ledgers(m)),
        decreases entries.len() - i,
    {
        proof {
            assert(doc.take(i + 1).drop_last() =~= doc.take(i as int));
            assert(doc.take(i + 1).last() == doc[i as int]);
        }
        match LpKey::decode(entries[i].0.as_str()) {
            Ok(key) => {
                let ledger = copied(&entries[i].1);
                lp_map_insert(&mut m, key, ledger);
            },
            Err(e) => {
                proof {
                    lemma_unreadable(doc, lp_reader(), i + 1);
                }
                return Err(e);
            },
        }
        i += 1;
    }
    proof {
        assert(doc.take(doc.len() as int) =~= doc);
    }
    Ok(m)
}

/// Reads a table of share prices from its list.
fn read_prices(entries: &Vec<(String, SharePrice)>) -> (r: Result<
    DashMap<Uint256, SharePrice>,
    KeyError,
>)
    ensures
        match read_entries(price_doc(entries@), time_reader()) {
            Ok(table) => r matches Ok(m) && price_table(m) == table,
            Err(e) => r matches Err(x) && x == e,
        },
{
    let mut m = price_map_new();
    let mut i: usize = 0;
    let ghost doc = price_doc(entries@);
    while i < entries.len()
        invariant
            i <= entries.len(),
            doc == price_doc(entries@),
            read_entries(doc.take(i as int), time_reader()) == Ok::<
                Map<Uint256, SharePrice>,
                KeyError,
            >(price_table(m)),
        decreases entries.len() - i,
    {
        proof {
            assert(doc.take(i + 1).drop_last() =~= doc.take(i as int));
            assert(doc.take(i + 1).last() == doc[i as int]);
        }
        match decode_time_key(entries[i].0.as_str()) {
            Ok(key) => {
                price_map_insert(&mut m, key, entries[i].1);
            },
            Err(e) => {
                proof {
                    lemma_unreadable(doc, time_reader(), i + 1);
                }
                return Err(e);
            },
        }
        i += 1;
    }
    proof {
        assert(doc.take(doc.len() as int) =~= doc);
    }
    Ok(m)
}

/// A list with an unreadable beginning is unreadable, with the same error.
proof fn lemma_unreadable<K, V>(
    doc: Seq<(Seq<char>, V)>,
    read_key: spec_fn(Seq<char>) -> Result<K, KeyError>,
    n: int,
)
    requires
        0 <= n <= doc.len(),
        read_entries(doc.take(n), read_key) is Err,
    ensures
        read_entries(doc, read_key) == read_entries(doc.take(n), read_key),
    decreases doc.len() - n,
{
    if n < doc.len() {
        assert(doc.take(n + 1).drop_last() =~= doc.take(n));
        lemma_unreadable(doc, read_key, n + 1);
    } else {
        assert(doc.take(n) =~= doc);
    }
}

impl EventsSerializable for Events {
    /// The state as a document: every entry of every table once, under the
    /// text of its key, in no particular order.
    fn to_serializable(&self) -> (doc: SerializableEvents)
        ensures
            doc.writes(self@),
    {
        SerializableEvents {
            longs: write_positions(&self.longs),
            shorts: write_positions(&self.shorts),
            lps: write_lps(&self.lps),
            share_prices: write_prices(&self.share_prices),
        }
    }

    /// The state that a document holds. A document with a key that the
    /// codec cannot read is refused.
    fn from_serializable(sevents: SerializableEvents) -> (r: Result<Events, KeyError>)
        ensures
            match sevents.read() {
                Ok(state) => r matches Ok(events) && events@ == state,
                Err(e) => r matches Err(x) && x == e,
            },
    {
        let longs = match read_positions(&sevents.longs) {
            Ok(m) => m,
            Err(e) => {
                return Err(e);
            },
        };
        let shorts = match read_positions(&sevents.shorts) {
            Ok(m) => m,
            Err(e) => {
                return Err(e);
            },
        };
        let lps = match read_lps(&sevents.lps) {
            Ok(m) => m,
            Err(e) => {
                return Err(e);
            },
        };
        let share_prices = match read_prices(&sevents.share_prices) {
            Ok(m) => m,
            Err(e) => {
                return Err(e);
            },
        };
        Ok(Events { longs, shorts, lps, share_prices })
    }
}

/// The checkpoint of `events` that ends at `end_block`.
pub fn write_eventsdb(events: &Events, end_block: u64) -> (db: EventsDb)
    ensures
        db.end_block_num == end_block,
        db.events.writes(events@),
{
    EventsDb { end_block_num: end_block, events: events.to_serializable() }
}

/// Where a run begins: with the state of the last checkpoint at the block
/// where that checkpoint ends, or, where there is no checkpoint, with the
/// empty state at the deployment block. A checkpoint that cannot be read
/// is an error; it is never taken for a missing one.
pub fn read_eventsdb(checkpoint: Option<EventsDb>, deploy_block: u64) -> (r: Result<
    (Events, u64),
    KeyError,
>)
    ensures
        match checkpoint {
            None => r matches Ok(begin) && begin.0@ == EventsView::empty() && begin.1
                == deploy_block,
            Some(db) => match db.events.read() {
                Ok(state) => r matches Ok(begin) && begin.0@ == state && begin.1
                    == db.end_block_num,
                Err(e) => r matches Err(x) && x == e,
            },
        },
{
    match checkpoint {
        None => Ok((Events::new(), deploy_block)),
        Some(db) => {
            let end_block = db.end_block_num;
            match Events::from_serializable(db.events) {
                Ok(events) => Ok((events, end_block)),
                Err(e) => Err(e),
            }
        },
    }
}

} // verus!
