use hyperdrive_tracker::keys::{Address, KeyError, LpKey, PositionKey};
use hyperdrive_tracker::ledger::{
    record_add_liquidity, record_close_long, record_open_long, record_open_short, BlockContext,
    LiquidityEvent, PositionEvent,
};
use hyperdrive_tracker::prices::record_share_price;
use hyperdrive_tracker::scheduler::{PageScheduler, SchedulerAction, SchedulerEvent};
use hyperdrive_tracker::state::{Events, LpDebit, PositionDebit, SharePrice};
use hyperdrive_tracker::store::{
    read_eventsdb, write_eventsdb, EventsDb, EventsSerializable, SerializableEvents,
};
use hyperdrive_tracker::word::{Int256, Uint256};

fn account(tag: u8) -> Address {
    Address { bytes: [tag; 20] }
}

fn position(tag: u8, maturity: u64, base: u64, bonds: u64) -> PositionEvent {
    PositionEvent {
        trader: account(tag),
        maturity_time: Uint256::from_u64(maturity),
        base_amount: Uint256::from_u64(base),
        bond_amount: Uint256::from_u64(bonds),
    }
}

fn block(number: u64) -> BlockContext {
    BlockContext { number, timestamp: Uint256::from_u64(1000 + number) }
}

/// The event of block `b` of a made-up chain, recorded into `events`.
fn record_block(events: &mut Events, b: u64) {
    let tag = (b % 3) as u8;
    let e = position(tag, 5000 + b % 2, 10 + b, 20 + b);
    match b % 4 {
        0 => record_open_long(events, &e, &block(b)),
        1 => {
            record_open_short(events, &e, &block(b));
            let price = SharePrice { block_num: b, price: Uint256::from_u64(b * 7) };
            record_share_price(events, Uint256::from_u64(5000 + b % 5), price);
        }
        2 => {
            let l = LiquidityEvent {
                provider: account(tag),
                lp_amount: Uint256::from_u64(b),
                base_amount: Uint256::from_u64(b + 1),
            };
            record_add_liquidity(events, &l, &block(b));
        }
        _ => {
            let _ = record_close_long(events, &e, &block(b));
        }
    }
}

fn sorted<T>(mut entries: Vec<(String, T)>) -> Vec<(String, T)> {
    entries.sort_by(|a, b| a.0.cmp(&b.0));
    entries
}

fn snapshot(
    events: &Events,
) -> (
    Vec<(String, Vec<PositionDebit>)>,
    Vec<(String, Vec<PositionDebit>)>,
    Vec<(String, Vec<LpDebit>)>,
    Vec<(String, SharePrice)>,
) {
    let doc = events.to_serializable();
    (sorted(doc.longs), sorted(doc.shorts), sorted(doc.lps), sorted(doc.share_prices))
}

fn populated() -> Events {
    let mut events = Events::new();
    for b in 0..24 {
        record_block(&mut events, b);
    }
    events
}

#[test]
fn document_lists_every_entry_under_its_key_text() {
    let mut events = Events::new();
    record_open_long(&mut events, &position(0x11, 255, 100, 110), &block(7));
    record_open_long(&mut events, &position(0x11, 255, 1, 2), &block(8));
    record_open_short(&mut events, &position(0x22, 16, 5, 6), &block(9));
    record_share_price(
        &mut events,
        Uint256::from_u64(4096),
        SharePrice { block_num: 3, price: Uint256::from_u64(99) },
    );
    let doc = events.to_serializable();
    assert_eq!(doc.longs.len(), 1);
    assert_eq!(doc.longs[0].0, "0x1111111111111111111111111111111111111111-0xff");
    assert_eq!(doc.longs[0].1.len(), 2);
    assert_eq!(doc.longs[0].1[1].base_amount, Int256::from_raw(Uint256::from_u64(1)));
    assert_eq!(doc.shorts.len(), 1);
    assert_eq!(doc.shorts[0].0, "0x2222222222222222222222222222222222222222-0x10");
    assert!(doc.lps.is_empty());
    assert_eq!(
        doc.share_prices,
        vec![("0x1000".to_string(), SharePrice { block_num: 3, price: Uint256::from_u64(99) })]
    );
}

#[test]
fn a_populated_state_survives_the_document() {
    let events = populated();
    let before = snapshot(&events);
    assert!(before.0.len() > 1 && before.1.len() > 1 && before.2.len() > 1 && before.3.len() > 1);
    let back = Events::from_serializable(events.to_serializable()).ok().unwrap();
    assert_eq!(snapshot(&back), before);
    assert_eq!(back.longs.len(), events.longs.len());
    for entry in events.longs.iter() {
        assert_eq!(*back.longs.get(entry.key()).unwrap(), *entry.value());
    }
    for entry in events.lps.iter() {
        assert_eq!(*back.lps.get(entry.key()).unwrap(), *entry.value());
    }
    for entry in events.share_prices.iter() {
        assert_eq!(*back.share_prices.get(entry.key()).unwrap(), *entry.value());
    }
}

#[test]
fn an_empty_state_gives_an_empty_document() {
    let doc = Events::new().to_serializable();
    assert!(doc.longs.is_empty() && doc.shorts.is_empty());
    assert!(doc.lps.is_empty() && doc.share_prices.is_empty());
    let back = Events::from_serializable(doc).ok().unwrap();
    assert!(back.longs.is_empty() && back.share_prices.is_empty());
}

#[test]
fn a_checkpoint_carries_its_end_block() {
    let db = write_eventsdb(&populated(), 4242);
    assert_eq!(db.end_block_num, 4242);
    let (events, start) = read_eventsdb(Some(db), 17).ok().unwrap();
    assert_eq!(start, 4242);
    assert_eq!(snapshot(&events), snapshot(&populated()));
}

#[test]
fn without_checkpoint_the_run_starts_fresh_at_deployment() {
    let (events, start) = read_eventsdb(None, 17).ok().unwrap();
    assert_eq!(start, 17);
    assert!(events.longs.is_empty() && events.shorts.is_empty());
    assert!(events.lps.is_empty() && events.share_prices.is_empty());
}

fn empty_doc() -> SerializableEvents {
    SerializableEvents { longs: vec![], shorts: vec![], lps: vec![], share_prices: vec![] }
}

#[test]
fn a_document_with_a_bad_key_is_refused() {
    let mut doc = empty_doc();
    doc.longs.push(("0x11-0x1".to_string(), vec![]));
    assert_eq!(Events::from_serializable(doc).err(), Some(KeyError::Account));

    let mut doc = empty_doc();
    doc.shorts.push(("nothing".to_string(), vec![]));
    assert_eq!(Events::from_serializable(doc).err(), Some(KeyError::Shape));

    let mut doc = empty_doc();
    doc.lps.push(("0x11".to_string(), vec![]));
    assert_eq!(Events::from_serializable(doc).err(), Some(KeyError::Account));

    let mut doc = empty_doc();
    let price = SharePrice { block_num: 1, price: Uint256::from_u64(1) };
    doc.share_prices.push(("0xzz".to_string(), price));
    assert_eq!(Events::from_serializable(doc).err(), Some(KeyError::Timestamp));

    let db = EventsDb { end_block_num: 5, events: {
        let mut doc = empty_doc();
        doc.longs.push((format!("0x{}-0xq", "11".repeat(20)), vec![]));
        doc
    } };
    assert_eq!(read_eventsdb(Some(db), 1).err(), Some(KeyError::Maturity));
}

#[test]
fn the_first_bad_key_is_the_error() {
    let mut doc = empty_doc();
    doc.longs.push((format!("0x{}-0x1", "11".repeat(20)), vec![]));
    doc.longs.push((format!("0x{}-0xq", "11".repeat(20)), vec![]));
    doc.longs.push(("bad".to_string(), vec![]));
    doc.share_prices.push(("?".to_string(), SharePrice { block_num: 1, price: Uint256::from_u64(1) }));
    assert_eq!(Events::from_serializable(doc).err(), Some(KeyError::Maturity));
}

#[test]
fn a_later_entry_of_the_same_key_replaces_the_earlier() {
    let debit = |n: u64| PositionDebit {
        block_number: n,
        timestamp: Uint256::from_u64(n),
        base_amount: Int256::from_raw(Uint256::from_u64(n)),
        bond_amount: Int256::from_raw(Uint256::from_u64(n)),
    };
    let mut doc = empty_doc();
    doc.longs.push((format!("0x{}-0x01", "ab".repeat(20)), vec![debit(1)]));
    doc.longs.push((format!("{}-1", "AB".repeat(20)), vec![debit(2), debit(3)]));
    let events = Events::from_serializable(doc).ok().unwrap();
    let key = PositionKey { trader: account(0xab), maturity_time: Uint256::from_u64(1) };
    assert_eq!(events.longs.len(), 1);
    assert_eq!(*events.longs.get(&key).unwrap(), vec![debit(2), debit(3)]);
}

#[test]
fn liquidity_keys_are_read_back() {
    let mut events = Events::new();
    let l = LiquidityEvent {
        provider: account(0x5c),
        lp_amount: Uint256::from_u64(3),
        base_amount: Uint256::from_u64(4),
    };
    record_add_liquidity(&mut events, &l, &block(2));
    let doc = events.to_serializable();
    assert_eq!(doc.lps[0].0, format!("0x{}", "5c".repeat(20)));
    let back = Events::from_serializable(doc).ok().unwrap();
    assert_eq!(back.lps.get(&LpKey { provider: account(0x5c) }).unwrap().len(), 1);
}

/// Processes pages until the target or until `stop_after` pages are done,
/// and returns the checkpoint that was written last.
fn run(checkpoint: Option<EventsDb>, target: u64, size: u64, stop_after: usize) -> Option<EventsDb> {
    let mut scheduler = PageScheduler::new(target, size).unwrap();
    let mut events = Events::new();
    let mut last = None;
    let mut given = checkpoint;
    let mut done = 0;
    loop {
        match scheduler.action() {
            SchedulerAction::LoadCheckpoint => {
                let (state, start) = read_eventsdb(given.take(), 0).ok().unwrap();
                events = state;
                last = Some(write_eventsdb(&events, start));
                scheduler.step(SchedulerEvent::Resumed(start));
            }
            SchedulerAction::ProcessPage { from_block, to_block } => {
                if done == stop_after {
                    return last;
                }
                for b in from_block..=to_block {
                    record_block(&mut events, b);
                }
                scheduler.step(SchedulerEvent::PageProcessed);
            }
            SchedulerAction::WriteCheckpoint { end_block } => {
                last = Some(write_eventsdb(&events, end_block));
                done += 1;
                scheduler.step(SchedulerEvent::CheckpointWritten);
            }
            SchedulerAction::Finish | SchedulerAction::Abort => return last,
        }
    }
}

#[test]
fn a_run_in_two_parts_ends_in_the_same_state() {
    let whole = run(None, 50, 7, usize::MAX).unwrap();
    assert_eq!(whole.end_block_num, 50);
    let (whole_state, _) = read_eventsdb(Some(whole), 0).ok().unwrap();
    for stop_after in 0..8 {
        let first = run(None, 50, 7, stop_after).unwrap();
        assert_eq!(first.end_block_num, (7 * stop_after as u64).min(50));
        let second = run(Some(first), 50, 7, usize::MAX).unwrap();
        assert_eq!(second.end_block_num, 50);
        let (state, _) = read_eventsdb(Some(second), 0).ok().unwrap();
        assert_eq!(snapshot(&state), snapshot(&whole_state));
    }
}
