use hyperdrive_tracker::keys::{Address, LpKey, PositionKey};
use hyperdrive_tracker::ledger::{
    record_add_liquidity, record_close_long, record_close_short, record_event, record_initialize,
    record_open_long, record_open_short, record_remove_liquidity, BlockContext, LedgerError,
    LiquidityEvent, PoolEvent, PositionEvent,
};
use hyperdrive_tracker::state::{Events, LpDebit, PositionDebit};
use hyperdrive_tracker::word::{negated, Int256, Uint256};

fn account(tag: u8) -> Address {
    Address { bytes: [tag; 20] }
}

fn position(tag: u8, maturity: u64, base: u64, bonds: u64) -> PositionEvent {
    PositionEvent {
        trader: account(tag),
        maturity_time: Uint256::from_u64(maturity),
        base_amount: Uint256::from_u64(base),
        bond_amount: Uint256::from_u64(bonds),
    }
}

fn liquidity(tag: u8, shares: u64, base: u64) -> LiquidityEvent {
    LiquidityEvent {
        provider: account(tag),
        lp_amount: Uint256::from_u64(shares),
        base_amount: Uint256::from_u64(base),
    }
}

fn block(number: u64) -> BlockContext {
    BlockContext { number, timestamp: Uint256::from_u64(1_700_000_000 + 12 * number) }
}

fn plus(x: u64) -> Int256 {
    Int256::from_raw(Uint256::from_u64(x))
}

fn minus(x: u64) -> Int256 {
    negated(Uint256::from_u64(x)).unwrap()
}

fn value(x: Int256) -> i128 {
    x.to_i128().unwrap()
}

fn min_raw() -> Uint256 {
    Uint256 { w0: 0, w1: 0, w2: 0, w3: 1 << 63 }
}

#[test]
fn negation_is_two_complement() {
    let n = minus(5);
    assert_eq!(n.raw, Uint256 { w0: u64::MAX - 4, w1: u64::MAX, w2: u64::MAX, w3: u64::MAX });
    assert_eq!(value(n), -5);
    assert_eq!(value(minus(0)), 0);
    assert_eq!(negated(n.raw), Some(plus(5)));
}

#[test]
fn the_least_amount_has_no_negation() {
    assert_eq!(negated(min_raw()), None);
    let almost = Uint256 { w0: 1, w1: 0, w2: 0, w3: 1 << 63 };
    let n = negated(almost).unwrap();
    assert_eq!(n.raw, Uint256 { w0: u64::MAX, w1: u64::MAX, w2: u64::MAX, w3: (1 << 63) - 1 });
}

#[test]
fn signed_reading_of_raw_words() {
    assert_eq!(value(plus(42)), 42);
    let all_ones = Uint256 { w0: u64::MAX, w1: u64::MAX, w2: u64::MAX, w3: u64::MAX };
    assert_eq!(value(Int256::from_raw(all_ones)), -1);
    assert_eq!(Int256::from_raw(min_raw()).to_i128(), None);
    let low = Uint256 { w0: 0, w1: 1 << 63, w2: u64::MAX, w3: u64::MAX };
    assert_eq!(Int256::from_raw(low).to_i128(), Some(i128::MIN));
    let high = Uint256 { w0: u64::MAX, w1: (1 << 63) - 1, w2: 0, w3: 0 };
    assert_eq!(Int256::from_raw(high).to_i128(), Some(i128::MAX));
    let over = Uint256 { w0: 0, w1: 1 << 63, w2: 0, w3: 0 };
    assert_eq!(Int256::from_raw(over).to_i128(), None);
}

#[test]
fn open_long_starts_a_ledger() {
    let mut events = Events::new();
    let e = position(1, 500, 100, 110);
    record_open_long(&mut events, &e, &block(7));
    let key = PositionKey { trader: account(1), maturity_time: Uint256::from_u64(500) };
    let ledger = events.longs.get(&key).unwrap().clone();
    assert_eq!(
        ledger,
        vec![PositionDebit {
            block_number: 7,
            timestamp: Uint256::from_u64(1_700_000_084),
            base_amount: plus(100),
            bond_amount: plus(110),
        }]
    );
    assert_eq!(events.longs.len(), 1);
    assert!(events.shorts.is_empty());
    assert!(events.lps.is_empty());
    assert!(events.share_prices.is_empty());
}

#[test]
fn open_then_close_appends_negated_amounts() {
    let mut events = Events::new();
    record_open_long(&mut events, &position(1, 500, 100, 110), &block(7));
    assert_eq!(record_close_long(&mut events, &position(1, 500, 40, 44), &block(9)), Ok(()));
    let key = PositionKey { trader: account(1), maturity_time: Uint256::from_u64(500) };
    let ledger = events.longs.get(&key).unwrap().clone();
    assert_eq!(ledger.len(), 2);
    assert_eq!(ledger[0].base_amount, plus(100));
    assert_eq!(ledger[1].block_number, 9);
    assert_eq!(ledger[1].base_amount, minus(40));
    assert_eq!(ledger[1].bond_amount, minus(44));
}

#[test]
fn ledger_sum_follows_opens_and_closes() {
    let mut events = Events::new();
    let amounts = [100u64, 30, 50, 120];
    for (i, a) in amounts.iter().enumerate() {
        let e = position(3, 900, *a, 2 * *a);
        if i % 2 == 0 {
            record_open_long(&mut events, &e, &block(10 + i as u64));
        } else {
            assert_eq!(record_close_long(&mut events, &e, &block(10 + i as u64)), Ok(()));
        }
    }
    let key = PositionKey { trader: account(3), maturity_time: Uint256::from_u64(900) };
    let ledger = events.longs.get(&key).unwrap().clone();
    let base: i128 = ledger.iter().map(|d| value(d.base_amount)).sum();
    let bonds: i128 = ledger.iter().map(|d| value(d.bond_amount)).sum();
    assert_eq!(base, 100 - 30 + 50 - 120);
    assert_eq!(bonds, 2 * (100 - 30 + 50 - 120));
    let blocks: Vec<u64> = ledger.iter().map(|d| d.block_number).collect();
    assert_eq!(blocks, vec![10, 11, 12, 13]);
}

#[test]
fn close_long_without_open_is_an_error() {
    let mut events = Events::new();
    record_open_long(&mut events, &position(1, 500, 100, 110), &block(7));
    let other = position(1, 501, 1, 1);
    let key = PositionKey { trader: account(1), maturity_time: Uint256::from_u64(501) };
    assert_eq!(
        record_close_long(&mut events, &other, &block(8)),
        Err(LedgerError::MissingLong(key))
    );
    assert_eq!(events.longs.len(), 1);
    assert!(events.longs.get(&key).is_none());
}

#[test]
fn close_short_without_open_is_an_error() {
    let mut events = Events::new();
    record_open_long(&mut events, &position(1, 500, 100, 110), &block(7));
    let key = PositionKey { trader: account(1), maturity_time: Uint256::from_u64(500) };
    assert_eq!(
        record_close_short(&mut events, &position(1, 500, 1, 1), &block(8)),
        Err(LedgerError::MissingShort(key))
    );
    assert!(events.shorts.is_empty());
}

#[test]
fn remove_liquidity_without_add_is_an_error() {
    let mut events = Events::new();
    assert_eq!(
        record_remove_liquidity(&mut events, &liquidity(4, 1, 1), &block(8)),
        Err(LedgerError::MissingLp(LpKey { provider: account(4) }))
    );
    assert!(events.lps.is_empty());
}

#[test]
fn closing_the_least_amount_is_an_overflow() {
    let mut events = Events::new();
    record_open_long(&mut events, &position(1, 500, 100, 110), &block(7));
    let mut e = position(1, 500, 1, 1);
    e.bond_amount = min_raw();
    assert_eq!(record_close_long(&mut events, &e, &block(8)), Err(LedgerError::AmountOverflow));
    let key = PositionKey { trader: account(1), maturity_time: Uint256::from_u64(500) };
    assert_eq!(events.longs.get(&key).unwrap().len(), 1);
    let mut missing = position(9, 9, 1, 1);
    missing.base_amount = min_raw();
    assert_eq!(
        record_close_short(&mut events, &missing, &block(8)),
        Err(LedgerError::AmountOverflow)
    );
}

#[test]
fn shorts_and_longs_are_kept_apart() {
    let mut events = Events::new();
    let key = record_open_short(&mut events, &position(2, 700, 10, 11), &block(3));
    assert_eq!(key, PositionKey { trader: account(2), maturity_time: Uint256::from_u64(700) });
    assert!(events.longs.is_empty());
    assert_eq!(record_close_short(&mut events, &position(2, 700, 4, 5), &block(4)), Ok(()));
    let ledger = events.shorts.get(&key).unwrap().clone();
    assert_eq!(ledger.len(), 2);
    assert_eq!(ledger[1].base_amount, minus(4));
    assert_eq!(ledger[1].bond_amount, minus(5));
}

#[test]
fn liquidity_is_added_and_removed() {
    let mut events = Events::new();
    record_initialize(&mut events, &liquidity(5, 1000, 1000), &block(1));
    record_add_liquidity(&mut events, &liquidity(5, 200, 210), &block(2));
    assert_eq!(record_remove_liquidity(&mut events, &liquidity(5, 300, 330), &block(3)), Ok(()));
    let ledger = events.lps.get(&LpKey { provider: account(5) }).unwrap().clone();
    assert_eq!(
        ledger,
        vec![
            LpDebit {
                block_number: 1,
                timestamp: Uint256::from_u64(1_700_000_012),
                lp_amount: plus(1000),
                base_amount: plus(1000),
            },
            LpDebit {
                block_number: 2,
                timestamp: Uint256::from_u64(1_700_000_024),
                lp_amount: plus(200),
                base_amount: plus(210),
            },
            LpDebit {
                block_number: 3,
                timestamp: Uint256::from_u64(1_700_000_036),
                lp_amount: minus(300),
                base_amount: minus(330),
            },
        ]
    );
}

#[test]
fn events_are_routed_by_kind() {
    let mut events = Events::new();
    let p = position(1, 500, 100, 110);
    let l = liquidity(2, 10, 10);
    assert_eq!(record_event(&mut events, &PoolEvent::Initialize(l), &block(1)), Ok(None));
    assert_eq!(record_event(&mut events, &PoolEvent::OpenLong(p), &block(2)), Ok(None));
    assert_eq!(
        record_event(&mut events, &PoolEvent::OpenShort(p), &block(3)),
        Ok(Some(PositionKey { trader: account(1), maturity_time: Uint256::from_u64(500) }))
    );
    assert_eq!(record_event(&mut events, &PoolEvent::AddLiquidity(l), &block(4)), Ok(None));
    assert_eq!(record_event(&mut events, &PoolEvent::CloseLong(p), &block(5)), Ok(None));
    assert_eq!(record_event(&mut events, &PoolEvent::CloseShort(p), &block(6)), Ok(None));
    assert_eq!(record_event(&mut events, &PoolEvent::RemoveLiquidity(l), &block(7)), Ok(None));
    assert_eq!(record_event(&mut events, &PoolEvent::Other, &block(8)), Ok(None));
    let key = PositionKey { trader: account(1), maturity_time: Uint256::from_u64(500) };
    assert_eq!(events.longs.get(&key).unwrap().len(), 2);
    assert_eq!(events.shorts.get(&key).unwrap().len(), 2);
    assert_eq!(events.lps.get(&LpKey { provider: account(2) }).unwrap().len(), 3);
}

#[test]
fn a_failed_event_is_reported_by_the_router() {
    let mut events = Events::new();
    let p = position(1, 500, 100, 110);
    let key = PositionKey { trader: account(1), maturity_time: Uint256::from_u64(500) };
    assert_eq!(
        record_event(&mut events, &PoolEvent::CloseLong(p), &block(5)),
        Err(LedgerError::MissingLong(key))
    );
    assert_eq!(
        record_event(&mut events, &PoolEvent::CloseShort(p), &block(5)),
        Err(LedgerError::MissingShort(key))
    );
    assert_eq!(
        record_event(&mut events, &PoolEvent::RemoveLiquidity(liquidity(1, 1, 1)), &block(5)),
        Err(LedgerError::MissingLp(LpKey { provider: account(1) }))
    );
    assert!(events.longs.is_empty() && events.shorts.is_empty() && events.lps.is_empty());
}

#[test]
fn errors_name_the_key() {
    let key = PositionKey { trader: account(0xab), maturity_time: Uint256::from_u64(16) };
    let text = "0xabababababababababababababababababababab";
    assert_eq!(
        LedgerError::MissingLong(key).describe(),
        format!("CloseLong position doesn't exist: \"{}-0x10\"", text)
    );
    assert_eq!(
        LedgerError::MissingShort(key).describe(),
        format!("CloseShort position doesn't exist: \"{}-0x10\"", text)
    );
    assert_eq!(
        LedgerError::MissingLp(LpKey { provider: account(0xab) }).describe(),
        format!("RemoveLiquidity position doesn't exist: \"{}\"", text)
    );
    assert_eq!(LedgerError::AmountOverflow.describe(), "overflow");
}
