use hyperdrive_tracker::keys::{Address, PositionKey};
use hyperdrive_tracker::prices::{
    record_share_price, PriceError, PriceRequest, SharePriceResolution, Stage,
};
use hyperdrive_tracker::state::{Events, SharePrice};
use hyperdrive_tracker::word::Uint256;

fn short(maturity: u64) -> PositionKey {
    PositionKey { trader: Address { bytes: [7; 20] }, maturity_time: Uint256::from_u64(maturity) }
}

fn price_of(events: &Events, time: u64) -> Option<SharePrice> {
    events.share_prices.get(&Uint256::from_u64(time)).map(|p| *p)
}

/// Blocks 10..=14 with these timestamps; the price at block `b` is `1000 + b`.
const TIMES: [u64; 5] = [100, 112, 124, 136, 148];

fn resolve(events: &mut Events, resolution: &mut SharePriceResolution) -> Vec<PriceRequest> {
    let mut asked = Vec::new();
    loop {
        let request = resolution.request();
        asked.push(request);
        match request {
            PriceRequest::BlockTimestamp(b) => resolution.supply_timestamp(TIMES[(b - 10) as usize]),
            PriceRequest::SharePrice(b) => {
                resolution.supply_price(events, Uint256::from_u64(1000 + b))
            }
            PriceRequest::Done => return asked,
        }
    }
}

#[test]
fn first_price_of_a_checkpoint_stays() {
    let mut events = Events::new();
    let t = Uint256::from_u64(500);
    let first = SharePrice { block_num: 3, price: Uint256::from_u64(11) };
    let second = SharePrice { block_num: 4, price: Uint256::from_u64(12) };
    record_share_price(&mut events, t, first);
    record_share_price(&mut events, t, second);
    assert_eq!(price_of(&events, 500), Some(first));
    assert_eq!(events.share_prices.len(), 1);
    record_share_price(&mut events, Uint256::from_u64(501), second);
    assert_eq!(price_of(&events, 501), Some(second));
    assert_eq!(events.share_prices.len(), 2);
}

#[test]
fn open_checkpoint_is_maturity_less_duration() {
    let r = SharePriceResolution::new(&short(130), &Uint256::from_u64(20), 10, 14).unwrap();
    assert_eq!(r.open_time, Uint256::from_u64(110));
    assert_eq!(r.maturity_time, Uint256::from_u64(130));
    assert_eq!(r.stage, Stage::Open);
    assert_eq!(r.search.desired, 110);
    assert_eq!((r.search.low, r.search.high), (10, 14));
}

#[test]
fn open_checkpoint_borrows_across_limbs() {
    let key = PositionKey {
        trader: Address { bytes: [7; 20] },
        maturity_time: Uint256 { w0: 5, w1: 1, w2: 0, w3: 0 },
    };
    let duration = Uint256 { w0: 6, w1: 0, w2: 0, w3: 0 };
    assert_eq!(
        SharePriceResolution::new(&key, &duration, 10, 14),
        Err(PriceError::TimestampTooLarge)
    );
    let long = Uint256 { w0: 6, w1: 1, w2: 0, w3: 0 };
    assert_eq!(
        SharePriceResolution::new(&key, &long, 10, 14),
        Err(PriceError::DurationExceedsMaturity)
    );
}

#[test]
fn duration_beyond_maturity_is_an_error() {
    assert_eq!(
        SharePriceResolution::new(&short(130), &Uint256::from_u64(131), 10, 14),
        Err(PriceError::DurationExceedsMaturity)
    );
    assert!(SharePriceResolution::new(&short(130), &Uint256::from_u64(130), 10, 14).is_ok());
}

#[test]
fn both_checkpoints_are_priced_at_their_blocks() {
    let mut events = Events::new();
    let mut resolution =
        SharePriceResolution::new(&short(130), &Uint256::from_u64(20), 10, 14).unwrap();
    let asked = resolve(&mut events, &mut resolution);
    assert_eq!(
        price_of(&events, 110),
        Some(SharePrice { block_num: 10, price: Uint256::from_u64(1010) })
    );
    assert_eq!(
        price_of(&events, 130),
        Some(SharePrice { block_num: 12, price: Uint256::from_u64(1012) })
    );
    assert_eq!(events.share_prices.len(), 2);
    assert_eq!(resolution.stage, Stage::Done);
    assert_eq!(asked.last(), Some(&PriceRequest::Done));
    assert_eq!(asked.iter().filter(|r| matches!(r, PriceRequest::SharePrice(_))).count(), 2);
}

#[test]
fn checkpoints_outside_the_blocks_are_clamped() {
    let mut events = Events::new();
    let mut resolution =
        SharePriceResolution::new(&short(1000), &Uint256::from_u64(950), 10, 14).unwrap();
    resolve(&mut events, &mut resolution);
    assert_eq!(
        price_of(&events, 50),
        Some(SharePrice { block_num: 10, price: Uint256::from_u64(1010) })
    );
    assert_eq!(
        price_of(&events, 1000),
        Some(SharePrice { block_num: 14, price: Uint256::from_u64(1014) })
    );
}

#[test]
fn a_second_short_of_the_same_checkpoints_changes_nothing() {
    let mut events = Events::new();
    let taken = SharePrice { block_num: 1, price: Uint256::from_u64(1) };
    record_share_price(&mut events, Uint256::from_u64(110), taken);
    let mut resolution =
        SharePriceResolution::new(&short(130), &Uint256::from_u64(20), 10, 14).unwrap();
    resolve(&mut events, &mut resolution);
    assert_eq!(price_of(&events, 110), Some(taken));
    assert_eq!(
        price_of(&events, 130),
        Some(SharePrice { block_num: 12, price: Uint256::from_u64(1012) })
    );
    let mut again =
        SharePriceResolution::new(&short(130), &Uint256::from_u64(20), 10, 11).unwrap();
    resolve(&mut events, &mut again);
    assert_eq!(price_of(&events, 110), Some(taken));
    assert_eq!(
        price_of(&events, 130),
        Some(SharePrice { block_num: 12, price: Uint256::from_u64(1012) })
    );
    assert_eq!(events.share_prices.len(), 2);
}

#[test]
fn an_empty_block_range_asks_for_prices_at_its_start() {
    let mut events = Events::new();
    let mut resolution =
        SharePriceResolution::new(&short(130), &Uint256::from_u64(20), 10, 9).unwrap();
    assert_eq!(resolution.request(), PriceRequest::SharePrice(10));
    resolution.supply_price(&mut events, Uint256::from_u64(3));
    assert_eq!(resolution.request(), PriceRequest::SharePrice(10));
    resolution.supply_price(&mut events, Uint256::from_u64(4));
    assert_eq!(resolution.request(), PriceRequest::Done);
    assert_eq!(price_of(&events, 110), Some(SharePrice { block_num: 10, price: Uint256::from_u64(3) }));
    assert_eq!(price_of(&events, 130), Some(SharePrice { block_num: 10, price: Uint256::from_u64(4) }));
}
