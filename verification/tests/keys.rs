use hyperdrive_tracker::keys::{
    decode_time_key, encode_time_key, Address, KeyError, LpKey, PositionKey,
};
use hyperdrive_tracker::word::Uint256;

fn trader() -> Address {
    let mut bytes = [0u8; 20];
    for (i, b) in bytes.iter_mut().enumerate() {
        *b = (i as u8) * 13 + 1;
    }
    Address { bytes }
}

const TRADER_HEX: &str = "010e1b2835424f5c697683909daab7c4d1deebf8";

#[test]
fn position_key_encodes_to_lowercase_hex_with_dash() {
    let key = PositionKey { trader: trader(), maturity_time: Uint256::from_u64(0x6553f100) };
    assert_eq!(key.encode(), format!("0x{}-0x6553f100", TRADER_HEX));
}

#[test]
fn position_key_round_trips() {
    let key = PositionKey {
        trader: trader(),
        maturity_time: Uint256 { w0: 7, w1: 0, w2: 0xabc, w3: u64::MAX },
    };
    assert_eq!(PositionKey::decode(&key.encode()), Ok(key));
}

#[test]
fn zero_maturity_is_a_single_digit() {
    let key = PositionKey { trader: Address { bytes: [0u8; 20] }, maturity_time: Uint256::from_u64(0) };
    let text = key.encode();
    assert_eq!(text, "0x0000000000000000000000000000000000000000-0x0");
    assert_eq!(PositionKey::decode(&text), Ok(key));
}

#[test]
fn largest_maturity_round_trips() {
    let max = Uint256 { w0: u64::MAX, w1: u64::MAX, w2: u64::MAX, w3: u64::MAX };
    let key = PositionKey { trader: trader(), maturity_time: max };
    let text = key.encode();
    assert_eq!(text, format!("0x{}-0x{}", TRADER_HEX, "f".repeat(64)));
    assert_eq!(PositionKey::decode(&text), Ok(key));
}

#[test]
fn limbs_are_written_most_significant_first() {
    let key = PositionKey {
        trader: trader(),
        maturity_time: Uint256 { w0: 1, w1: 2, w2: 3, w3: 4 },
    };
    assert_eq!(
        key.encode(),
        format!("0x{}-0x4000000000000000300000000000000020000000000000001", TRADER_HEX)
    );
}

#[test]
fn decode_takes_uppercase_and_missing_prefixes() {
    let text = format!("{}-{}", TRADER_HEX.to_uppercase(), "FF");
    let key = PositionKey { trader: trader(), maturity_time: Uint256::from_u64(255) };
    assert_eq!(PositionKey::decode(&text), Ok(key));
}

#[test]
fn decode_passes_over_blanks_in_the_account() {
    let text = format!("0x{} {}\t-0x10", &TRADER_HEX[..10], &TRADER_HEX[10..]);
    let key = PositionKey { trader: trader(), maturity_time: Uint256::from_u64(16) };
    assert_eq!(PositionKey::decode(&text), Ok(key));
}

#[test]
fn decode_reads_an_empty_maturity_as_zero() {
    let text = format!("0x{}-", TRADER_HEX);
    let key = PositionKey { trader: trader(), maturity_time: Uint256::from_u64(0) };
    assert_eq!(PositionKey::decode(&text), Ok(key));
}

#[test]
fn decode_refuses_a_text_without_dash() {
    assert_eq!(PositionKey::decode(&format!("0x{}", TRADER_HEX)), Err(KeyError::Shape));
    assert_eq!(PositionKey::decode(""), Err(KeyError::Shape));
}

#[test]
fn decode_refuses_a_text_with_two_dashes() {
    let text = format!("0x{}-0x1-0x2", TRADER_HEX);
    assert_eq!(PositionKey::decode(&text), Err(KeyError::Shape));
}

#[test]
fn decode_refuses_a_bad_account() {
    assert_eq!(PositionKey::decode("0x1234-0x1"), Err(KeyError::Account));
    let text = format!("0x{}zz-0x1", &TRADER_HEX[..38]);
    assert_eq!(PositionKey::decode(&text), Err(KeyError::Account));
    let long = format!("0x{}00-0x1", TRADER_HEX);
    assert_eq!(PositionKey::decode(&long), Err(KeyError::Account));
}

#[test]
fn decode_refuses_a_bad_maturity() {
    let text = format!("0x{}-0xg", TRADER_HEX);
    assert_eq!(PositionKey::decode(&text), Err(KeyError::Maturity));
    let long = format!("0x{}-0x{}", TRADER_HEX, "1".repeat(65));
    assert_eq!(PositionKey::decode(&long), Err(KeyError::Maturity));
    let blank = format!("0x{}-0x1 ", TRADER_HEX);
    assert_eq!(PositionKey::decode(&blank), Err(KeyError::Maturity));
}

#[test]
fn decode_refuses_text_that_is_not_ascii() {
    let text = format!("0x{}-0x\u{e9}", TRADER_HEX);
    assert_eq!(PositionKey::decode(&text), Err(KeyError::Maturity));
    assert_eq!(PositionKey::decode("\u{e9}-0x1"), Err(KeyError::Account));
}

#[test]
fn account_error_comes_before_maturity_error() {
    assert_eq!(PositionKey::decode("0x12-0xzz"), Err(KeyError::Account));
}

#[test]
fn lp_key_round_trips() {
    let key = LpKey { provider: trader() };
    let text = key.encode();
    assert_eq!(text, format!("0x{}", TRADER_HEX));
    assert_eq!(LpKey::decode(&text), Ok(key));
}

#[test]
fn lp_key_refuses_a_position_key() {
    let text = format!("0x{}-0x1", TRADER_HEX);
    assert_eq!(LpKey::decode(&text), Err(KeyError::Account));
    assert_eq!(LpKey::decode(""), Err(KeyError::Account));
}

#[test]
fn address_encodes_with_prefix() {
    assert_eq!(trader().encode(), format!("0x{}", TRADER_HEX));
}

#[test]
fn time_key_round_trips() {
    let t = Uint256::from_u64(1_700_000_000);
    let text = encode_time_key(&t);
    assert_eq!(text, "0x6553f100");
    assert_eq!(decode_time_key(&text), Ok(t));
}

#[test]
fn time_key_refuses_what_is_no_number() {
    assert_eq!(decode_time_key("0x-1"), Err(KeyError::Timestamp));
    assert_eq!(decode_time_key("12 "), Err(KeyError::Timestamp));
    assert_eq!(decode_time_key("0x"), Ok(Uint256::from_u64(0)));
}
