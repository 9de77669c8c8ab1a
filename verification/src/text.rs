//! Values as text for people: timestamps as dates, and amounts as decimal
//! numbers without needless zeros.
//!
//! Calendar arithmetic and decimal rounding are the work of `chrono` and
//! `rust_decimal`. What they return is a function of what they are given,
//! so each result has a name here, and the functions of this module state
//! their results over those names.

use crate::word::{Int256, Uint256};
use chrono::{TimeZone, Utc};
use vstd::prelude::*;

verus! {

/// The number of decimal places that a raw amount has.
pub const DECIMAL_SCALE: u32 = 18;

/// The number of decimal places that a normalized amount keeps.
pub const DECIMAL_PRECISION: u32 = 6;

/// The first second of the earliest date that can be written.
pub const MIN_DATE_SECONDS: i64 = -8334601228800;

/// The last second of the latest date that can be written.
pub const MAX_DATE_SECONDS: i64 = 8210266876799;

/// The largest mantissa of a decimal number: 96 bits.
pub const MAX_MANTISSA: i128 = 0xFFFF_FFFF_FFFF_FFFF_FFFF_FFFF;

/// The largest scale of a decimal number.
pub const MAX_SCALE: u32 = 28;

/// A decimal number: a mantissa of at most 96 bits, divided by ten to the
/// power of a scale of at most 28.
#[derive(Clone, Copy, Debug, PartialEq, Eq, Structural)]
pub struct Decimal {
    mantissa: i128,
    scale: u32,
}

/// The RFC 3339 text, in UTC, of the moment `secs` seconds after the start
/// of 1970.
pub uninterp spec fn rfc3339_text(secs: int) -> Seq<char>;

/// The date of that moment in UTC, as year, month and day with dashes
/// between.
pub uninterp spec fn date_text(secs: int) -> Seq<char>;

/// The text of a decimal number, with as many decimal places as its scale.
pub uninterp spec fn decimal_string(mantissa: int, scale: nat) -> Seq<char>;

/// The mantissa and scale of a decimal number after rounding to `dp`
/// decimal places, halves to the even neighbour.
pub uninterp spec fn decimal_rounded(mantissa: int, scale: nat, dp: nat) -> (int, nat);

/// The seconds that a 64-bit timestamp stands for when its bits are read as
/// signed.
pub open spec fn seconds_of(timestamp: nat) -> int {
    if timestamp <= i64::MAX {
        timestamp as int
    } else {
        timestamp - 0x1_0000_0000_0000_0000
    }
}

/// The timestamp is one of a date that can be written.
pub open spec fn is_date_time(timestamp: nat) -> bool {
    timestamp <= u64::MAX && MIN_DATE_SECONDS <= seconds_of(timestamp) <= MAX_DATE_SECONDS
}

/// A mantissa and a scale that make a decimal number.
pub open spec fn is_decimal(mantissa: int, scale: nat) -> bool {
    scale <= MAX_SCALE && -MAX_MANTISSA <= mantissa <= MAX_MANTISSA
}

impl View for Decimal {
    type V = (int, nat);

    /// The mantissa and the scale.
    closed spec fn view(&self) -> (int, nat) {
        (self.mantissa as int, self.scale as nat)
    }
}

impl Decimal {
    #[verifier::type_invariant]
    spec fn valid(self) -> bool {
        is_decimal(self.mantissa as int, self.scale as nat)
    }

    /// The decimal number of the given mantissa and scale, if they make
    /// one.
    pub fn new(mantissa: i128, scale: u32) -> (r: Option<Decimal>)
        ensures
            match r {
                Some(d) => is_decimal(mantissa as int, scale as nat) && d@ == (
                    mantissa as int,
                    scale as nat,
                ),
                None => !is_decimal(mantissa as int, scale as nat),
            },
    {
        if scale <= MAX_SCALE && -MAX_MANTISSA <= mantissa && mantissa <= MAX_MANTISSA {
            Some(Decimal { mantissa, scale })
        } else {
            None
        }
    }

    pub fn mantissa(&self) -> (m: i128)
        ensures
            m == self@.0,
    {
        self.mantissa
    }

    pub fn scale(&self) -> (s: u32)
        ensures
            s == self@.1,
    {
        self.scale
    }
}

/// Calls `Utc.timestamp_opt(secs, 0)` and `DateTime::to_rfc3339`. The
/// claim: for seconds within the range of dates the text is the one that
/// the name stands for, whenever and wherever it is asked.
#[verifier::external_body]
fn utc_rfc3339(secs: i64) -> (r: String)
    requires
        MIN_DATE_SECONDS <= secs <= MAX_DATE_SECONDS,
    ensures
        r@ == rfc3339_text(secs as int),
{
    Utc.timestamp_opt(secs, 0).single().unwrap().to_rfc3339()
}

/// Calls `Utc.timestamp_opt(secs, 0)` and formats with `%Y-%m-%d`. The
/// claim: for seconds within the range of dates the text is the one that
/// the name stands for, whenever and wherever it is asked.
#[verifier::external_body]
fn utc_date(secs: i64) -> (r: String)
    requires
        MIN_DATE_SECONDS <= secs <= MAX_DATE_SECONDS,
    ensures
        r@ == date_text(secs as int),
{
    Utc.timestamp_opt(secs, 0).single().unwrap().format("%Y-%m-%d").to_string()
}

/// Calls `Decimal::from_i128_with_scale` and `to_string`. The claim: the
/// text is the one that the name stands for. A decimal number of this
/// library is always one that the outside type takes.
#[verifier::external_body]
fn decimal_to_string(d: &Decimal) -> (r: String)
    ensures
        r@ == decimal_string(d@.0, d@.1),
{
    rust_decimal::Decimal::from_i128_with_scale(d.mantissa, d.scale).to_string()
}

/// Calls `Decimal::from_i128_with_scale` and `round_dp`. The claim: the
/// result is the rounded number that the name stands for.
#[verifier::external_body]
fn decimal_round_dp(d: &Decimal, dp: u32) -> (r: Decimal)
    ensures
        r@ == decimal_rounded(d@.0, d@.1, dp as nat),
{
    let rounded = rust_decimal::Decimal::from_i128_with_scale(d.mantissa, d.scale).round_dp(dp);
    Decimal { mantissa: rounded.mantissa(), scale: rounded.scale() }
}

/// The seconds of a timestamp that `is_date_time`.
fn signed_seconds(timestamp: &Uint256) -> (secs: i64)
    requires
        is_date_time(timestamp@),
    ensures
        secs == seconds_of(timestamp@),
{
    let t = timestamp.w0;
    proof {
        crate::word::lemma_uint256_view(*timestamp, *timestamp);
        assert(timestamp.w1 == 0 && timestamp.w2 == 0 && timestamp.w3 == 0);
    }
    if t <= 0x7fff_ffff_ffff_ffff {
        t as i64
    } else {
        -((u64::MAX - t) as i64) - 1
    }
}

/// The moment of a timestamp as RFC 3339 text in UTC.
pub fn timestamp_to_string(timestamp: Uint256) -> (r: String)
    requires
        is_date_time(timestamp@),
    ensures
        r@ == rfc3339_text(seconds_of(timestamp@)),
{
    utc_rfc3339(signed_seconds(&timestamp))
}

/// The day of a timestamp in UTC, as `YYYY-MM-DD`.
pub fn timestamp_to_date_string(timestamp: Uint256) -> (r: String)
    requires
        is_date_time(timestamp@),
    ensures
        r@ == date_text(seconds_of(timestamp@)),
{
    utc_date(signed_seconds(&timestamp))
}

/// The length of `s` without its trailing zeros.
pub open spec fn trimmed_len(s: Seq<char>) -> nat
    decreases s.len(),
{
    if s.len() > 0 && s.last() == '0' {
        trimmed_len(s.drop_last())
    } else {
        s.len()
    }
}

/// The text of a number without the zeros that end its decimal places, and
/// without the point if no decimal place is left. A text without a point
/// stays as it is.
pub open spec fn compact(s: Seq<char>) -> Seq<char> {
    if !s.contains('.') {
        s
    } else {
        let t = s.take(trimmed_len(s) as int);
        if t.len() > 0 && t.last() == '.' {
            t.drop_last()
        } else {
            t
        }
    }
}

/// Strips a formatted number of the zeros that end its decimal places, and
/// of the point if it then ends the text.
pub fn compact_text(formatted: &str) -> (r: String)
    ensures
        r@ == compact(formatted@),
{
    let n = formatted.unicode_len();
    let mut has_point = false;
    let mut i: usize = 0;
    while i < n
        invariant
            n == formatted@.len(),
            i <= n,
            has_point == formatted@.take(i as int).contains('.'),
        decreases n - i,
    {
        let c = formatted.get_char(i);
        proof {
            let before = formatted@.take(i as int);
            let now = formatted@.take(i + 1);
            assert(now =~= before.push(c));
            if before.contains('.') {
                let j = choose|j: int| 0 <= j < before.len() && before[j] == '.';
                assert(now[j] == '.');
            }
            if c == '.' {
                assert(now[i as int] == '.');
            }
            if now.contains('.') && c != '.' {
                let j = choose|j: int| 0 <= j < now.len() && now[j] == '.';
                assert(before[j] == '.');
            }
        }
        if c == '.' {
            has_point = true;
        }
        i += 1;
    }
    proof {
        assert(formatted@.take(n as int) =~= formatted@);
    }
    if !has_point {
        return formatted.to_owned();
    }
    let mut end: usize = n;
    let mut trimming = true;
    while trimming && end > 0
        invariant
            n == formatted@.len(),
            end <= n,
            trimmed_len(formatted@) == trimmed_len(formatted@.take(end as int)),
            !trimming ==> end > 0 && formatted@[end - 1] != '0',
        decreases end + (if trimming { 1nat } else { 0nat }),
    {
        if formatted.get_char(end - 1) == '0' {
            proof {
                let s = formatted@.take(end as int);
                assert(s.last() == '0');
                assert(s.drop_last() =~= formatted@.take(end - 1));
            }
            end -= 1;
        } else {
            trimming = false;
        }
    }
    proof {
        let s = formatted@.take(end as int);
        if end > 0 {
            assert(s.last() == formatted@[end - 1]);
        }
        assert(trimmed_len(s) == end);
    }
    if end > 0 && formatted.get_char(end - 1) == '.' {
        proof {
            assert(formatted@.take(end as int).drop_last() =~= formatted@.take(end - 1));
        }
        end -= 1;
    }
    proof {
        assert(formatted@.subrange(0, end as int) =~= formatted@.take(end as int));
    }
    formatted.substring_char(0, end).to_owned()
}

/// Values that have a short text for documents and reports.
pub trait CompactSerializable {
    fn compact_ser(&self) -> String;
}

impl CompactSerializable for Decimal {
    /// The number's text without the zeros that end its decimal places.
    fn compact_ser(&self) -> (r: String)
        ensures
            r@ == compact(decimal_string(self@.0, self@.1)),
    {
        let formatted = decimal_to_string(self);
        compact_text(formatted.as_str())
    }
}

impl Int256 {
    /// The value as an `i128`, if it is one.
    pub fn to_i128(&self) -> (r: Option<i128>)
        ensures
            r == if i128::MIN <= self@ <= i128::MAX {
                Some(self@ as i128)
            } else {
                None::<i128>
            },
    {
        let raw = self.raw;
        proof {
            crate::word::lemma_uint256_view(raw, raw);
        }
        if raw.w3 == 0 && raw.w2 == 0 && raw.w1 <= 0x7fff_ffff_ffff_ffff {
            let high = raw.w1 as i128;
            Some(high * 0x1_0000_0000_0000_0000 + raw.w0 as i128)
        } else if raw.w3 == u64::MAX && raw.w2 == u64::MAX && raw.w1 > 0x7fff_ffff_ffff_ffff {
            let high = raw.w1 as i128 - 0x1_0000_0000_0000_0000;
            Some(high * 0x1_0000_0000_0000_0000 + raw.w0 as i128)
        } else {
            None
        }
    }
}

/// Raw amounts that can be shown as decimal numbers.
pub trait Decimalizable {
    /// The raw amount as an integer.
    spec fn raw_value(&self) -> int;

    /// The amount as a decimal number of `DECIMAL_SCALE` places, rounded to
    /// `DECIMAL_PRECISION` places; `None` for an amount of more than 96
    /// bits, which no decimal number holds.
    fn normalized(&self) -> (r: Option<Decimal>)
        ensures
            match r {
                Some(d) => is_decimal(self.raw_value(), DECIMAL_SCALE as nat) && d@
                    == decimal_rounded(
                    self.raw_value(),
                    DECIMAL_SCALE as nat,
                    DECIMAL_PRECISION as nat,
                ),
                None => !is_decimal(self.raw_value(), DECIMAL_SCALE as nat),
            },
    ;
}

impl Decimalizable for Int256 {
    open spec fn raw_value(&self) -> int {
        self@
    }

    fn normalized(&self) -> (r: Option<Decimal>) {
        match self.to_i128() {
            Some(mantissa) => match Decimal::new(mantissa, DECIMAL_SCALE) {
                Some(plain) => Some(decimal_round_dp(&plain, DECIMAL_PRECISION)),
                None => None,
            },
            None => None,
        }
    }
}

impl Decimalizable for Uint256 {
    open spec fn raw_value(&self) -> int {
        self@ as int
    }

    fn normalized(&self) -> (r: Option<Decimal>) {
        proof {
            crate::word::lemma_uint256_view(*self, *self);
        }
        if self.w3 == 0 && self.w2 == 0 && self.w1 <= 0xffff_ffff {
            let mantissa = (self.w1 as i128) * 0x1_0000_0000_0000_0000 + self.w0 as i128;
            match Decimal::new(mantissa, DECIMAL_SCALE) {
                Some(plain) => Some(decimal_round_dp(&plain, DECIMAL_PRECISION)),
                None => None,
            }
        } else {
            None
        }
    }
}

} // verus!
