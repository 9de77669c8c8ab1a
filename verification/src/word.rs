//! 256-bit words: the unsigned integers that carry timestamps and raw event
//! amounts, and the signed integers that ledgers record.
//!
//! A word is held as four 64-bit limbs, least significant first, which is
//! how `ethers::types::U256` holds it. What the library needs computed on
//! words is done by that crate; the functions that call it state over `nat`
//! and `int` what it returns.

use crate::hex::{hex_of_nat, parse_uint_hex, two_pow_256};
use ethers::types::{I256, U256};
use std::str::FromStr;
use vstd::arithmetic::div_mod::{lemma_fundamental_div_mod_converse, lemma_small_mod};
use vstd::prelude::*;

verus! {

/// An unsigned 256-bit integer.
#[derive(Clone, Copy, Debug, PartialEq, Eq, Structural, Hash)]
pub struct Uint256 {
    pub w0: u64,
    pub w1: u64,
    pub w2: u64,
    pub w3: u64,
}

/// A signed 256-bit integer in two's complement.
#[derive(Clone, Copy, Debug, PartialEq, Eq, Structural, Hash)]
pub struct Int256 {
    pub raw: Uint256,
}

/// Two to the power 255: the first raw word that reads as negative.
pub open spec fn two_pow_255() -> nat {
    0x8000_0000_0000_0000_0000_0000_0000_0000_0000_0000_0000_0000_0000_0000_0000_0000nat
}

/// The least signed 256-bit integer, the only one without a negation.
pub open spec fn int256_min() -> int {
    -(two_pow_255() as int)
}

impl View for Uint256 {
    type V = nat;

    open spec fn view(&self) -> nat {
        (self.w0 as nat) + two_pow_64() * ((self.w1 as nat) + two_pow_64() * ((self.w2 as nat)
            + two_pow_64() * (self.w3 as nat)))
    }
}

impl View for Int256 {
    type V = int;

    open spec fn view(&self) -> int {
        if self.raw@ < two_pow_255() {
            self.raw@ as int
        } else {
            self.raw@ - two_pow_256()
        }
    }
}

/// Every word is below two to the 256 and is the word of its value, so
/// two words of one value are one word.
pub proof fn lemma_uint256_view(a: Uint256, b: Uint256)
    ensures
        a@ < two_pow_256(),
        uint256_of(a@) == a,
        a@ == b@ ==> a == b,
{
    lemma_limbs(a);
    lemma_limbs(b);
}

proof fn lemma_limbs(a: Uint256)
    ensures
        a@ < two_pow_256(),
        uint256_of(a@) == a,
{
    let b = two_pow_64() as int;
    let q3 = a.w3 as int;
    let q2 = a.w2 + b * q3;
    let q1 = a.w1 + b * q2;
    let n = a.w0 + b * q1;
    assert(n == a@) by (nonlinear_arith)
        requires
            n == a.w0 + b * q1,
            q1 == a.w1 + b * q2,
            q2 == a.w2 + b * q3,
            q3 == a.w3,
            b == two_pow_64(),
            a@ == (a.w0 as nat) + two_pow_64() * ((a.w1 as nat) + two_pow_64() * ((a.w2 as nat)
                + two_pow_64() * (a.w3 as nat))),
    ;
    assert(q2 < b * b) by (nonlinear_arith)
        requires
            q2 == a.w2 + b * q3,
            0 <= a.w2 < b,
            0 <= q3 < b,
    ;
    assert(q1 < b * b * b) by (nonlinear_arith)
        requires
            q1 == a.w1 + b * q2,
            0 <= a.w1 < b,
            0 <= q2 < b * b,
            b > 0,
    ;
    assert(n < b * b * b * b) by (nonlinear_arith)
        requires
            n == a.w0 + b * q1,
            0 <= a.w0 < b,
            0 <= q1 < b * b * b,
            b > 0,
    ;
    assert(b * b * b * b == two_pow_256());
    lemma_fundamental_div_mod_converse(n, b, q1, a.w0 as int);
    lemma_fundamental_div_mod_converse(q1, b, q2, a.w1 as int);
    lemma_fundamental_div_mod_converse(q2, b, q3, a.w2 as int);
    lemma_small_mod(q3 as nat, b as nat);
}

/// Two signed words of one value are one word.
pub proof fn lemma_int256_view(a: Int256, b: Int256)
    ensures
        -(two_pow_255() as int) <= a@ < two_pow_255(),
        a@ == b@ ==> a == b,
{
    lemma_uint256_view(a.raw, b.raw);
}

impl Uint256 {
    /// The word of value `x`.
    pub fn from_u64(x: u64) -> (r: Uint256)
        ensures
            r@ == x,
    {
        Uint256 { w0: x, w1: 0, w2: 0, w3: 0 }
    }

    /// The value as a `u64`, if it is small enough for one.
    pub fn to_u64(&self) -> (r: Option<u64>)
        ensures
            self@ <= u64::MAX ==> r == Some(self@ as u64),
            self@ > u64::MAX ==> r is None,
    {
        if self.w1 == 0 && self.w2 == 0 && self.w3 == 0 {
            Some(self.w0)
        } else {
            None
        }
    }
}

impl Int256 {
    /// The signed reading of a raw word: the word itself below two to the
    /// 255, and the word less two to the 256 from there on.
    pub fn from_raw(raw: Uint256) -> (r: Int256)
        ensures
            r.raw == raw,
            r@ == if raw@ < two_pow_255() {
                raw@ as int
            } else {
                raw@ - two_pow_256()
            },
    {
        Int256 { raw }
    }
}

/// Calls `U256::checked_sub`. The claim: it returns the difference where
/// the first operand is at least the second, and `None` otherwise.
#[verifier::external_body]
pub(crate) fn uint_checked_sub(a: &Uint256, b: &Uint256) -> (r: Option<Uint256>)
    ensures
        match r {
            Some(d) => a@ >= b@ && d@ == a@ - b@,
            None => a@ < b@,
        },
{
    let d = U256([a.w0, a.w1, a.w2, a.w3]).checked_sub(U256([b.w0, b.w1, b.w2, b.w3]))?;
    Some(Uint256 { w0: d.0[0], w1: d.0[1], w2: d.0[2], w3: d.0[3] })
}

/// Calls `I256::checked_neg`. The claim: it returns the negation of every
/// value but the least one, for which it returns `None`.
#[verifier::external_body]
pub(crate) fn int_checked_neg(a: &Int256) -> (r: Option<Int256>)
    ensures
        match r {
            Some(n) => a@ != int256_min() && n@ == -a@,
            None => a@ == int256_min(),
        },
{
    let n = I256::from_raw(U256([a.raw.w0, a.raw.w1, a.raw.w2, a.raw.w3])).checked_neg()?;
    let d = n.into_raw();
    Some(Int256 { raw: Uint256 { w0: d.0[0], w1: d.0[1], w2: d.0[2], w3: d.0[3] } })
}

/// Formats a `U256` with `{:x}`. The claim: the text is the shortest
/// lowercase hexadecimal numeral of the value, without prefix.
#[verifier::external_body]
pub(crate) fn uint_lower_hex(a: &Uint256) -> (r: String)
    ensures
        r@ == hex_of_nat(a@),
{
    format!("{:x}", U256([a.w0, a.w1, a.w2, a.w3]))
}

/// Calls `U256::from_str`. The claim: it accepts an optional `0x` followed
/// by at most sixty-four hexadecimal digits of either case, returns the
/// number they denote, and fails on every other text.
#[verifier::external_body]
pub(crate) fn uint_from_hex(s: &str) -> (r: Option<Uint256>)
    ensures
        r matches Some(u) ==> parse_uint_hex(s@) == Some(u@),
        r is None ==> parse_uint_hex(s@) is None,
{
    match U256::from_str(s) {
        Ok(d) => Some(Uint256 { w0: d.0[0], w1: d.0[1], w2: d.0[2], w3: d.0[3] }),
        Err(_) => None,
    }
}

/// Two to the power 64, the weight of the second limb.
pub open spec fn two_pow_64() -> nat {
    0x1_0000_0000_0000_0000nat
}

/// The word of value `n`, for `n` below two to the 256.
pub open spec fn uint256_of(n: nat) -> Uint256 {
    Uint256 {
        w0: (n % two_pow_64()) as u64,
        w1: ((n / two_pow_64()) % two_pow_64()) as u64,
        w2: ((n / two_pow_64() / two_pow_64()) % two_pow_64()) as u64,
        w3: ((n / two_pow_64() / two_pow_64() / two_pow_64()) % two_pow_64()) as u64,
    }
}

/// The signed word of value `v`, for `v` from minus two to the 255 up to,
/// but not including, two to the 255.
pub open spec fn int256_of(v: int) -> Int256 {
    Int256 {
        raw: uint256_of(
            if v >= 0 {
                v as nat
            } else {
                (v + two_pow_256()) as nat
            },
        ),
    }
}

pub proof fn lemma_uint256_of(n: nat)
    requires
        n < two_pow_256(),
    ensures
        uint256_of(n)@ == n,
{
    let b = two_pow_64();
    let q1 = n / b;
    let q2 = q1 / b;
    let q3 = q2 / b;
    assert(n == q1 * b + n % b);
    assert(q1 == q2 * b + q1 % b);
    assert(q2 == q3 * b + q2 % b);
    assert(q3 < b);
    assert(q3 % b == q3);
}

pub proof fn lemma_int256_of(v: int)
    requires
        int256_min() <= v < two_pow_255(),
    ensures
        int256_of(v)@ == v,
{
    if v >= 0 {
        lemma_uint256_of(v as nat);
    } else {
        lemma_uint256_of((v + two_pow_256()) as nat);
    }
}

impl Int256 {
    /// The signed reading of a raw word.
    pub open spec fn of_raw(raw: Uint256) -> Int256 {
        Int256 { raw }
    }

    /// The word of the negated value.
    pub open spec fn negation(self) -> Int256 {
        int256_of(-self@)
    }
}

/// The negation of a raw amount read as signed; `None` for the one amount
/// that has no negation.
pub fn negated(amount: Uint256) -> (r: Option<Int256>)
    ensures
        match r {
            Some(n) => Int256::of_raw(amount)@ != int256_min() && n == Int256::of_raw(
                amount,
            ).negation() && n@ == -Int256::of_raw(amount)@,
            None => Int256::of_raw(amount)@ == int256_min(),
        },
{
    let signed = Int256::from_raw(amount);
    let r = int_checked_neg(&signed);
    proof {
        if let Some(n) = r {
            lemma_int256_view(signed, signed);
            lemma_int256_of(-signed@);
            lemma_int256_view(n, signed.negation());
        }
    }
    r
}

} // verus!
