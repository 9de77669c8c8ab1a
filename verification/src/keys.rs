//! Ledger keys and their canonical text.
//!
//! A position is keyed by trader and maturity time, a liquidity position by
//! its provider. In the checkpoint document a key is a string:
//! `0x<trader>-0x<maturity>` for a position and `0x<provider>` for a
//! provider, in lowercase hexadecimal. Reading is more lenient than
//! writing: it takes what the address and integer parsers take.

use crate::hex::{
    hex_of_bytes, hex_of_nat, lemma_hash_hex_roundtrip, lemma_hex_of_bytes, lemma_hex_of_nat,
    lemma_uint_hex_roundtrip, parse_hash_hex, parse_uint_hex, two_pow_256,
};
use crate::word::{lemma_uint256_view, uint256_of, uint_from_hex, uint_lower_hex, Uint256};
use ethers::types::H160;
use std::str::FromStr;
use vstd::prelude::*;
use vstd::string::StringExecFns;

verus! {

/// A 20-byte account address.
#[derive(Clone, Copy, Debug, PartialEq, Eq, Hash)]
pub struct Address {
    pub bytes: [u8; 20],
}

/// The key of a long or short position.
#[derive(Clone, Copy, Debug, PartialEq, Eq, Hash)]
pub struct PositionKey {
    pub trader: Address,
    pub maturity_time: Uint256,
}

/// The key of a liquidity position.
#[derive(Clone, Copy, Debug, PartialEq, Eq, Hash)]
pub struct LpKey {
    pub provider: Address,
}

/// Why a text is no key.
#[derive(Clone, Copy, Debug, PartialEq, Eq, Structural)]
pub enum KeyError {
    /// A position key without exactly one dash.
    Shape,
    /// The account part is no address.
    Account,
    /// The maturity part is no 256-bit integer.
    Maturity,
    /// A checkpoint time is no 256-bit integer.
    Timestamp,
}

/// A position key as mathematics: the trader's bytes and the maturity time.
pub struct PositionKeyView {
    pub trader: Seq<u8>,
    pub maturity_time: nat,
}

impl View for Address {
    type V = Seq<u8>;

    open spec fn view(&self) -> Seq<u8> {
        self.bytes@
    }
}

impl View for PositionKey {
    type V = PositionKeyView;

    open spec fn view(&self) -> PositionKeyView {
        PositionKeyView { trader: self.trader@, maturity_time: self.maturity_time@ }
    }
}

impl View for LpKey {
    type V = Seq<u8>;

    open spec fn view(&self) -> Seq<u8> {
        self.provider@
    }
}

/// `i` is the place of the only dash of `s`.
pub open spec fn is_only_dash(s: Seq<char>, i: int) -> bool {
    &&& 0 <= i < s.len()
    &&& s[i] == '-'
    &&& forall|j: int| 0 <= j < s.len() && j != i ==> s[j] != '-'
}

pub open spec fn has_one_dash(s: Seq<char>) -> bool {
    exists|i: int| is_only_dash(s, i)
}

/// The text of an address: `0x` and forty lowercase digits.
pub open spec fn address_text(a: Seq<u8>) -> Seq<char> {
    seq!['0', 'x'] + hex_of_bytes(a)
}

/// The text of a checkpoint time: `0x` and its shortest numeral.
pub open spec fn time_key_text(t: nat) -> Seq<char> {
    seq!['0', 'x'] + hex_of_nat(t)
}

/// The text of a position key: the trader's address, a dash, and the
/// maturity time.
pub open spec fn position_key_text(k: PositionKeyView) -> Seq<char> {
    address_text(k.trader) + seq!['-'] + time_key_text(k.maturity_time)
}

/// What a text reads as, as a position key: the part before its only dash
/// as the trader, the part after it as the maturity time.
pub open spec fn parse_position_key(s: Seq<char>) -> Result<PositionKeyView, KeyError> {
    if !has_one_dash(s) {
        Err(KeyError::Shape)
    } else {
        let i = choose|i: int| is_only_dash(s, i);
        match parse_hash_hex(s.subrange(0, i), 20) {
            None => Err(KeyError::Account),
            Some(trader) => match parse_uint_hex(s.subrange(i + 1, s.len() as int)) {
                None => Err(KeyError::Maturity),
                Some(maturity_time) => Ok(PositionKeyView { trader, maturity_time }),
            },
        }
    }
}

/// What a text reads as, as a provider key.
pub open spec fn parse_lp_key(s: Seq<char>) -> Result<Seq<u8>, KeyError> {
    match parse_hash_hex(s, 20) {
        None => Err(KeyError::Account),
        Some(provider) => Ok(provider),
    }
}

/// The key of the given trader and maturity time.
pub open spec fn position_key_of(v: PositionKeyView) -> PositionKey {
    choose|k: PositionKey| k@ == v
}

/// The key of the given provider.
pub open spec fn lp_key_of(v: Seq<u8>) -> LpKey {
    choose|k: LpKey| k@ == v
}

/// The position key that a text denotes, or why it denotes none.
pub open spec fn read_position_key(s: Seq<char>) -> Result<PositionKey, KeyError> {
    match parse_position_key(s) {
        Ok(v) => Ok(position_key_of(v)),
        Err(e) => Err(e),
    }
}

/// The provider key that a text denotes, or why it denotes none.
pub open spec fn read_lp_key(s: Seq<char>) -> Result<LpKey, KeyError> {
    match parse_lp_key(s) {
        Ok(v) => Ok(lp_key_of(v)),
        Err(e) => Err(e),
    }
}

/// The checkpoint time that a text denotes, or why it denotes none.
pub open spec fn read_time_key(s: Seq<char>) -> Result<Uint256, KeyError> {
    match parse_uint_hex(s) {
        Some(n) => Ok(uint256_of(n)),
        None => Err(KeyError::Timestamp),
    }
}

/// Formats an `H160` with `{:x}`. The claim: the text holds two lowercase
/// hexadecimal digits for each of the twenty bytes, in order, and no
/// prefix.
#[verifier::external_body]
pub(crate) fn address_lower_hex(a: &Address) -> (r: String)
    ensures
        r@ == hex_of_bytes(a@),
{
    format!("{:x}", H160(a.bytes))
}

/// Calls `H160::from_str`. The claim: it accepts an optional `0x` followed
/// by exactly forty hexadecimal digits of either case, among which blanks
/// (space, tab, carriage return, line feed) are passed over; it returns the
/// bytes that the digits denote, and fails on every other text.
#[verifier::external_body]
pub(crate) fn address_from_hex(s: &str) -> (r: Option<Address>)
    ensures
        r matches Some(a) ==> parse_hash_hex(s@, 20) == Some(a@),
        r is None ==> parse_hash_hex(s@, 20) is None,
{
    match H160::from_str(s) {
        Ok(h) => Some(Address { bytes: h.0 }),
        Err(_) => None,
    }
}

impl Address {
    /// The address as text: `0x` and forty lowercase digits.
    pub fn encode(&self) -> (r: String)
        ensures
            r@ == address_text(self@),
    {
        let digits = address_lower_hex(self);
        let mut out = "0x".to_owned();
        out.append(digits.as_str());
        proof {
            reveal_strlit("0x");
            assert("0x"@ =~= seq!['0', 'x']);
        }
        out
    }
}

impl PositionKey {
    /// The key as text.
    pub fn encode(&self) -> (r: String)
        ensures
            r@ == position_key_text(self@),
    {
        let mut out = self.trader.encode();
        let digits = uint_lower_hex(&self.maturity_time);
        out.append("-0x");
        out.append(digits.as_str());
        proof {
            reveal_strlit("-0x");
            assert("-0x"@ =~= seq!['-', '0', 'x']);
            assert(out@ =~= position_key_text(self@));
        }
        out
    }

    /// Reads a key from text. A text that is no key is refused, and the
    /// error says which part failed first: the shape, the account, the
    /// maturity time.
    pub fn decode(s: &str) -> (r: Result<PositionKey, KeyError>)
        ensures
            r == read_position_key(s@),
            match r {
                Ok(k) => parse_position_key(s@) == Ok::<PositionKeyView, KeyError>(k@),
                Err(e) => parse_position_key(s@) == Err::<PositionKeyView, KeyError>(e),
            },
    {
        let n = s.unicode_len();
        let mut dashes: u8 = 0;
        let mut at: usize = 0;
        let mut i: usize = 0;
        let ghost mut second: int = 0;
        while i < n
            invariant
                n == s@.len(),
                i <= n,
                dashes <= 2,
                dashes == 0 ==> forall|j: int| 0 <= j < i ==> s@[j] != '-',
                dashes == 1 ==> at < i && s@[at as int] == '-' && forall|j: int|
                    0 <= j < i && j != at ==> s@[j] != '-',
                dashes == 2 ==> at < second < i && s@[at as int] == '-' && s@[second] == '-',
            decreases n - i,
        {
            if s.get_char(i) == '-' {
                if dashes == 0 {
                    at = i;
                    dashes = 1;
                } else if dashes == 1 {
                    proof {
                        second = i as int;
                    }
                    dashes = 2;
                }
            }
            i += 1;
        }
        if dashes != 1 {
            proof {
                assert forall|k: int| !is_only_dash(s@, k) by {
                    if dashes == 2 && is_only_dash(s@, k) {
                        if k == at {
                            assert(s@[second] != '-');
                        } else {
                            assert(s@[at as int] != '-');
                        }
                    }
                }
            }
            return Err(KeyError::Shape);
        }
        proof {
            assert(is_only_dash(s@, at as int));
            let c = choose|k: int| is_only_dash(s@, k);
            assert(c == at);
        }
        let trader = match address_from_hex(s.substring_char(0, at)) {
            Some(a) => a,
            None => {
                return Err(KeyError::Account);
            },
        };
        let maturity_time = match uint_from_hex(s.substring_char(at + 1, n)) {
            Some(u) => u,
            None => {
                return Err(KeyError::Maturity);
            },
        };
        let key = PositionKey { trader, maturity_time };
        proof {
            lemma_position_key_view(key, position_key_of(key@));
        }
        Ok(key)
    }
}

impl LpKey {
    /// The key as text.
    pub fn encode(&self) -> (r: String)
        ensures
            r@ == address_text(self@),
    {
        self.provider.encode()
    }

    /// Reads a key from text; a text that is no address is refused.
    pub fn decode(s: &str) -> (r: Result<LpKey, KeyError>)
        ensures
            r == read_lp_key(s@),
            match r {
                Ok(k) => parse_lp_key(s@) == Ok::<Seq<u8>, KeyError>(k@),
                Err(e) => parse_lp_key(s@) == Err::<Seq<u8>, KeyError>(e),
            },
    {
        match address_from_hex(s) {
            Some(provider) => {
                let key = LpKey { provider };
                proof {
                    lemma_lp_key_view(key, lp_key_of(key@));
                }
                Ok(key)
            },
            None => Err(KeyError::Account),
        }
    }
}

/// Two position keys of the same trader and maturity time are one key.
pub proof fn lemma_position_key_view(a: PositionKey, b: PositionKey)
    ensures
        a.trader@.len() == 20,
        a.maturity_time@ < two_pow_256(),
        a@ == b@ ==> a == b,
{
    broadcast use vstd::array::group_array_axioms;

    lemma_uint256_view(a.maturity_time, b.maturity_time);
    if a@ == b@ {
        assert(a.trader.bytes =~= b.trader.bytes);
    }
}

/// Two provider keys of the same bytes are one key.
pub proof fn lemma_lp_key_view(a: LpKey, b: LpKey)
    ensures
        a@.len() == 20,
        a@ == b@ ==> a == b,
{
    broadcast use vstd::array::group_array_axioms;

    if a@ == b@ {
        assert(a.provider.bytes =~= b.provider.bytes);
    }
}

/// The text of an address reads back as the address.
pub proof fn lemma_address_roundtrip(a: Seq<u8>)
    requires
        a.len() == 20,
    ensures
        parse_hash_hex(address_text(a), 20) == Some(a),
        parse_lp_key(address_text(a)) == Ok::<Seq<u8>, KeyError>(a),
        forall|j: int| 0 <= j < address_text(a).len() ==> #[trigger] address_text(a)[j] != '-',
{
    let t = address_text(a);
    lemma_hex_of_bytes(a);
    lemma_hash_hex_roundtrip(a);
    assert(t.subrange(2, t.len() as int) =~= hex_of_bytes(a));
    assert(crate::hex::strip_0x(t) == hex_of_bytes(a));
    assert(crate::hex::strip_0x(hex_of_bytes(a)) == hex_of_bytes(a)) by {
        let d = hex_of_bytes(a);
        assert(crate::hex::is_hex_char(d[1]));
    }
    assert forall|j: int| 0 <= j < t.len() implies #[trigger] t[j] != '-' by {
        if j >= 2 {
            assert(t[j] == hex_of_bytes(a)[j - 2]);
        }
    }
}

/// The text of a 256-bit time reads back as the time, and holds no dash.
pub proof fn lemma_time_text(t: nat)
    requires
        t < two_pow_256(),
    ensures
        parse_uint_hex(time_key_text(t)) == Some(t),
        forall|j: int| 0 <= j < time_key_text(t).len() ==> #[trigger] time_key_text(t)[j] != '-',
{
    let d = hex_of_nat(t);
    let s = time_key_text(t);
    lemma_hex_of_nat(t);
    lemma_uint_hex_roundtrip(t);
    assert(s.subrange(2, s.len() as int) =~= d);
    assert(crate::hex::strip_0x(s) == d);
    assert(crate::hex::strip_0x(d) == d) by {
        if d.len() >= 2 {
            assert(crate::hex::is_hex_char(d[1]));
        }
    }
    assert forall|j: int| 0 <= j < s.len() implies #[trigger] s[j] != '-' by {
        if j >= 2 {
            assert(s[j] == d[j - 2]);
        }
    }
}

/// Two texts without dash, joined by a dash, are parted again at their
/// only dash.
pub proof fn lemma_single_dash(head: Seq<char>, tail: Seq<char>)
    requires
        forall|j: int| 0 <= j < head.len() ==> #[trigger] head[j] != '-',
        forall|j: int| 0 <= j < tail.len() ==> #[trigger] tail[j] != '-',
    ensures
        has_one_dash(head + seq!['-'] + tail),
        forall|i: int| is_only_dash(head + seq!['-'] + tail, i) ==> i == head.len(),
        (head + seq!['-'] + tail).subrange(0, head.len() as int) == head,
        (head + seq!['-'] + tail).subrange(
            head.len() as int + 1,
            (head + seq!['-'] + tail).len() as int,
        ) == tail,
{
    let s = head + seq!['-'] + tail;
    let at = head.len() as int;
    assert(s[at] == '-');
    assert forall|j: int| 0 <= j < s.len() && j != at implies s[j] != '-' by {
        if j < at {
            assert(s[j] == head[j]);
        } else {
            assert(s[j] == tail[j - at - 1]);
        }
    }
    assert(is_only_dash(s, at));
    assert(s.subrange(0, at) =~= head);
    assert(s.subrange(at + 1, s.len() as int) =~= tail);
}

/// Every position key encodes to a text that decodes to the same key.
pub proof fn lemma_position_key_roundtrip(k: PositionKeyView)
    requires
        k.trader.len() == 20,
        k.maturity_time < two_pow_256(),
    ensures
        parse_position_key(position_key_text(k)) == Ok::<PositionKeyView, KeyError>(k),
{
    let head = address_text(k.trader);
    let tail = time_key_text(k.maturity_time);
    lemma_address_roundtrip(k.trader);
    lemma_time_text(k.maturity_time);
    lemma_single_dash(head, tail);
}

/// A checkpoint time as text: `0x` and its shortest lowercase numeral.
pub fn encode_time_key(time: &Uint256) -> (r: String)
    ensures
        r@ == time_key_text(time@),
{
    let digits = uint_lower_hex(time);
    let mut out = "0x".to_owned();
    out.append(digits.as_str());
    proof {
        reveal_strlit("0x");
        assert("0x"@ =~= seq!['0', 'x']);
    }
    out
}

/// Reads a checkpoint time from text; a text that is no 256-bit integer is
/// refused.
pub fn decode_time_key(s: &str) -> (r: Result<Uint256, KeyError>)
    ensures
        r == read_time_key(s@),
{
    match uint_from_hex(s) {
        Some(t) => {
            proof {
                lemma_uint256_view(t, t);
            }
            Ok(t)
        },
        None => Err(KeyError::Timestamp),
    }
}

/// A position key is read back from its text.
pub proof fn lemma_position_key_reads_back(k: PositionKey)
    ensures
        read_position_key(position_key_text(k@)) == Ok::<PositionKey, KeyError>(k),
{
    lemma_position_key_view(k, position_key_of(k@));
    lemma_position_key_roundtrip(k@);
}

/// A provider key is read back from its text.
pub proof fn lemma_lp_key_reads_back(p: LpKey)
    ensures
        read_lp_key(address_text(p@)) == Ok::<LpKey, KeyError>(p),
{
    lemma_lp_key_view(p, lp_key_of(p@));
    lemma_address_roundtrip(p@);
}

/// A checkpoint time is read back from its text.
pub proof fn lemma_time_key_reads_back(t: Uint256)
    ensures
        read_time_key(time_key_text(t@)) == Ok::<Uint256, KeyError>(t),
{
    lemma_uint256_view(t, t);
    lemma_time_text(t@);
}

} // verus!
