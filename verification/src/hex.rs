//! Hexadecimal text as the key codec reads and writes it.
//!
//! The functions here are definitions, not code that runs. They say, over
//! sequences of characters, what the formatting and parsing routines of the address and
//! integer types produce, and the lemmas relate the two directions.

use vstd::arithmetic::power::{lemma_pow0, lemma_pow1, lemma_pow_adds, pow};
use vstd::prelude::*;

verus! {

/// The lowercase hexadecimal digit of a value below sixteen.
pub open spec fn hex_digit(d: nat) -> char {
    if d == 0 {
        '0'
    } else if d == 1 {
        '1'
    } else if d == 2 {
        '2'
    } else if d == 3 {
        '3'
    } else if d == 4 {
        '4'
    } else if d == 5 {
        '5'
    } else if d == 6 {
        '6'
    } else if d == 7 {
        '7'
    } else if d == 8 {
        '8'
    } else if d == 9 {
        '9'
    } else if d == 10 {
        'a'
    } else if d == 11 {
        'b'
    } else if d == 12 {
        'c'
    } else if d == 13 {
        'd'
    } else if d == 14 {
        'e'
    } else {
        'f'
    }
}

/// The value of a hexadecimal digit of either case; `None` for any other
/// character.
pub open spec fn hex_value(c: char) -> Option<nat> {
    if c == '0' {
        Some(0nat)
    } else if c == '1' {
        Some(1nat)
    } else if c == '2' {
        Some(2nat)
    } else if c == '3' {
        Some(3nat)
    } else if c == '4' {
        Some(4nat)
    } else if c == '5' {
        Some(5nat)
    } else if c == '6' {
        Some(6nat)
    } else if c == '7' {
        Some(7nat)
    } else if c == '8' {
        Some(8nat)
    } else if c == '9' {
        Some(9nat)
    } else if c == 'a' || c == 'A' {
        Some(10nat)
    } else if c == 'b' || c == 'B' {
        Some(11nat)
    } else if c == 'c' || c == 'C' {
        Some(12nat)
    } else if c == 'd' || c == 'D' {
        Some(13nat)
    } else if c == 'e' || c == 'E' {
        Some(14nat)
    } else if c == 'f' || c == 'F' {
        Some(15nat)
    } else {
        None
    }
}

/// The digit's value, and zero for a character that is no digit.
pub open spec fn digit_or_zero(c: char) -> nat {
    match hex_value(c) {
        Some(v) => v,
        None => 0,
    }
}

pub open spec fn is_hex_char(c: char) -> bool {
    hex_value(c) is Some
}

/// The blanks that the address parser passes over between digits.
pub open spec fn is_hex_space(c: char) -> bool {
    c == ' ' || c == '\r' || c == '\n' || c == '\t'
}

pub open spec fn all_hex(s: Seq<char>) -> bool {
    forall|i: int| 0 <= i < s.len() ==> is_hex_char(#[trigger] s[i])
}

/// Two lowercase digits for each byte, the high nibble first.
pub open spec fn hex_of_bytes(b: Seq<u8>) -> Seq<char> {
    Seq::new(
        2 * b.len(),
        |i: int|
            hex_digit(
                if i % 2 == 0 {
                    (b[i / 2] / 16) as nat
                } else {
                    (b[i / 2] % 16) as nat
                },
            ),
    )
}

/// The shortest lowercase hexadecimal numeral of `n`: no leading zero, and
/// the single digit `0` for zero.
pub open spec fn hex_of_nat(n: nat) -> Seq<char>
    decreases n,
{
    if n < 16 {
        seq![hex_digit(n)]
    } else {
        hex_of_nat(n / 16).push(hex_digit(n % 16))
    }
}

/// The number that a run of digits denotes in base sixteen; the empty run
/// denotes zero.
pub open spec fn hex_number(s: Seq<char>) -> nat
    decreases s.len(),
{
    if s.len() == 0 {
        0
    } else {
        16 * hex_number(s.drop_last()) + digit_or_zero(s.last())
    }
}

/// The bytes that an even run of digits denotes, two digits to a byte.
pub open spec fn bytes_of_hex(d: Seq<char>) -> Seq<u8> {
    Seq::new(
        d.len() / 2,
        |i: int| (16 * digit_or_zero(d[2 * i]) + digit_or_zero(d[2 * i + 1])) as u8,
    )
}

/// `s` without one leading `0x`, if it has one.
pub open spec fn strip_0x(s: Seq<char>) -> Seq<char> {
    if s.len() >= 2 && s[0] == '0' && s[1] == 'x' {
        s.subrange(2, s.len() as int)
    } else {
        s
    }
}

/// `s` without its blanks.
pub open spec fn drop_spaces(s: Seq<char>) -> Seq<char>
    decreases s.len(),
{
    if s.len() == 0 {
        s
    } else if is_hex_space(s.last()) {
        drop_spaces(s.drop_last())
    } else {
        drop_spaces(s.drop_last()).push(s.last())
    }
}

/// A fixed-width hash of `n` bytes read from text: an optional `0x`, then
/// exactly `2 * n` digits of either case, with blanks allowed anywhere
/// after the prefix. Anything else is no hash.
pub open spec fn parse_hash_hex(s: Seq<char>, n: nat) -> Option<Seq<u8>> {
    let d = drop_spaces(strip_0x(s));
    if all_hex(d) && d.len() == 2 * n {
        Some(bytes_of_hex(d))
    } else {
        None
    }
}

/// A 256-bit unsigned integer read from text: an optional `0x`, then at
/// most sixty-four digits of either case and nothing else. No digits at all
/// read as zero.
pub open spec fn parse_uint_hex(s: Seq<char>) -> Option<nat> {
    let d = strip_0x(s);
    if all_hex(d) && d.len() <= 64 {
        Some(hex_number(d))
    } else {
        None
    }
}

/// Two to the power 256, one more than the largest 256-bit value.
pub open spec fn two_pow_256() -> nat {
    0x1_0000_0000_0000_0000_0000_0000_0000_0000_0000_0000_0000_0000_0000_0000_0000_0000nat
}

pub proof fn lemma_hex_digit(d: nat)
    requires
        d < 16,
    ensures
        hex_value(hex_digit(d)) == Some(d),
        is_hex_char(hex_digit(d)),
        !is_hex_space(hex_digit(d)),
        hex_digit(d) != '-',
        hex_digit(d) != 'x',
{
}

/// A character that is a digit is neither a blank nor a dash.
pub proof fn lemma_hex_char_is_plain(c: char)
    requires
        is_hex_char(c),
    ensures
        !is_hex_space(c),
        c != '-',
        c != 'x',
{
}

pub proof fn lemma_drop_spaces_of_digits(s: Seq<char>)
    requires
        all_hex(s),
    ensures
        drop_spaces(s) == s,
    decreases s.len(),
{
    if s.len() > 0 {
        let front = s.drop_last();
        assert(all_hex(front)) by {
            assert forall|i: int| 0 <= i < front.len() implies is_hex_char(#[trigger] front[i]) by {
                assert(front[i] == s[i]);
            }
        }
        lemma_drop_spaces_of_digits(front);
        assert(is_hex_char(s.last()));
        lemma_hex_char_is_plain(s.last());
        assert(front.push(s.last()) =~= s);
    }
}

pub proof fn lemma_hex_of_bytes(b: Seq<u8>)
    ensures
        hex_of_bytes(b).len() == 2 * b.len(),
        all_hex(hex_of_bytes(b)),
        bytes_of_hex(hex_of_bytes(b)) == b,
        forall|i: int| 0 <= i < hex_of_bytes(b).len() ==> #[trigger] hex_of_bytes(b)[i] != '-',
{
    let d = hex_of_bytes(b);
    assert forall|i: int| 0 <= i < d.len() implies is_hex_char(#[trigger] d[i]) && d[i] != '-' by {
        let v = if i % 2 == 0 {
            (b[i / 2] / 16) as nat
        } else {
            (b[i / 2] % 16) as nat
        };
        lemma_hex_digit(v);
    }
    assert forall|j: int| 0 <= j < b.len() implies #[trigger] bytes_of_hex(d)[j] == b[j] by {
        let hi = (b[j] / 16) as nat;
        let lo = (b[j] % 16) as nat;
        lemma_hex_digit(hi);
        lemma_hex_digit(lo);
        assert((2 * j) % 2 == 0 && (2 * j) / 2 == j);
        assert((2 * j + 1) % 2 == 1 && (2 * j + 1) / 2 == j);
        assert(d[2 * j] == hex_digit(hi));
        assert(d[2 * j + 1] == hex_digit(lo));
        assert(16 * hi + lo == b[j]);
    }
    assert(bytes_of_hex(d) =~= b);
}

pub proof fn lemma_hex_of_nat(n: nat)
    ensures
        hex_of_nat(n).len() >= 1,
        all_hex(hex_of_nat(n)),
        hex_number(hex_of_nat(n)) == n,
        forall|i: int| 0 <= i < hex_of_nat(n).len() ==> #[trigger] hex_of_nat(n)[i] != '-',
    decreases n,
{
    let s = hex_of_nat(n);
    if n < 16 {
        lemma_hex_digit(n);
        assert(s.drop_last() =~= Seq::<char>::empty());
        assert(hex_number(s.drop_last()) == 0);
    } else {
        lemma_hex_of_nat(n / 16);
        lemma_hex_digit(n % 16);
        let front = hex_of_nat(n / 16);
        assert(s.drop_last() =~= front);
        assert(s.last() == hex_digit(n % 16));
        assert forall|i: int| 0 <= i < s.len() implies is_hex_char(#[trigger] s[i]) && s[i] != '-' by {
            if i < front.len() {
                assert(s[i] == front[i]);
            }
        }
    }
}

/// A numeral of `n` has at most `k` digits when `n` is below sixteen to
/// the `k`.
pub proof fn lemma_hex_of_nat_len(n: nat, k: nat)
    requires
        k >= 1,
        n < pow(16, k),
    ensures
        hex_of_nat(n).len() <= k,
    decreases n,
{
    if n >= 16 {
        lemma_pow1(16);
        if k == 1 {
            assert(false);
        }
        lemma_pow_adds(16, (k - 1) as nat, 1);
        assert(pow(16, k) == pow(16, (k - 1) as nat) * 16);
        assert(n / 16 < pow(16, (k - 1) as nat));
        lemma_hex_of_nat_len(n / 16, (k - 1) as nat);
    }
}

pub proof fn lemma_pow16_64()
    ensures
        pow(16, 64) == two_pow_256(),
{
    lemma_pow1(16);
    lemma_pow_adds(16, 1, 1);
    assert(pow(16, 2) == 0x100);
    lemma_pow_adds(16, 2, 2);
    assert(pow(16, 4) == 0x1_0000);
    lemma_pow_adds(16, 4, 4);
    assert(pow(16, 8) == 0x1_0000_0000);
    lemma_pow_adds(16, 8, 8);
    assert(pow(16, 16) == 0x1_0000_0000_0000_0000);
    lemma_pow_adds(16, 16, 16);
    assert(pow(16, 32) == 0x1_0000_0000_0000_0000_0000_0000_0000_0000int);
    lemma_pow_adds(16, 32, 32);
}

/// Reading back the numeral of a 256-bit value gives the value.
pub proof fn lemma_uint_hex_roundtrip(n: nat)
    requires
        n < two_pow_256(),
    ensures
        parse_uint_hex(hex_of_nat(n)) == Some(n),
{
    let s = hex_of_nat(n);
    lemma_hex_of_nat(n);
    lemma_pow16_64();
    lemma_hex_of_nat_len(n, 64);
    if s.len() >= 2 && s[0] == '0' && s[1] == 'x' {
        assert(is_hex_char(s[1]));
        assert(false);
    }
    assert(strip_0x(s) == s);
}

/// Reading back the digits of `b` gives `b`.
pub proof fn lemma_hash_hex_roundtrip(b: Seq<u8>)
    ensures
        parse_hash_hex(hex_of_bytes(b), b.len()) == Some(b),
{
    let s = hex_of_bytes(b);
    lemma_hex_of_bytes(b);
    if s.len() >= 2 && s[0] == '0' && s[1] == 'x' {
        assert(is_hex_char(s[1]));
        assert(false);
    }
    assert(strip_0x(s) == s);
    lemma_drop_spaces_of_digits(s);
}

} // verus!
