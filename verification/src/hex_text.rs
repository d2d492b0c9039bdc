//! Bytes and numbers written in hexadecimal digits.

use vstd::prelude::*;
use crate::text::{chars_of, push_char};

verus! {

/// The lowercase character of a hexadecimal digit.
pub open spec fn lower_digit(digit: nat) -> char {
    if digit == 0 {
        '0'
    } else if digit == 1 {
        '1'
    } else if digit == 2 {
        '2'
    } else if digit == 3 {
        '3'
    } else if digit == 4 {
        '4'
    } else if digit == 5 {
        '5'
    } else if digit == 6 {
        '6'
    } else if digit == 7 {
        '7'
    } else if digit == 8 {
        '8'
    } else if digit == 9 {
        '9'
    } else if digit == 10 {
        'a'
    } else if digit == 11 {
        'b'
    } else if digit == 12 {
        'c'
    } else if digit == 13 {
        'd'
    } else if digit == 14 {
        'e'
    } else {
        'f'
    }
}

/// `c` with the lowercase hexadecimal letters turned into capitals.
pub open spec fn capital(c: char) -> char {
    if c == 'a' {
        'A'
    } else if c == 'b' {
        'B'
    } else if c == 'c' {
        'C'
    } else if c == 'd' {
        'D'
    } else if c == 'e' {
        'E'
    } else if c == 'f' {
        'F'
    } else {
        c
    }
}

/// The uppercase character of a hexadecimal digit.
pub open spec fn upper_digit(digit: nat) -> char {
    capital(lower_digit(digit))
}

/// The hexadecimal digit of `byte` at `place`: the high one at an even
/// place, the low one at an odd place.
pub open spec fn nibble(byte: u8, place: int) -> nat {
    if place % 2 == 0 {
        (byte / 16) as nat
    } else {
        (byte % 16) as nat
    }
}

/// `bytes` in lowercase hexadecimal digits, two for each byte, high digit
/// first.
pub open spec fn hex_lower(bytes: Seq<u8>) -> Seq<char> {
    Seq::new(2 * bytes.len(), |i: int| lower_digit(nibble(bytes[i / 2], i)))
}

/// `bytes` in uppercase hexadecimal digits, two for each byte, high digit
/// first.
pub open spec fn hex_upper(bytes: Seq<u8>) -> Seq<char> {
    Seq::new(2 * bytes.len(), |i: int| upper_digit(nibble(bytes[i / 2], i)))
}

/// `n` in uppercase hexadecimal digits, without leading zeros.
pub open spec fn hex_number(n: nat) -> Seq<char>
    decreases n,
{
    if n < 16 {
        seq![upper_digit(n)]
    } else {
        hex_number(n / 16).push(upper_digit(n % 16))
    }
}

/// `n` in uppercase hexadecimal digits after `0x`.
pub open spec fn prefixed_hex(n: nat) -> Seq<char> {
    seq!['0', 'x'] + hex_number(n)
}

/// `n` in uppercase hexadecimal digits, with zeros before them up to three
/// digits.
pub open spec fn padded_hex(n: nat) -> Seq<char> {
    let digits = hex_number(n);
    if digits.len() >= 3 {
        digits
    } else {
        Seq::new((3 - digits.len()) as nat, |i: int| '0') + digits
    }
}

/// `hex::ToHex::encode_hex`: the bytes in lowercase hexadecimal digits, two
/// for each byte, high digit first.
#[verifier::external_body]
pub(crate) fn encode_hex(bytes: &[u8]) -> (r: String)
    ensures
        r@ == hex_lower(bytes@),
{
    hex::ToHex::encode_hex::<String>(&bytes)
}

/// The uppercase character of a hexadecimal digit.
fn upper_digit_of(digit: usize) -> (r: char)
    requires
        digit < 16,
    ensures
        r == upper_digit(digit as nat),
{
    if digit == 0 {
        '0'
    } else if digit == 1 {
        '1'
    } else if digit == 2 {
        '2'
    } else if digit == 3 {
        '3'
    } else if digit == 4 {
        '4'
    } else if digit == 5 {
        '5'
    } else if digit == 6 {
        '6'
    } else if digit == 7 {
        '7'
    } else if digit == 8 {
        '8'
    } else if digit == 9 {
        '9'
    } else if digit == 10 {
        'A'
    } else if digit == 11 {
        'B'
    } else if digit == 12 {
        'C'
    } else if digit == 13 {
        'D'
    } else if digit == 14 {
        'E'
    } else {
        'F'
    }
}

/// `c` with the lowercase hexadecimal letters turned into capitals.
fn capital_of(c: char) -> (r: char)
    ensures
        r == capital(c),
{
    if c == 'a' {
        'A'
    } else if c == 'b' {
        'B'
    } else if c == 'c' {
        'C'
    } else if c == 'd' {
        'D'
    } else if c == 'e' {
        'E'
    } else if c == 'f' {
        'F'
    } else {
        c
    }
}

/// `bytes` in uppercase hexadecimal digits, two for each byte, high digit
/// first.
pub fn upper_hex(bytes: &[u8]) -> (r: String)
    ensures
        r@ == hex_upper(bytes@),
{
    let lower: String = encode_hex(bytes);
    let digits: Vec<char> = chars_of(lower.as_str());
    let mut text: String = String::new();
    let mut i: usize = 0;
    while i < digits.len()
        invariant
            i <= digits@.len(),
            digits@ == hex_lower(bytes@),
            text@ == hex_upper(bytes@).take(i as int),
        decreases digits@.len() - i,
    {
        push_char(&mut text, capital_of(digits[i]));
        assert(text@ =~= hex_upper(bytes@).take(i + 1));
        i = i + 1;
    }
    assert(text@ =~= hex_upper(bytes@));
    text
}

/// Appends to `text` what `n` is in uppercase hexadecimal digits.
pub fn push_hex_number(text: &mut String, n: usize)
    ensures
        final(text)@ == old(text)@ + hex_number(n as nat),
    decreases n,
{
    if n >= 16 {
        push_hex_number(text, n / 16);
    }
    push_char(text, upper_digit_of(n % 16));
    assert(text@ =~= old(text)@ + hex_number(n as nat));
}

/// `n` in uppercase hexadecimal digits after `0x`.
pub fn hex_with_prefix(n: usize) -> (r: String)
    ensures
        r@ == prefixed_hex(n as nat),
{
    let mut text: String = String::new();
    push_char(&mut text, '0');
    push_char(&mut text, 'x');
    push_hex_number(&mut text, n);
    assert(text@ =~= prefixed_hex(n as nat));
    text
}

/// `n` in uppercase hexadecimal digits, with zeros before them up to three
/// digits.
pub fn hex_padded(n: usize) -> (r: String)
    ensures
        r@ == padded_hex(n as nat),
{
    let mut text: String = String::new();
    if n < 0x10 {
        push_char(&mut text, '0');
        push_char(&mut text, '0');
    } else if n < 0x100 {
        push_char(&mut text, '0');
        proof {
            assert(hex_number(n as nat / 16).len() == 1);
        }
    } else {
        proof {
            let high = n as nat / 16;
            assert(hex_number(high / 16).len() >= 1);
            assert(hex_number(high) == hex_number(high / 16).push(upper_digit(high % 16)));
        }
    }
    push_hex_number(&mut text, n);
    assert(text@ =~= padded_hex(n as nat));
    text
}

} // verus!
