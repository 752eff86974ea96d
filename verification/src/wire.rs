//! The wire format of values: a compact, self-describing encoding in the
//! MessagePack layout.
//!
//! `Unit` is `nil`, a truth value is `false` or `true`, a text is a `str`, and a
//! number is an array of two: its sign (-1, 0 or 1) and the array of the base
//! 2^32 digits of its magnitude, least significant first. A reader also takes a
//! plain MessagePack integer for a number.

use crate::integer::{abs, digits_of, magnitude_value, signed, Integer};
use crate::value::{RawValue, Value};
use vstd::prelude::*;
use vstd::slice::{slice_subrange, slice_to_vec};
use vstd::utf8::{decode_utf8, encode_utf8, valid_utf8};

verus! {

/// Why bytes could not be read as a value, or a value not written.
#[derive(Debug, Clone, Copy, PartialEq, Eq, Structural)]
pub enum WireError {
    /// The bytes end in the middle of a value.
    UnexpectedEnd,
    /// The bytes hold something that is none of the kinds of value, or not what
    /// is expected at that place.
    Unsupported,
    /// A text that is not UTF-8.
    InvalidUtf8,
    /// A sign other than -1, 0 or 1, or a digit that is not below 2^32.
    InvalidNumber,
    /// A text or a sequence with more than 2^32 - 1 members cannot be written.
    TooLong,
}

/// 256 to the power of `width`: the number of values that `width` bytes hold.
pub open spec fn limit(width: nat) -> nat
    decreases width,
{
    if width == 0 {
        1
    } else {
        256 * limit((width - 1) as nat)
    }
}

/// The number that bytes stand for, most significant byte first.
pub open spec fn be_value(bytes: Seq<u8>) -> nat
    decreases bytes.len(),
{
    if bytes.len() == 0 {
        0
    } else {
        be_value(bytes.drop_last()) * 256 + bytes.last() as nat
    }
}

/// The number that `width` bytes of `bytes` at `pos` stand for, most
/// significant byte first.
pub open spec fn be_uint(bytes: Seq<u8>, pos: int, width: nat) -> nat {
    be_value(bytes.subrange(pos, pos + width))
}

/// The `width` bytes that stand for `n`, most significant byte first.
pub open spec fn be_bytes(n: nat, width: nat) -> Seq<u8>
    decreases width,
{
    if width == 0 {
        Seq::empty()
    } else {
        be_bytes(n / 256, (width - 1) as nat).push((n % 256) as u8)
    }
}

/// One item of the byte stream: a whole small value, or the head of a text or
/// of an array.
#[derive(Debug, Clone, Copy, PartialEq, Eq, Structural)]
pub enum Token {
    Nil,
    Bool(bool),
    /// An integer, as sign and magnitude.
    Int { negative: bool, magnitude: u64 },
    /// The head of a text of so many bytes.
    Str(u32),
    /// The head of an array of so many members.
    Array(u32),
}

/// A signed integer of `width` bytes read from the unsigned number that the same
/// bytes stand for (two's complement).
pub open spec fn twos_complement(raw: nat, width: nat) -> int {
    if 2 * raw >= limit(width) {
        raw - limit(width)
    } else {
        raw as int
    }
}

/// The token for an integer.
pub open spec fn int_token(value: int) -> Token {
    Token::Int { negative: value < 0, magnitude: abs(value) as u64 }
}

/// The bytes that follow the first byte of a token: the width of the number
/// that the first byte announces.
pub open spec fn operand_width(first: u8) -> nat {
    if first == 0xcc || first == 0xd0 || first == 0xd9 {
        1
    } else if first == 0xcd || first == 0xd1 || first == 0xda || first == 0xdc {
        2
    } else if first == 0xce || first == 0xd2 || first == 0xdb || first == 0xdd {
        4
    } else if first == 0xcf || first == 0xd3 {
        8
    } else {
        0
    }
}

/// Whether a first byte begins one of the tokens of this format. Floats, byte
/// strings, maps and extensions do not.
pub open spec fn known_first(first: u8) -> bool {
    ||| first <= 0xbf && !(0x80 <= first <= 0x8f)
    ||| first == 0xc0
    ||| first == 0xc2
    ||| first == 0xc3
    ||| 0xcc <= first <= 0xd3
    ||| 0xd9 <= first <= 0xdd
    ||| first >= 0xe0
}

/// The token that a first byte and the number after it make.
pub open spec fn token_of(first: u8, operand: nat) -> Token {
    if first <= 0x7f {
        Token::Int { negative: false, magnitude: first as u64 }
    } else if first <= 0x9f {
        Token::Array((first - 0x90) as u32)
    } else if first <= 0xbf {
        Token::Str((first - 0xa0) as u32)
    } else if first == 0xc0 {
        Token::Nil
    } else if first == 0xc2 {
        Token::Bool(false)
    } else if first == 0xc3 {
        Token::Bool(true)
    } else if 0xcc <= first <= 0xcf {
        Token::Int { negative: false, magnitude: operand as u64 }
    } else if 0xd0 <= first <= 0xd3 {
        int_token(twos_complement(operand, operand_width(first)))
    } else if first == 0xdc || first == 0xdd {
        Token::Array(operand as u32)
    } else if first >= 0xe0 {
        Token::Int { negative: true, magnitude: (256 - first) as u64 }
    } else {
        Token::Str(operand as u32)
    }
}

/// The token at `pos` and the position after it.
pub open spec fn token_at(bytes: Seq<u8>, pos: int) -> Result<(Token, int), WireError> {
    if pos < 0 || pos >= bytes.len() {
        Err(WireError::UnexpectedEnd)
    } else {
        let first = bytes[pos];
        let width = operand_width(first);
        if !known_first(first) {
            Err(WireError::Unsupported)
        } else if pos + 1 + width > bytes.len() {
            Err(WireError::UnexpectedEnd)
        } else {
            Ok((token_of(first, be_uint(bytes, pos + 1, width)), pos + 1 + width))
        }
    }
}

/// The values of `limit` for widths up to eight.
pub proof fn lemma_limits()
    ensures
        limit(0) == 1,
        limit(1) == 0x100,
        limit(2) == 0x1_0000,
        limit(3) == 0x100_0000,
        limit(4) == 0x1_0000_0000,
        limit(5) == 0x100_0000_0000,
        limit(6) == 0x1_0000_0000_0000,
        limit(7) == 0x100_0000_0000_0000,
        limit(8) == 0x1_0000_0000_0000_0000,
{
    reveal_with_fuel(limit, 9);
}

/// Bytes stand for a number below the limit of their width.
pub proof fn lemma_be_value_bound(bytes: Seq<u8>)
    ensures
        be_value(bytes) < limit(bytes.len()),
    decreases bytes.len(),
{
    if bytes.len() > 0 {
        lemma_be_value_bound(bytes.drop_last());
    }
}

/// Reading the bytes of a number gives the number back.
pub proof fn lemma_be_round_trip(n: nat, width: nat)
    requires
        n < limit(width),
    ensures
        be_bytes(n, width).len() == width,
        be_value(be_bytes(n, width)) == n,
    decreases width,
{
    if width > 0 {
        let shorter = (width - 1) as nat;
        lemma_be_round_trip(n / 256, shorter);
        let all = be_bytes(n, width);
        assert(all.drop_last() =~= be_bytes(n / 256, shorter));
        assert(all.last() == (n % 256) as u8);
    }
}

/// Whether an executable result is the one that the format prescribes.
pub open spec fn agrees<T>(got: Result<(T, usize), WireError>, want: Result<(T, int), WireError>) -> bool {
    match got {
        Ok((item, next)) => want == Ok::<(T, int), WireError>((item, next as int)),
        Err(e) => want == Err::<(T, int), WireError>(e),
    }
}

/// Reads `width` bytes at `pos` as a number, most significant byte first.
fn read_be(bytes: &[u8], pos: usize, width: usize) -> (r: u64)
    requires
        width <= 8,
        pos + width <= bytes@.len(),
    ensures
        r == be_uint(bytes@, pos as int, width as nat),
{
    let mut acc: u64 = 0;
    let mut i: usize = 0;
    let total: usize = bytes.len();
    proof {
        lemma_limits();
    }
    while i < width
        invariant
            i <= width <= 8,
            pos + width <= bytes@.len(),
            total == bytes@.len(),
            acc == be_uint(bytes@, pos as int, i as nat),
            acc < limit(i as nat),
        decreases width - i,
    {
        proof {
            lemma_limits();
            let longer = bytes@.subrange(pos as int, pos + i + 1);
            assert(longer.drop_last() =~= bytes@.subrange(pos as int, pos + i));
            assert(longer.last() == bytes@[pos + i]);
            assert(i == 0 || i == 1 || i == 2 || i == 3 || i == 4 || i == 5 || i == 6 || i == 7);
        }
        acc = acc * 256 + bytes[pos + i] as u64;
        i += 1;
    }
    acc
}

/// Reads the token at `pos`.
pub fn read_token(bytes: &[u8], pos: usize) -> (r: Result<(Token, usize), WireError>)
    ensures
        agrees(r, token_at(bytes@, pos as int)),
{
    if pos >= bytes.len() {
        return Err(WireError::UnexpectedEnd);
    }
    let first = bytes[pos];
    let width: usize = if first == 0xcc || first == 0xd0 || first == 0xd9 {
        1
    } else if first == 0xcd || first == 0xd1 || first == 0xda || first == 0xdc {
        2
    } else if first == 0xce || first == 0xd2 || first == 0xdb || first == 0xdd {
        4
    } else if first == 0xcf || first == 0xd3 {
        8
    } else {
        0
    };
    let known = (first <= 0xbf && !(0x80 <= first && first <= 0x8f)) || first == 0xc0 || first
        == 0xc2 || first == 0xc3 || (0xcc <= first && first <= 0xd3) || (0xd9 <= first && first
        <= 0xdd) || first >= 0xe0;
    if !known {
        return Err(WireError::Unsupported);
    }
    if width > bytes.len() - pos - 1 {
        return Err(WireError::UnexpectedEnd);
    }
    let operand = read_be(bytes, pos + 1, width);
    proof {
        lemma_limits();
        lemma_be_value_bound(bytes@.subrange(pos + 1, pos + 1 + width));
    }
    let token = if first <= 0x7f {
        Token::Int { negative: false, magnitude: first as u64 }
    } else if first <= 0x9f {
        Token::Array((first - 0x90) as u32)
    } else if first <= 0xbf {
        Token::Str((first - 0xa0) as u32)
    } else if first == 0xc0 {
        Token::Nil
    } else if first == 0xc2 {
        Token::Bool(false)
    } else if first == 0xc3 {
        Token::Bool(true)
    } else if 0xcc <= first && first <= 0xcf {
        Token::Int { negative: false, magnitude: operand }
    } else if 0xd0 <= first && first <= 0xd3 {
        let half: u64 = if width == 1 {
            0x80
        } else if width == 2 {
            0x8000
        } else if width == 4 {
            0x8000_0000
        } else {
            0x8000_0000_0000_0000
        };
        if operand >= half {
            Token::Int { negative: true, magnitude: (half - (operand - half)) }
        } else {
            Token::Int { negative: false, magnitude: operand }
        }
    } else if first == 0xdc || first == 0xdd {
        Token::Array(operand as u32)
    } else if first >= 0xe0 {
        Token::Int { negative: true, magnitude: (256 - first as u64) }
    } else {
        Token::Str(operand as u32)
    };
    Ok((token, pos + 1 + width))
}

/// Reads `remaining` digits from `pos` on, after the digits in `acc`: every one
/// an unsigned integer below 2^32, in any of the integer layouts.
pub open spec fn digits_from(bytes: Seq<u8>, pos: int, remaining: nat, acc: Seq<u32>) -> Result<
    (Seq<u32>, int),
    WireError,
>
    decreases remaining,
{
    if remaining == 0 {
        Ok((acc, pos))
    } else {
        match token_at(bytes, pos) {
            Err(e) => Err(e),
            Ok((Token::Int { negative, magnitude }, next)) => if negative || magnitude
                > 0xffff_ffff {
                Err(WireError::InvalidNumber)
            } else {
                digits_from(bytes, next, (remaining - 1) as nat, acc.push(magnitude as u32))
            },
            Ok(_) => Err(WireError::Unsupported),
        }
    }
}

/// Reads the two members of a number from `pos` on: the sign, then the array of
/// the digits. A sign of 0 gives zero whatever the digits are.
pub open spec fn number_at(bytes: Seq<u8>, pos: int) -> Result<(Value, int), WireError> {
    match token_at(bytes, pos) {
        Err(e) => Err(e),
        Ok((Token::Int { negative, magnitude }, after_sign)) => if magnitude > 1 {
            Err(WireError::InvalidNumber)
        } else {
            match token_at(bytes, after_sign) {
                Err(e) => Err(e),
                Ok((Token::Array(count), start)) => match digits_from(
                    bytes,
                    start,
                    count as nat,
                    Seq::empty(),
                ) {
                    Err(e) => Err(e),
                    Ok((digits, end)) => Ok(
                        (
                            Value::Num(
                                if magnitude == 0 {
                                    0
                                } else {
                                    signed(negative, magnitude_value(digits))
                                },
                            ),
                            end,
                        ),
                    ),
                },
                Ok(_) => Err(WireError::Unsupported),
            }
        },
        Ok(_) => Err(WireError::Unsupported),
    }
}

/// Reads the value at `pos`: the value and the position after it, or the reason
/// why there is none.
pub open spec fn value_at(bytes: Seq<u8>, pos: int) -> Result<(Value, int), WireError> {
    match token_at(bytes, pos) {
        Err(e) => Err(e),
        Ok((Token::Nil, next)) => Ok((Value::Unit, next)),
        Ok((Token::Bool(b), next)) => Ok((Value::Bool(b), next)),
        Ok((Token::Int { negative, magnitude }, next)) => Ok(
            (Value::Num(signed(negative, magnitude as nat)), next),
        ),
        Ok((Token::Str(len), next)) => if next + len > bytes.len() {
            Err(WireError::UnexpectedEnd)
        } else if !valid_utf8(bytes.subrange(next, next + len)) {
            Err(WireError::InvalidUtf8)
        } else {
            Ok((Value::Str(decode_utf8(bytes.subrange(next, next + len))), next + len))
        },
        Ok((Token::Array(count), next)) => if count == 2 {
            number_at(bytes, next)
        } else {
            Err(WireError::Unsupported)
        },
    }
}

/// Whether a value that was read is the one that the format prescribes.
pub open spec fn reads(got: Result<(RawValue, usize), WireError>, want: Result<(Value, int), WireError>) -> bool {
    match got {
        Ok((value, next)) => want == Ok::<(Value, int), WireError>((value@, next as int)),
        Err(e) => want == Err::<(Value, int), WireError>(e),
    }
}

/// The text that bytes spell in UTF-8, by `String::from_utf8` of std. Trusted:
/// that std accepts exactly the well-formed UTF-8 that `vstd::utf8` describes,
/// and decodes it to the same characters.
#[verifier::external_body]
fn string_from_utf8(bytes: Vec<u8>) -> (r: Option<String>)
    ensures
        r is Some <==> valid_utf8(bytes@),
        r matches Some(s) ==> s@ == decode_utf8(bytes@),
{
    String::from_utf8(bytes).ok()
}

/// Reads `count` digits from `pos` on.
fn read_digits(bytes: &[u8], pos: usize, count: u32) -> (r: Result<(Vec<u32>, usize), WireError>)
    ensures
        match r {
            Ok((digits, next)) => digits_from(bytes@, pos as int, count as nat, Seq::empty())
                == Ok::<(Seq<u32>, int), WireError>((digits@, next as int)),
            Err(e) => digits_from(bytes@, pos as int, count as nat, Seq::empty()) == Err::<
                (Seq<u32>, int),
                WireError,
            >(e),
        },
{
    let mut digits: Vec<u32> = Vec::new();
    let mut at: usize = pos;
    let mut left: u32 = count;
    while left > 0
        invariant
            digits_from(bytes@, pos as int, count as nat, Seq::empty()) == digits_from(
                bytes@,
                at as int,
                left as nat,
                digits@,
            ),
        decreases left,
    {
        match read_token(bytes, at) {
            Err(e) => {
                return Err(e);
            },
            Ok((Token::Int { negative, magnitude }, next)) => {
                if negative || magnitude > 0xffff_ffff {
                    return Err(WireError::InvalidNumber);
                }
                digits.push(magnitude as u32);
                at = next;
                left -= 1;
            },
            Ok(_) => {
                return Err(WireError::Unsupported);
            },
        }
    }
    Ok((digits, at))
}

/// Reads the sign and the digits of a number from `pos` on.
fn read_number(bytes: &[u8], pos: usize) -> (r: Result<(RawValue, usize), WireError>)
    ensures
        reads(r, number_at(bytes@, pos as int)),
{
    match read_token(bytes, pos) {
        Err(e) => Err(e),
        Ok((Token::Int { negative, magnitude }, after_sign)) => {
            if magnitude > 1 {
                return Err(WireError::InvalidNumber);
            }
            match read_token(bytes, after_sign) {
                Err(e) => Err(e),
                Ok((Token::Array(count), start)) => match read_digits(bytes, start, count) {
                    Err(e) => Err(e),
                    Ok((digits, end)) => {
                        let number = if magnitude == 0 {
                            Integer::zero()
                        } else {
                            Integer::from_digits(negative, digits)
                        };
                        Ok((RawValue::Num(number), end))
                    },
                },
                Ok(_) => Err(WireError::Unsupported),
            }
        },
        Ok(_) => Err(WireError::Unsupported),
    }
}

/// Reads the value at `pos` of `bytes`: the value and the position after it.
pub fn decode(bytes: &[u8], pos: usize) -> (r: Result<(RawValue, usize), WireError>)
    ensures
        reads(r, value_at(bytes@, pos as int)),
{
    match read_token(bytes, pos) {
        Err(e) => Err(e),
        Ok((Token::Nil, next)) => Ok((RawValue::Unit, next)),
        Ok((Token::Bool(b), next)) => Ok((RawValue::Bool(b), next)),
        Ok((Token::Int { negative, magnitude }, next)) => {
            Ok((RawValue::Num(Integer::from_sign_magnitude(negative, magnitude)), next))
        },
        Ok((Token::Str(len), next)) => {
            if len as usize > bytes.len() - next {
                return Err(WireError::UnexpectedEnd);
            }
            let raw = slice_subrange(bytes, next, next + len as usize);
            match string_from_utf8(slice_to_vec(raw)) {
                Some(s) => Ok((RawValue::Str(s), next + len as usize)),
                None => Err(WireError::InvalidUtf8),
            }
        },
        Ok((Token::Array(count), next)) => {
            if count == 2 {
                read_number(bytes, next)
            } else {
                Err(WireError::Unsupported)
            }
        },
    }
}

/// Reads the value that `bytes` begin with. What follows the value is not
/// looked at.
pub fn from_slice(bytes: &[u8]) -> (r: Result<RawValue, WireError>)
    ensures
        match r {
            Ok(value) => value_at(bytes@, 0) is Ok && value_at(bytes@, 0)->Ok_0.0 == value@,
            Err(e) => value_at(bytes@, 0) == Err::<(Value, int), WireError>(e),
        },
{
    match decode(bytes, 0) {
        Ok((value, _)) => Ok(value),
        Err(e) => Err(e),
    }
}

/// An unsigned integer below 2^32 in the shortest of the layouts for unsigned
/// integers.
pub open spec fn uint_encoding(n: nat) -> Seq<u8> {
    if n < 0x80 {
        seq![n as u8]
    } else if n < 0x100 {
        seq![0xccu8, n as u8]
    } else if n < 0x1_0000 {
        seq![0xcdu8] + be_bytes(n, 2)
    } else {
        seq![0xceu8] + be_bytes(n, 4)
    }
}

/// The head of a text of `len` bytes, in the shortest layout.
pub open spec fn str_header(len: nat) -> Seq<u8> {
    if len < 32 {
        seq![(0xa0 + len) as u8]
    } else if len < 0x100 {
        seq![0xd9u8, len as u8]
    } else if len < 0x1_0000 {
        seq![0xdau8] + be_bytes(len, 2)
    } else {
        seq![0xdbu8] + be_bytes(len, 4)
    }
}

/// The head of an array of `len` members, in the shortest layout.
pub open spec fn array_header(len: nat) -> Seq<u8> {
    if len < 16 {
        seq![(0x90 + len) as u8]
    } else if len < 0x1_0000 {
        seq![0xdcu8] + be_bytes(len, 2)
    } else {
        seq![0xddu8] + be_bytes(len, 4)
    }
}

/// The digits of a magnitude, one after the other.
pub open spec fn digits_encoding(digits: Seq<u32>) -> Seq<u8>
    decreases digits.len(),
{
    if digits.len() == 0 {
        Seq::empty()
    } else {
        uint_encoding(digits[0] as nat) + digits_encoding(digits.skip(1))
    }
}

/// The byte for the sign of a number: -1, 0 or 1 as a one-byte integer.
pub open spec fn sign_byte(n: int) -> u8 {
    if n < 0 {
        0xff
    } else if n == 0 {
        0x00
    } else {
        0x01
    }
}

/// The bytes of a value.
pub open spec fn encoding(value: Value) -> Seq<u8> {
    match value {
        Value::Unit => seq![0xc0u8],
        Value::Bool(b) => seq![if b { 0xc3u8 } else { 0xc2u8 }],
        Value::Num(n) => seq![0x92u8, sign_byte(n)] + array_header(digits_of(abs(n)).len())
            + digits_encoding(digits_of(abs(n))),
        Value::Str(s) => str_header(encode_utf8(s).len()) + encode_utf8(s),
    }
}

/// Whether a value can be written: its text, or the digits of its number, are
/// no more than 2^32 - 1.
pub open spec fn encodable(value: Value) -> bool {
    match value {
        Value::Num(n) => digits_of(abs(n)).len() <= 0xffff_ffff,
        Value::Str(s) => encode_utf8(s).len() <= 0xffff_ffff,
        _ => true,
    }
}

/// The digits with one more digit are the bytes of the digits with the bytes of
/// that digit after them.
pub proof fn lemma_digits_encoding_push(digits: Seq<u32>, digit: u32)
    ensures
        digits_encoding(digits.push(digit)) == digits_encoding(digits) + uint_encoding(
            digit as nat,
        ),
    decreases digits.len(),
{
    let longer = digits.push(digit);
    if digits.len() == 0 {
        assert(longer.skip(1) =~= Seq::<u32>::empty());
        assert(digits_encoding(longer.skip(1)) =~= Seq::<u8>::empty());
        assert(digits_encoding(longer) =~= uint_encoding(digit as nat));
        assert(digits_encoding(digits) + uint_encoding(digit as nat) =~= uint_encoding(
            digit as nat,
        ));
    } else {
        lemma_digits_encoding_push(digits.skip(1), digit);
        assert(longer.skip(1) =~= digits.skip(1).push(digit));
        assert(longer[0] == digits[0]);
        assert(digits_encoding(longer) =~= digits_encoding(digits) + uint_encoding(digit as nat));
    }
}

/// Appends a number of two bytes, most significant byte first.
fn write_u16(out: &mut Vec<u8>, n: u16)
    ensures
        final(out)@ == old(out)@ + be_bytes(n as nat, 2),
{
    out.push((n / 0x100) as u8);
    out.push((n % 0x100) as u8);
    proof {
        reveal_with_fuel(be_bytes, 3);
        assert(final(out)@ =~= old(out)@ + be_bytes(n as nat, 2));
    }
}

/// Appends a number of four bytes, most significant byte first.
fn write_u32(out: &mut Vec<u8>, n: u32)
    ensures
        final(out)@ == old(out)@ + be_bytes(n as nat, 4),
{
    out.push((n / 0x100_0000) as u8);
    out.push((n / 0x1_0000 % 0x100) as u8);
    out.push((n / 0x100 % 0x100) as u8);
    out.push((n % 0x100) as u8);
    proof {
        reveal_with_fuel(be_bytes, 5);
        let m = n as nat;
        assert(m / 256 / 256 == m / 0x1_0000);
        assert(m / 256 / 256 / 256 == m / 0x100_0000);
        assert(final(out)@ =~= old(out)@ + be_bytes(n as nat, 4));
    }
}

/// Appends an unsigned integer in its shortest layout.
fn write_uint(out: &mut Vec<u8>, n: u32)
    ensures
        final(out)@ == old(out)@ + uint_encoding(n as nat),
{
    if n < 0x80 {
        out.push(n as u8);
        assert(final(out)@ =~= old(out)@ + uint_encoding(n as nat));
    } else if n < 0x100 {
        out.push(0xcc);
        out.push(n as u8);
        assert(final(out)@ =~= old(out)@ + uint_encoding(n as nat));
    } else if n < 0x1_0000 {
        out.push(0xcd);
        write_u16(out, n as u16);
        assert(final(out)@ =~= old(out)@ + uint_encoding(n as nat));
    } else {
        out.push(0xce);
        write_u32(out, n);
        assert(final(out)@ =~= old(out)@ + uint_encoding(n as nat));
    }
}

/// Appends the head of a text of `len` bytes.
fn write_str_header(out: &mut Vec<u8>, len: u32)
    ensures
        final(out)@ == old(out)@ + str_header(len as nat),
{
    if len < 32 {
        out.push(0xa0 + len as u8);
        assert(final(out)@ =~= old(out)@ + str_header(len as nat));
    } else if len < 0x100 {
        out.push(0xd9);
        out.push(len as u8);
        assert(final(out)@ =~= old(out)@ + str_header(len as nat));
    } else if len < 0x1_0000 {
        out.push(0xda);
        write_u16(out, len as u16);
        assert(final(out)@ =~= old(out)@ + str_header(len as nat));
    } else {
        out.push(0xdb);
        write_u32(out, len);
        assert(final(out)@ =~= old(out)@ + str_header(len as nat));
    }
}

/// Appends the head of an array of `len` members.
fn write_array_header(out: &mut Vec<u8>, len: u32)
    ensures
        final(out)@ == old(out)@ + array_header(len as nat),
{
    if len < 16 {
        out.push(0x90 + len as u8);
        assert(final(out)@ =~= old(out)@ + array_header(len as nat));
    } else if len < 0x1_0000 {
        out.push(0xdc);
        write_u16(out, len as u16);
        assert(final(out)@ =~= old(out)@ + array_header(len as nat));
    } else {
        out.push(0xdd);
        write_u32(out, len);
        assert(final(out)@ =~= old(out)@ + array_header(len as nat));
    }
}

/// Appends the bytes of a value to `out`. A value that cannot be written leaves
/// `out` as it was.
pub fn encode(value: &RawValue, out: &mut Vec<u8>) -> (r: Result<(), WireError>)
    ensures
        r is Ok <==> encodable(value@),
        r is Ok ==> final(out)@ == old(out)@ + encoding(value@),
        r is Err ==> r == Err::<(), WireError>(WireError::TooLong) && final(out)@ == old(out)@,
{
    match value {
        RawValue::Unit => {
            out.push(0xc0);
            assert(final(out)@ =~= old(out)@ + encoding(value@));
            Ok(())
        },
        RawValue::Bool(b) => {
            out.push(if *b { 0xc3 } else { 0xc2 });
            assert(final(out)@ =~= old(out)@ + encoding(value@));
            Ok(())
        },
        RawValue::Num(n) => {
            let digits = n.digits();
            if digits.len() > 0xffff_ffff {
                return Err(WireError::TooLong);
            }
            out.push(0x92);
            out.push(if n.is_negative() { 0xff } else if n.is_zero() { 0x00 } else { 0x01 });
            write_array_header(out, digits.len() as u32);
            let ghost head = out@;
            let mut i: usize = 0;
            while i < digits.len()
                invariant
                    i <= digits@.len(),
                    out@ == head + digits_encoding(digits@.take(i as int)),
                decreases digits@.len() - i,
            {
                proof {
                    lemma_digits_encoding_push(digits@.take(i as int), digits@[i as int]);
                    assert(digits@.take(i + 1) =~= digits@.take(i as int).push(digits@[i as int]));
                }
                write_uint(out, digits[i]);
                i += 1;
            }
            proof {
                assert(digits@.take(i as int) =~= digits@);
                assert(final(out)@ =~= old(out)@ + encoding(value@));
            }
            Ok(())
        },
        RawValue::Str(s) => {
            let bytes = s.as_str().as_bytes();
            if bytes.len() > 0xffff_ffff {
                return Err(WireError::TooLong);
            }
            write_str_header(out, bytes.len() as u32);
            out.extend_from_slice(bytes);
            assert(final(out)@ =~= old(out)@ + encoding(value@));
            Ok(())
        },
    }
}

/// The bytes of a value.
pub fn to_vec(value: &RawValue) -> (r: Result<Vec<u8>, WireError>)
    ensures
        r is Ok <==> encodable(value@),
        r matches Ok(bytes) ==> bytes@ == encoding(value@),
        r is Err ==> r == Err::<Vec<u8>, WireError>(WireError::TooLong),
{
    let mut out: Vec<u8> = Vec::new();
    match encode(value, &mut out) {
        Ok(()) => Ok(out),
        Err(e) => Err(e),
    }
}

/// Whether `part` stands in `bytes` at `pos`.
pub open spec fn occurs(bytes: Seq<u8>, pos: int, part: Seq<u8>) -> bool {
    &&& 0 <= pos
    &&& pos + part.len() <= bytes.len()
    &&& bytes.subrange(pos, pos + part.len()) == part
}

/// Where two parts stand one after the other, each of them stands.
pub proof fn lemma_occurs_split(bytes: Seq<u8>, pos: int, first: Seq<u8>, second: Seq<u8>)
    requires
        occurs(bytes, pos, first + second),
    ensures
        occurs(bytes, pos, first),
        occurs(bytes, pos + first.len(), second),
{
    let whole = bytes.subrange(pos, pos + (first + second).len());
    assert(bytes.subrange(pos, pos + first.len()) =~= whole.subrange(0, first.len() as int));
    assert(whole.subrange(0, first.len() as int) =~= first);
    assert(bytes.subrange(pos + first.len(), pos + first.len() + second.len())
        =~= whole.subrange(first.len() as int, whole.len() as int));
    assert(whole.subrange(first.len() as int, whole.len() as int) =~= second);
}

/// A number written after a first byte is read back as that number.
proof fn lemma_operand(bytes: Seq<u8>, pos: int, first: u8, n: nat, width: nat)
    requires
        width <= 8,
        n < limit(width),
        occurs(bytes, pos, seq![first] + be_bytes(n, width)),
    ensures
        bytes[pos] == first,
        pos + 1 + width <= bytes.len(),
        be_uint(bytes, pos + 1, width) == n,
        (seq![first] + be_bytes(n, width)).len() == 1 + width,
{
    lemma_be_round_trip(n, width);
    lemma_occurs_split(bytes, pos, seq![first], be_bytes(n, width));
    assert(bytes.subrange(pos, pos + 1)[0] == first);
}

/// An unsigned integer in its shortest layout is read back as the same integer.
pub proof fn lemma_uint_token(bytes: Seq<u8>, pos: int, n: nat)
    requires
        n <= 0xffff_ffff,
        occurs(bytes, pos, uint_encoding(n)),
    ensures
        token_at(bytes, pos) == Ok::<(Token, int), WireError>(
            (Token::Int { negative: false, magnitude: n as u64 }, pos + uint_encoding(n).len()),
        ),
{
    lemma_limits();
    if n < 0x80 {
        assert(bytes.subrange(pos, pos + 1)[0] == n as u8);
    } else if n < 0x100 {
        assert(seq![0xccu8, n as u8] =~= seq![0xccu8] + be_bytes(n, 1)) by {
            reveal_with_fuel(be_bytes, 2);
        }
        lemma_operand(bytes, pos, 0xcc, n, 1);
    } else if n < 0x1_0000 {
        lemma_operand(bytes, pos, 0xcd, n, 2);
    } else {
        lemma_operand(bytes, pos, 0xce, n, 4);
    }
}

/// The head of a text is read back with the same length.
pub proof fn lemma_str_header_token(bytes: Seq<u8>, pos: int, len: nat)
    requires
        len <= 0xffff_ffff,
        occurs(bytes, pos, str_header(len)),
    ensures
        token_at(bytes, pos) == Ok::<(Token, int), WireError>(
            (Token::Str(len as u32), pos + str_header(len).len()),
        ),
{
    lemma_limits();
    if len < 32 {
        assert(bytes.subrange(pos, pos + 1)[0] == (0xa0 + len) as u8);
    } else if len < 0x100 {
        assert(seq![0xd9u8, len as u8] =~= seq![0xd9u8] + be_bytes(len, 1)) by {
            reveal_with_fuel(be_bytes, 2);
        }
        lemma_operand(bytes, pos, 0xd9, len, 1);
    } else if len < 0x1_0000 {
        lemma_operand(bytes, pos, 0xda, len, 2);
    } else {
        lemma_operand(bytes, pos, 0xdb, len, 4);
    }
}

/// The head of an array is read back with the same length.
pub proof fn lemma_array_header_token(bytes: Seq<u8>, pos: int, len: nat)
    requires
        len <= 0xffff_ffff,
        occurs(bytes, pos, array_header(len)),
    ensures
        token_at(bytes, pos) == Ok::<(Token, int), WireError>(
            (Token::Array(len as u32), pos + array_header(len).len()),
        ),
{
    lemma_limits();
    if len < 16 {
        assert(bytes.subrange(pos, pos + 1)[0] == (0x90 + len) as u8);
    } else if len < 0x1_0000 {
        lemma_operand(bytes, pos, 0xdc, len, 2);
    } else {
        lemma_operand(bytes, pos, 0xdd, len, 4);
    }
}

/// Digits that were written are read back, after the digits read before them.
pub proof fn lemma_digits_round_trip(bytes: Seq<u8>, pos: int, digits: Seq<u32>, acc: Seq<u32>)
    requires
        occurs(bytes, pos, digits_encoding(digits)),
    ensures
        digits_from(bytes, pos, digits.len(), acc) == Ok::<(Seq<u32>, int), WireError>(
            (acc + digits, pos + digits_encoding(digits).len()),
        ),
    decreases digits.len(),
{
    if digits.len() == 0 {
        assert(acc + digits =~= acc);
    } else {
        let head = uint_encoding(digits[0] as nat);
        let tail = digits.skip(1);
        lemma_occurs_split(bytes, pos, head, digits_encoding(tail));
        lemma_uint_token(bytes, pos, digits[0] as nat);
        lemma_digits_round_trip(bytes, pos + head.len(), tail, acc.push(digits[0]));
        assert(acc.push(digits[0]) + tail =~= acc + digits);
    }
}

/// Reading what was written gives the value back: wherever the bytes of a value
/// stand, that value is read there, and reading ends right after them.
pub proof fn lemma_value_round_trip(bytes: Seq<u8>, pos: int, value: Value)
    requires
        encodable(value),
        occurs(bytes, pos, encoding(value)),
    ensures
        value_at(bytes, pos) == Ok::<(Value, int), WireError>(
            (value, pos + encoding(value).len()),
        ),
{
    match value {
        Value::Unit => {
            assert(bytes.subrange(pos, pos + 1)[0] == 0xc0u8);
        },
        Value::Bool(b) => {
            assert(bytes.subrange(pos, pos + 1)[0] == (if b { 0xc3u8 } else { 0xc2u8 }));
        },
        Value::Num(n) => {
            let digits = digits_of(abs(n));
            let front = seq![0x92u8, sign_byte(n)];
            let header = array_header(digits.len());
            crate::integer::lemma_value_of_digits(abs(n));
            assert(encoding(value) =~= front + (header + digits_encoding(digits)));
            lemma_occurs_split(bytes, pos, front, header + digits_encoding(digits));
            lemma_occurs_split(bytes, pos + 2, header, digits_encoding(digits));
            assert(bytes.subrange(pos, pos + 2)[0] == 0x92u8);
            assert(bytes.subrange(pos, pos + 2)[1] == sign_byte(n));
            assert(token_at(bytes, pos) == Ok::<(Token, int), WireError>(
                (Token::Array(2), pos + 1),
            ));
            assert(token_at(bytes, pos + 1) == Ok::<(Token, int), WireError>(
                (Token::Int { negative: n < 0, magnitude: if n == 0 { 0 } else { 1 } }, pos + 2),
            ));
            lemma_array_header_token(bytes, pos + 2, digits.len());
            lemma_digits_round_trip(bytes, pos + 2 + header.len(), digits, Seq::empty());
            assert(Seq::<u32>::empty() + digits =~= digits);
        },
        Value::Str(s) => {
            let text = encode_utf8(s);
            let header = str_header(text.len());
            lemma_occurs_split(bytes, pos, header, text);
            lemma_str_header_token(bytes, pos, text.len());
            vstd::utf8::encode_utf8_valid_utf8(s);
            vstd::utf8::encode_utf8_decode_utf8(s);
        },
    }
}

/// Reading the bytes of a value gives the value back, whatever follows them.
pub proof fn lemma_round_trip(value: Value, rest: Seq<u8>)
    requires
        encodable(value),
    ensures
        value_at(encoding(value) + rest, 0) == Ok::<(Value, int), WireError>(
            (value, encoding(value).len() as int),
        ),
{
    let bytes = encoding(value) + rest;
    assert(bytes.subrange(0, encoding(value).len() as int) =~= encoding(value));
    lemma_value_round_trip(bytes, 0, value);
}

/// What each of a sequence of values is.
pub open spec fn views(values: Seq<RawValue>) -> Seq<Value> {
    values.map_values(|v: RawValue| v@)
}

/// What each of a sequence of texts spells.
pub open spec fn texts(values: Seq<String>) -> Seq<Seq<char>> {
    values.map_values(|s: String| s@)
}

/// The bytes of values, one after the other.
pub open spec fn values_encoding(values: Seq<Value>) -> Seq<u8>
    decreases values.len(),
{
    if values.len() == 0 {
        Seq::empty()
    } else {
        encoding(values[0]) + values_encoding(values.skip(1))
    }
}

/// The bytes of the arguments of a call to a method of a plugin: an array of
/// one member, which is the array of the arguments.
pub open spec fn args_encoding(args: Seq<Value>) -> Seq<u8> {
    seq![0x91u8] + array_header(args.len()) + values_encoding(args)
}

/// Whether the arguments of a call can be written.
pub open spec fn args_encodable(args: Seq<Value>) -> bool {
    &&& args.len() <= 0xffff_ffff
    &&& forall|i: int| 0 <= i < args.len() ==> encodable(#[trigger] args[i])
}

/// The values with one more value are the bytes of the values with the bytes of
/// that value after them.
pub proof fn lemma_values_encoding_push(values: Seq<Value>, value: Value)
    ensures
        values_encoding(values.push(value)) == values_encoding(values) + encoding(value),
    decreases values.len(),
{
    let longer = values.push(value);
    if values.len() == 0 {
        assert(longer.skip(1) =~= Seq::<Value>::empty());
        assert(values_encoding(longer.skip(1)) =~= Seq::<u8>::empty());
        assert(values_encoding(longer) =~= encoding(value));
        assert(values_encoding(values) + encoding(value) =~= encoding(value));
    } else {
        lemma_values_encoding_push(values.skip(1), value);
        assert(longer.skip(1) =~= values.skip(1).push(value));
        assert(longer[0] == values[0]);
        assert(values_encoding(longer) =~= values_encoding(values) + encoding(value));
    }
}

/// The bytes of the arguments of a call to a method of a plugin.
pub fn encode_args(args: &Vec<RawValue>) -> (r: Result<Vec<u8>, WireError>)
    ensures
        r is Ok <==> args_encodable(views(args@)),
        r matches Ok(bytes) ==> bytes@ == args_encoding(views(args@)),
        r is Err ==> r == Err::<Vec<u8>, WireError>(WireError::TooLong),
{
    if args.len() > 0xffff_ffff {
        return Err(WireError::TooLong);
    }
    let mut out: Vec<u8> = Vec::new();
    out.push(0x91);
    write_array_header(&mut out, args.len() as u32);
    let ghost head = out@;
    let mut i: usize = 0;
    while i < args.len()
        invariant
            i <= args@.len(),
            out@ == head + values_encoding(views(args@).take(i as int)),
            forall|j: int| 0 <= j < i ==> encodable(#[trigger] views(args@)[j]),
        decreases args@.len() - i,
    {
        proof {
            lemma_values_encoding_push(views(args@).take(i as int), args@[i as int]@);
            assert(views(args@).take(i + 1) =~= views(args@).take(i as int).push(
                args@[i as int]@,
            ));
        }
        match encode(&args[i], &mut out) {
            Ok(()) => {},
            Err(e) => {
                assert(!encodable(views(args@)[i as int]));
                return Err(e);
            },
        }
        i += 1;
    }
    proof {
        assert(views(args@).take(i as int) =~= views(args@));
        assert(out@ =~= args_encoding(views(args@)));
    }
    Ok(out)
}

/// The unsigned integer that `bytes` begin with, in any of the integer layouts.
pub open spec fn uint_at(bytes: Seq<u8>) -> Result<u64, WireError> {
    match token_at(bytes, 0) {
        Err(e) => Err(e),
        Ok((Token::Int { negative, magnitude }, _)) => if negative {
            Err(WireError::InvalidNumber)
        } else {
            Ok(magnitude)
        },
        Ok(_) => Err(WireError::Unsupported),
    }
}

/// Reads the unsigned integer that `bytes` begin with.
pub fn decode_uint(bytes: &[u8]) -> (r: Result<u64, WireError>)
    ensures
        r == uint_at(bytes@),
{
    match read_token(bytes, 0) {
        Err(e) => Err(e),
        Ok((Token::Int { negative, magnitude }, _)) => if negative {
            Err(WireError::InvalidNumber)
        } else {
            Ok(magnitude)
        },
        Ok(_) => Err(WireError::Unsupported),
    }
}

/// Reads `remaining` texts from `pos` on, after the texts in `acc`.
pub open spec fn strings_from(
    bytes: Seq<u8>,
    pos: int,
    remaining: nat,
    acc: Seq<Seq<char>>,
) -> Result<Seq<Seq<char>>, WireError>
    decreases remaining,
{
    if remaining == 0 {
        Ok(acc)
    } else {
        match value_at(bytes, pos) {
            Err(e) => Err(e),
            Ok((Value::Str(s), next)) => strings_from(
                bytes,
                next,
                (remaining - 1) as nat,
                acc.push(s),
            ),
            Ok(_) => Err(WireError::Unsupported),
        }
    }
}

/// The array of texts that `bytes` begin with.
pub open spec fn strings_at(bytes: Seq<u8>) -> Result<Seq<Seq<char>>, WireError> {
    match token_at(bytes, 0) {
        Err(e) => Err(e),
        Ok((Token::Array(count), start)) => strings_from(bytes, start, count as nat, Seq::empty()),
        Ok(_) => Err(WireError::Unsupported),
    }
}

/// Reads the array of texts that `bytes` begin with.
pub fn decode_strings(bytes: &[u8]) -> (r: Result<Vec<String>, WireError>)
    ensures
        match r {
            Ok(found) => strings_at(bytes@) == Ok::<Seq<Seq<char>>, WireError>(texts(found@)),
            Err(e) => strings_at(bytes@) == Err::<Seq<Seq<char>>, WireError>(e),
        },
{
    match read_token(bytes, 0) {
        Err(e) => Err(e),
        Ok((Token::Array(count), start)) => {
            let mut found: Vec<String> = Vec::new();
            let mut at: usize = start;
            let mut left: u32 = count;
            assert(texts(found@) =~= Seq::<Seq<char>>::empty());
            while left > 0
                invariant
                    strings_at(bytes@) == strings_from(
                        bytes@,
                        at as int,
                        left as nat,
                        texts(found@),
                    ),
                decreases left,
            {
                match decode(bytes, at) {
                    Err(e) => {
                        return Err(e);
                    },
                    Ok((RawValue::Str(s), next)) => {
                        assert(texts(found@.push(s)) =~= texts(found@).push(s@));
                        found.push(s);
                        at = next;
                        left -= 1;
                    },
                    Ok(_) => {
                        return Err(WireError::Unsupported);
                    },
                }
            }
            Ok(found)
        },
        Ok(_) => Err(WireError::Unsupported),
    }
}

/// The bytes of texts, one after the other.
pub open spec fn texts_encoding(values: Seq<Seq<char>>) -> Seq<u8>
    decreases values.len(),
{
    if values.len() == 0 {
        Seq::empty()
    } else {
        texts_encoding(values.drop_last()) + encoding(Value::Str(values.last()))
    }
}

/// The bytes of an array of texts.
pub open spec fn strings_encoding(values: Seq<Seq<char>>) -> Seq<u8> {
    array_header(values.len()) + texts_encoding(values)
}

/// Whether an array of texts can be written.
pub open spec fn strings_encodable(values: Seq<Seq<char>>) -> bool {
    &&& values.len() <= 0xffff_ffff
    &&& forall|i: int| 0 <= i < values.len() ==> encodable(Value::Str(#[trigger] values[i]))
}

/// Appends the bytes of an array of texts to `out`.
pub fn encode_strings(values: &Vec<String>, out: &mut Vec<u8>) -> (r: Result<(), WireError>)
    ensures
        r is Ok <==> strings_encodable(texts(values@)),
        r is Ok ==> final(out)@ == old(out)@ + strings_encoding(texts(values@)),
        r is Err ==> r == Err::<(), WireError>(WireError::TooLong),
{
    if values.len() > 0xffff_ffff {
        return Err(WireError::TooLong);
    }
    write_array_header(out, values.len() as u32);
    let ghost head = out@;
    let mut i: usize = 0;
    assert(texts(values@).take(0) =~= Seq::<Seq<char>>::empty());
    while i < values.len()
        invariant
            i <= values@.len(),
            out@ == head + texts_encoding(texts(values@).take(i as int)),
            forall|j: int| 0 <= j < i ==> encodable(Value::Str(#[trigger] texts(values@)[j])),
        decreases values@.len() - i,
    {
        let bytes = values[i].as_str().as_bytes();
        if bytes.len() > 0xffff_ffff {
            assert(!encodable(Value::Str(texts(values@)[i as int])));
            return Err(WireError::TooLong);
        }
        proof {
            let longer = texts(values@).take(i + 1);
            assert(longer.drop_last() =~= texts(values@).take(i as int));
            assert(longer.last() == values@[i as int]@);
        }
        write_str_header(out, bytes.len() as u32);
        out.extend_from_slice(bytes);
        assert(out@ =~= head + texts_encoding(texts(values@).take(i + 1)));
        i += 1;
    }
    proof {
        assert(texts(values@).take(i as int) =~= texts(values@));
        assert(out@ =~= old(out)@ + strings_encoding(texts(values@)));
    }
    Ok(())
}

/// Reads `remaining` values from `pos` on, after the values in `acc`.
pub open spec fn values_from(bytes: Seq<u8>, pos: int, remaining: nat, acc: Seq<Value>) -> Result<
    Seq<Value>,
    WireError,
>
    decreases remaining,
{
    if remaining == 0 {
        Ok(acc)
    } else {
        match value_at(bytes, pos) {
            Err(e) => Err(e),
            Ok((value, next)) => values_from(bytes, next, (remaining - 1) as nat, acc.push(value)),
        }
    }
}

/// The arguments of a call that `bytes` begin with: an array of one member,
/// which is the array of the arguments.
pub open spec fn args_at(bytes: Seq<u8>) -> Result<Seq<Value>, WireError> {
    match token_at(bytes, 0) {
        Err(e) => Err(e),
        Ok((Token::Array(outer), inner)) => if outer != 1 {
            Err(WireError::Unsupported)
        } else {
            match token_at(bytes, inner) {
                Err(e) => Err(e),
                Ok((Token::Array(count), start)) => values_from(
                    bytes,
                    start,
                    count as nat,
                    Seq::empty(),
                ),
                Ok(_) => Err(WireError::Unsupported),
            }
        },
        Ok(_) => Err(WireError::Unsupported),
    }
}

/// Reads the arguments of a call, as the module that is called does.
pub fn decode_args(bytes: &[u8]) -> (r: Result<Vec<RawValue>, WireError>)
    ensures
        match r {
            Ok(args) => args_at(bytes@) == Ok::<Seq<Value>, WireError>(views(args@)),
            Err(e) => args_at(bytes@) == Err::<Seq<Value>, WireError>(e),
        },
{
    match read_token(bytes, 0) {
        Err(e) => Err(e),
        Ok((Token::Array(outer), inner)) => {
            if outer != 1 {
                return Err(WireError::Unsupported);
            }
            match read_token(bytes, inner) {
                Err(e) => Err(e),
                Ok((Token::Array(count), start)) => {
                    let mut args: Vec<RawValue> = Vec::new();
                    let mut at: usize = start;
                    let mut left: u32 = count;
                    assert(views(args@) =~= Seq::<Value>::empty());
                    while left > 0
                        invariant
                            args_at(bytes@) == values_from(
                                bytes@,
                                at as int,
                                left as nat,
                                views(args@),
                            ),
                        decreases left,
                    {
                        match decode(bytes, at) {
                            Err(e) => {
                                return Err(e);
                            },
                            Ok((value, next)) => {
                                assert(views(args@.push(value)) =~= views(args@).push(value@));
                                args.push(value);
                                at = next;
                                left -= 1;
                            },
                        }
                    }
                    Ok(args)
                },
                Ok(_) => Err(WireError::Unsupported),
            }
        },
        Ok(_) => Err(WireError::Unsupported),
    }
}

/// Values that were written are read back, after the values read before them.
pub proof fn lemma_values_round_trip(bytes: Seq<u8>, pos: int, values: Seq<Value>, acc: Seq<Value>)
    requires
        forall|i: int| 0 <= i < values.len() ==> encodable(#[trigger] values[i]),
        occurs(bytes, pos, values_encoding(values)),
    ensures
        values_from(bytes, pos, values.len(), acc) == Ok::<Seq<Value>, WireError>(acc + values),
    decreases values.len(),
{
    if values.len() == 0 {
        assert(acc + values =~= acc);
    } else {
        let head = encoding(values[0]);
        let tail = values.skip(1);
        lemma_occurs_split(bytes, pos, head, values_encoding(tail));
        lemma_value_round_trip(bytes, pos, values[0]);
        assert forall|i: int| 0 <= i < tail.len() implies encodable(#[trigger] tail[i]) by {
            assert(tail[i] == values[i + 1]);
        }
        lemma_values_round_trip(bytes, pos + head.len(), tail, acc.push(values[0]));
        assert(acc.push(values[0]) + tail =~= acc + values);
    }
}

/// The arguments of a call arrive as they were sent: reading the bytes of
/// arguments gives the arguments back, whatever follows them.
pub proof fn lemma_args_round_trip(args: Seq<Value>, rest: Seq<u8>)
    requires
        args_encodable(args),
    ensures
        args_at(args_encoding(args) + rest) == Ok::<Seq<Value>, WireError>(args),
{
    let header = array_header(args.len());
    let body = values_encoding(args);
    let bytes = args_encoding(args) + rest;
    assert(bytes =~= seq![0x91u8] + (header + (body + rest)));
    assert(bytes[0] == 0x91u8);
    assert(token_at(bytes, 0) == Ok::<(Token, int), WireError>((Token::Array(1), 1)));
    let start = 1 + header.len() as int;
    assert(bytes.subrange(1, start) =~= header);
    lemma_array_header_token(bytes, 1, args.len());
    assert(bytes.subrange(start, start + body.len()) =~= body);
    lemma_values_round_trip(bytes, start, args, Seq::empty());
    assert(Seq::<Value>::empty() + args =~= args);
}

} // verus!
