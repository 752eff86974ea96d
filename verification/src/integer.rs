//! Integers of any size.
//!
//! An [`Integer`] keeps a sign and the base 2^32 digits of its magnitude, least
//! significant digit first, which is also how it travels on the wire. Its
//! arithmetic is done by `num-bigint`; the functions that hand a value to that
//! crate are the trusted boundary of this module and say what they rely on.

use num_bigint::{BigInt, Sign};
use vstd::prelude::*;
use vstd::arithmetic::div_mod::lemma_fundamental_div_mod_converse;

verus! {

/// The number that a sequence of base 2^32 digits stands for, least significant
/// digit first.
pub open spec fn magnitude_value(digits: Seq<u32>) -> nat
    decreases digits.len(),
{
    if digits.len() == 0 {
        0
    } else {
        (digits[0] as nat) + 0x1_0000_0000 * magnitude_value(digits.skip(1))
    }
}

/// The digits of a number, least significant first, with no zero digit at the
/// most significant end. Zero has no digits.
pub open spec fn digits_of(n: nat) -> Seq<u32>
    decreases n,
{
    if n == 0 {
        Seq::empty()
    } else {
        seq![(n % 0x1_0000_0000) as u32] + digits_of(n / 0x1_0000_0000)
    }
}

/// No zero digit at the most significant end.
pub open spec fn trimmed(digits: Seq<u32>) -> bool {
    digits.len() > 0 ==> digits.last() != 0
}

/// The absolute value of an integer.
pub open spec fn abs(a: int) -> nat {
    if a < 0 {
        (-a) as nat
    } else {
        a as nat
    }
}

/// A magnitude with a sign in front of it.
pub open spec fn signed(negative: bool, magnitude: nat) -> int {
    if negative {
        -(magnitude as int)
    } else {
        magnitude as int
    }
}

/// Quotient of the division that rounds toward zero.
pub open spec fn trunc_div(a: int, b: int) -> int {
    let q = (abs(a) as int) / (abs(b) as int);
    if (a < 0) != (b < 0) {
        -q
    } else {
        q
    }
}

/// Remainder of the division that rounds toward zero; it has the sign of the
/// dividend.
pub open spec fn trunc_rem(a: int, b: int) -> int {
    let r = (abs(a) as int) % (abs(b) as int);
    if a < 0 {
        -r
    } else {
        r
    }
}

/// Bitwise "and" of two integers read in two's complement with the sign
/// extended without end.
pub open spec fn bit_and(a: int, b: int) -> int
    decreases abs(a),
{
    if a == 0 {
        0
    } else if a == -1 {
        b
    } else {
        2 * bit_and(a / 2, b / 2) + (if a % 2 == 1 && b % 2 == 1 {
            1int
        } else {
            0int
        })
    }
}

/// Bitwise "or" of two integers read in two's complement with the sign extended
/// without end.
pub open spec fn bit_or(a: int, b: int) -> int
    decreases abs(a),
{
    if a == 0 {
        b
    } else if a == -1 {
        -1
    } else {
        2 * bit_or(a / 2, b / 2) + (if a % 2 == 1 || b % 2 == 1 {
            1int
        } else {
            0int
        })
    }
}

/// Bitwise "exclusive or" of two integers read in two's complement with the sign
/// extended without end.
pub open spec fn bit_xor(a: int, b: int) -> int
    decreases abs(a),
{
    if a == 0 {
        b
    } else if a == -1 {
        -b - 1
    } else {
        2 * bit_xor(a / 2, b / 2) + (if (a % 2 == 1) != (b % 2 == 1) {
            1int
        } else {
            0int
        })
    }
}

/// The quotient and the remainder of the division that rounds toward zero
/// make up the dividend again, the remainder is smaller than the divisor, and
/// it is not of the other sign than the dividend.
pub proof fn lemma_division(a: int, b: int)
    requires
        b != 0,
    ensures
        a == trunc_div(a, b) * b + trunc_rem(a, b),
        abs(trunc_rem(a, b)) < abs(b),
        a >= 0 ==> trunc_rem(a, b) >= 0,
        a <= 0 ==> trunc_rem(a, b) <= 0,
{
    let x = abs(a) as int;
    let d = abs(b) as int;
    vstd::arithmetic::div_mod::lemma_fundamental_div_mod(x, d);
    vstd::arithmetic::div_mod::lemma_mod_bound(x, d);
    let q = x / d;
    let r = x % d;
    assert(x == d * q + r);
    assert(a == trunc_div(a, b) * b + trunc_rem(a, b)) by (nonlinear_arith)
        requires
            x == d * q + r,
            x == if a < 0 { -a } else { a },
            d == if b < 0 { -b } else { b },
            trunc_div(a, b) == if (a < 0) != (b < 0) { -q } else { q },
            trunc_rem(a, b) == if a < 0 { -r } else { r },
    ;
}

/// On machine integers the bitwise "and" is that of the machine.
pub proof fn lemma_machine_and(a: i64, b: i64)
    ensures
        (a & b) as int == bit_and(a as int, b as int),
    decreases abs(a as int),
{
    if a == 0 {
        assert(0i64 & b == 0) by (bit_vector);
    } else if a == -1 {
        assert((-1i64) & b == b) by (bit_vector);
    } else {
        assert((a & b) == 2 * ((a >> 1i64) & (b >> 1i64)) + ((a & 1) & (b & 1))) by (bit_vector);
        assert(((a & 1) & (b & 1)) == 1 <==> (a & 1) == 1 && (b & 1) == 1) by (bit_vector);
        assert(((a & 1) & (b & 1)) == 1 || ((a & 1) & (b & 1)) == 0) by (bit_vector);
        lemma_halves(a);
        lemma_halves(b);
        lemma_machine_and(a >> 1i64, b >> 1i64);
    }
}

/// On machine integers the bitwise "or" is that of the machine.
pub proof fn lemma_machine_or(a: i64, b: i64)
    ensures
        (a | b) as int == bit_or(a as int, b as int),
    decreases abs(a as int),
{
    if a == 0 {
        assert(0i64 | b == b) by (bit_vector);
    } else if a == -1 {
        assert((-1i64) | b == -1) by (bit_vector);
    } else {
        assert((a | b) == 2 * ((a >> 1i64) | (b >> 1i64)) + ((a & 1) | (b & 1))) by (bit_vector);
        assert(((a & 1) | (b & 1)) == 1 <==> (a & 1) == 1 || (b & 1) == 1) by (bit_vector);
        assert(((a & 1) | (b & 1)) == 1 || ((a & 1) | (b & 1)) == 0) by (bit_vector);
        lemma_halves(a);
        lemma_halves(b);
        lemma_machine_or(a >> 1i64, b >> 1i64);
    }
}

/// On machine integers the bitwise "exclusive or" is that of the machine.
pub proof fn lemma_machine_xor(a: i64, b: i64)
    ensures
        (a ^ b) as int == bit_xor(a as int, b as int),
    decreases abs(a as int),
{
    if a == 0 {
        assert(0i64 ^ b == b) by (bit_vector);
    } else if a == -1 {
        assert((-1i64) ^ b == -b - 1) by (bit_vector);
    } else {
        assert((a ^ b) == 2 * ((a >> 1i64) ^ (b >> 1i64)) + ((a & 1) ^ (b & 1))) by (bit_vector);
        assert(((a & 1) ^ (b & 1)) == 1 <==> ((a & 1) == 1) != ((b & 1) == 1)) by (bit_vector);
        assert(((a & 1) ^ (b & 1)) == 1 || ((a & 1) ^ (b & 1)) == 0) by (bit_vector);
        lemma_halves(a);
        lemma_halves(b);
        lemma_machine_xor(a >> 1i64, b >> 1i64);
    }
}

/// A machine integer is twice its half, which the shift to the right gives,
/// and its lowest bit.
proof fn lemma_halves(a: i64)
    ensures
        (a >> 1i64) as int == (a as int) / 2,
        (a & 1) == 1 <==> (a as int) % 2 == 1,
{
    assert((a & 1) == 1 || (a & 1) == 0) by (bit_vector);
    assert(a == 2 * (a >> 1i64) + (a & 1)) by (bit_vector);
}

/// The character of a decimal digit.
pub open spec fn digit_char(d: int) -> char {
    if d == 0 {
        '0'
    } else if d == 1 {
        '1'
    } else if d == 2 {
        '2'
    } else if d == 3 {
        '3'
    } else if d == 4 {
        '4'
    } else if d == 5 {
        '5'
    } else if d == 6 {
        '6'
    } else if d == 7 {
        '7'
    } else if d == 8 {
        '8'
    } else {
        '9'
    }
}

/// The decimal digits of a natural number, without leading zeros; zero is "0".
pub open spec fn decimal_digits(n: nat) -> Seq<char>
    decreases n,
{
    if n < 10 {
        seq![digit_char(n as int)]
    } else {
        decimal_digits(n / 10).push(digit_char((n % 10) as int))
    }
}

/// The decimal text of an integer: a minus sign for a negative number, then the
/// digits of its magnitude.
pub open spec fn decimal(a: int) -> Seq<char> {
    if a < 0 {
        seq!['-'] + decimal_digits(abs(a))
    } else {
        decimal_digits(abs(a))
    }
}

/// A sequence without a zero at its most significant end, and with a digit,
/// stands for a positive number.
pub proof fn lemma_trimmed_is_positive(digits: Seq<u32>)
    requires
        trimmed(digits),
        digits.len() > 0,
    ensures
        magnitude_value(digits) > 0,
    decreases digits.len(),
{
    let rest = digits.skip(1);
    if rest.len() > 0 {
        assert(rest.last() == digits.last());
        lemma_trimmed_is_positive(rest);
    } else {
        assert(digits[0] == digits.last());
    }
}

/// A zero at the most significant end changes nothing.
pub proof fn lemma_drop_leading_zero(digits: Seq<u32>)
    requires
        digits.len() > 0,
        digits.last() == 0,
    ensures
        magnitude_value(digits) == magnitude_value(digits.drop_last()),
    decreases digits.len(),
{
    let rest = digits.skip(1);
    if rest.len() > 0 {
        assert(rest.last() == digits.last());
        lemma_drop_leading_zero(rest);
        assert(rest.drop_last() =~= digits.drop_last().skip(1));
        assert(digits.drop_last()[0] == digits[0]);
    } else {
        assert(digits[0] == digits.last());
        assert(magnitude_value(rest) == 0);
        assert(digits.drop_last().len() == 0);
    }
}

/// The digits of a number stand for that number, and end in no zero.
pub proof fn lemma_value_of_digits(n: nat)
    ensures
        magnitude_value(digits_of(n)) == n,
        trimmed(digits_of(n)),
    decreases n,
{
    if n != 0 {
        let low = (n % 0x1_0000_0000) as u32;
        let high = n / 0x1_0000_0000;
        lemma_value_of_digits(high);
        let all = digits_of(n);
        assert(all == seq![low] + digits_of(high));
        assert(all.skip(1) =~= digits_of(high));
        assert(all[0] == low);
        if digits_of(high).len() > 0 {
            assert(all.last() == digits_of(high).last());
        } else {
            assert(high == 0);
            assert(all.last() == low);
        }
    }
}

/// A sequence that ends in no zero is the digits of the number it stands for:
/// every number is written in one way only.
pub proof fn lemma_digits_of_value(digits: Seq<u32>)
    requires
        trimmed(digits),
    ensures
        digits_of(magnitude_value(digits)) == digits,
    decreases digits.len(),
{
    if digits.len() == 0 {
        assert(digits_of(0) =~= digits);
    } else {
        let rest = digits.skip(1);
        let value = magnitude_value(digits);
        if rest.len() > 0 {
            assert(rest.last() == digits.last());
        }
        lemma_digits_of_value(rest);
        lemma_trimmed_is_positive(digits);
        lemma_fundamental_div_mod_converse(
            value as int,
            0x1_0000_0000,
            magnitude_value(rest) as int,
            digits[0] as int,
        );
        assert(digits_of(value) == seq![digits[0]] + rest);
        assert(seq![digits[0]] + rest =~= digits);
    }
}

/// An integer of any size.
#[derive(Debug)]
pub struct Integer {
    negative: bool,
    magnitude: Vec<u32>,
}

impl View for Integer {
    type V = int;

    closed spec fn view(&self) -> int {
        signed(self.negative, magnitude_value(self.magnitude@))
    }
}

impl Integer {
    /// Zero is not negative, and the most significant digit is not zero.
    #[verifier::type_invariant]
    spec fn canonical(self) -> bool {
        &&& trimmed(self.magnitude@)
        &&& self.magnitude@.len() == 0 ==> !self.negative
    }

    /// The integer zero.
    pub fn zero() -> (r: Integer)
        ensures
            r@ == 0,
    {
        Integer { negative: false, magnitude: Vec::new() }
    }

    /// The integer with the given sign and digits, least significant digit
    /// first. Zero digits at the most significant end are dropped, and the sign
    /// of zero is ignored.
    pub fn from_digits(negative: bool, digits: Vec<u32>) -> (r: Integer)
        ensures
            r@ == signed(negative, magnitude_value(digits@)),
    {
        let ghost given = digits@;
        let mut digits = digits;
        while digits.len() > 0 && digits[digits.len() - 1] == 0
            invariant
                magnitude_value(digits@) == magnitude_value(given),
            decreases digits.len(),
        {
            proof {
                lemma_drop_leading_zero(digits@);
            }
            digits.pop();
        }
        let negative = negative && digits.len() > 0;
        Integer { negative, magnitude: digits }
    }

    /// The integer equal to an unsigned machine integer.
    pub fn from_u64(x: u64) -> (r: Integer)
        ensures
            r@ == x,
    {
        let low: u32 = (x & 0xffff_ffff) as u32;
        let high: u32 = (x >> 32) as u32;
        assert(x == (x & 0xffff_ffff) + 0x1_0000_0000 * (x >> 32)) by (bit_vector);
        assert((x & 0xffff_ffff) < 0x1_0000_0000) by (bit_vector);
        assert((x >> 32) < 0x1_0000_0000) by (bit_vector);
        let mut digits: Vec<u32> = Vec::new();
        digits.push(low);
        digits.push(high);
        proof {
            let s = digits@;
            assert(s.skip(1)[0] == high);
            assert(s.skip(1).skip(1).len() == 0);
            assert(magnitude_value(s.skip(1).skip(1)) == 0);
            assert(magnitude_value(s.skip(1)) == high);
            assert(magnitude_value(s) == x);
        }
        Integer::from_digits(false, digits)
    }

    /// The integer with the given sign and magnitude.
    pub fn from_sign_magnitude(negative: bool, magnitude: u64) -> (r: Integer)
        ensures
            r@ == signed(negative, magnitude as nat),
    {
        let size = Integer::from_u64(magnitude);
        proof {
            lemma_value_of_digits(magnitude as nat);
        }
        Integer::from_digits(negative, size.into_digits())
    }

    /// The integer equal to a signed machine integer.
    pub fn from_i64(x: i64) -> (r: Integer)
        ensures
            r@ == x,
    {
        if x >= 0 {
            Integer::from_u64(x as u64)
        } else {
            let size: u64 = if x == i64::MIN {
                0x8000_0000_0000_0000
            } else {
                (-x) as u64
            };
            Integer::from_sign_magnitude(true, size)
        }
    }

    /// The integer equal to a length or an index.
    pub fn from_usize(x: usize) -> (r: Integer)
        ensures
            r@ == x,
    {
        Integer::from_u64(x as u64)
    }

    /// Whether the integer is below zero.
    pub fn is_negative(&self) -> (r: bool)
        ensures
            r == (self@ < 0),
    {
        proof {
            use_type_invariant(self);
            if self.magnitude@.len() > 0 {
                lemma_trimmed_is_positive(self.magnitude@);
            }
        }
        self.negative
    }

    /// Whether the integer is zero.
    pub fn is_zero(&self) -> (r: bool)
        ensures
            r == (self@ == 0),
    {
        proof {
            use_type_invariant(self);
            if self.magnitude@.len() > 0 {
                lemma_trimmed_is_positive(self.magnitude@);
            }
        }
        self.magnitude.len() == 0
    }

    /// The digits of the magnitude, least significant first.
    pub fn digits(&self) -> (r: &Vec<u32>)
        ensures
            r@ == digits_of(abs(self@)),
    {
        proof {
            use_type_invariant(self);
            lemma_digits_of_value(self.magnitude@);
        }
        &self.magnitude
    }

    /// The digits of the magnitude, least significant first, out of the integer.
    pub fn into_digits(self) -> (r: Vec<u32>)
        ensures
            r@ == digits_of(abs(self@)),
    {
        proof {
            use_type_invariant(&self);
            lemma_digits_of_value(self.magnitude@);
        }
        self.magnitude
    }

    /// The integer as a length, where it is one.
    pub fn to_usize(&self) -> (r: Option<usize>)
        ensures
            r matches Some(n) ==> n == self@,
            r is Some <==> 0 <= self@ <= usize::MAX,
    {
        proof {
            use_type_invariant(self);
            if self.magnitude@.len() > 0 {
                lemma_trimmed_is_positive(self.magnitude@);
            }
        }
        let ghost s = self.magnitude@;
        if self.negative {
            None
        } else if self.magnitude.len() == 0 {
            Some(0)
        } else if self.magnitude.len() == 1 {
            assert(magnitude_value(s.skip(1)) == 0);
            Some(self.magnitude[0] as usize)
        } else if self.magnitude.len() == 2 {
            proof {
                assert(s.skip(1)[0] == s[1]);
                assert(magnitude_value(s.skip(1).skip(1)) == 0);
                assert(magnitude_value(s.skip(1)) == s[1]);
            }
            let wide: u64 = self.magnitude[0] as u64 + 0x1_0000_0000u64 * (self.magnitude[1] as u64);
            if wide <= usize::MAX as u64 {
                Some(wide as usize)
            } else {
                None
            }
        } else {
            proof {
                let rest = s.skip(1).skip(1);
                assert(rest.last() == s.last());
                lemma_trimmed_is_positive(rest);
                assert(magnitude_value(s.skip(1)) >= 0x1_0000_0000 * magnitude_value(rest));
            }
            None
        }
    }
}

/// The sum of two integers, computed by `num-bigint` (`BigInt + BigInt`).
/// Trusted: that the operator adds, that `BigInt::from_slice` reads the digits
/// least significant first, and that `to_u32_digits` gives them back with no
/// zero at the most significant end and with `Sign::Minus` for negative
/// numbers only. The other functions of this group lean on the same reading of
/// `from_slice` and `to_u32_digits`.
#[verifier::external_body]
pub(crate) fn sum(a: &Integer, b: &Integer) -> (r: Integer)
    ensures
        r@ == a@ + b@,
{
    let x = BigInt::from_slice(if a.negative { Sign::Minus } else { Sign::Plus }, &a.magnitude);
    let y = BigInt::from_slice(if b.negative { Sign::Minus } else { Sign::Plus }, &b.magnitude);
    let (sign, magnitude) = (x + y).to_u32_digits();
    Integer { negative: sign == Sign::Minus, magnitude }
}

/// The difference of two integers, computed by `num-bigint`
/// (`BigInt - BigInt`). Trusted: that the operator subtracts.
#[verifier::external_body]
pub(crate) fn difference(a: &Integer, b: &Integer) -> (r: Integer)
    ensures
        r@ == a@ - b@,
{
    let x = BigInt::from_slice(if a.negative { Sign::Minus } else { Sign::Plus }, &a.magnitude);
    let y = BigInt::from_slice(if b.negative { Sign::Minus } else { Sign::Plus }, &b.magnitude);
    let (sign, magnitude) = (x - y).to_u32_digits();
    Integer { negative: sign == Sign::Minus, magnitude }
}

/// The product of two integers, computed by `num-bigint` (`BigInt * BigInt`).
/// Trusted: that the operator multiplies.
#[verifier::external_body]
pub(crate) fn product(a: &Integer, b: &Integer) -> (r: Integer)
    ensures
        r@ == a@ * b@,
{
    let x = BigInt::from_slice(if a.negative { Sign::Minus } else { Sign::Plus }, &a.magnitude);
    let y = BigInt::from_slice(if b.negative { Sign::Minus } else { Sign::Plus }, &b.magnitude);
    let (sign, magnitude) = (x * y).to_u32_digits();
    Integer { negative: sign == Sign::Minus, magnitude }
}

/// The quotient of two integers, computed by `num-bigint` (`BigInt / BigInt`).
/// Trusted: that the operator rounds toward zero. It panics on a zero divisor,
/// which the precondition leaves out.
#[verifier::external_body]
pub(crate) fn quotient(a: &Integer, b: &Integer) -> (r: Integer)
    requires
        b@ != 0,
    ensures
        r@ == trunc_div(a@, b@),
{
    let x = BigInt::from_slice(if a.negative { Sign::Minus } else { Sign::Plus }, &a.magnitude);
    let y = BigInt::from_slice(if b.negative { Sign::Minus } else { Sign::Plus }, &b.magnitude);
    let (sign, magnitude) = (x / y).to_u32_digits();
    Integer { negative: sign == Sign::Minus, magnitude }
}

/// The remainder of two integers, computed by `num-bigint`
/// (`BigInt % BigInt`). Trusted: that it is the remainder of the division that
/// rounds toward zero, with the sign of the dividend. It panics on a zero
/// divisor, which the precondition leaves out.
#[verifier::external_body]
pub(crate) fn remainder(a: &Integer, b: &Integer) -> (r: Integer)
    requires
        b@ != 0,
    ensures
        r@ == trunc_rem(a@, b@),
{
    let x = BigInt::from_slice(if a.negative { Sign::Minus } else { Sign::Plus }, &a.magnitude);
    let y = BigInt::from_slice(if b.negative { Sign::Minus } else { Sign::Plus }, &b.magnitude);
    let (sign, magnitude) = (x % y).to_u32_digits();
    Integer { negative: sign == Sign::Minus, magnitude }
}

/// Bitwise "and", computed by `num-bigint` (`BigInt & BigInt`). Trusted: that the
/// operator works on the two's complement form of negative numbers.
#[verifier::external_body]
pub(crate) fn conjunction(a: &Integer, b: &Integer) -> (r: Integer)
    ensures
        r@ == bit_and(a@, b@),
{
    let x = BigInt::from_slice(if a.negative { Sign::Minus } else { Sign::Plus }, &a.magnitude);
    let y = BigInt::from_slice(if b.negative { Sign::Minus } else { Sign::Plus }, &b.magnitude);
    let (sign, magnitude) = (x & y).to_u32_digits();
    Integer { negative: sign == Sign::Minus, magnitude }
}

/// Bitwise "or", computed by `num-bigint` (`BigInt | BigInt`). Trusted: that the
/// operator works on the two's complement form of negative numbers.
#[verifier::external_body]
pub(crate) fn disjunction(a: &Integer, b: &Integer) -> (r: Integer)
    ensures
        r@ == bit_or(a@, b@),
{
    let x = BigInt::from_slice(if a.negative { Sign::Minus } else { Sign::Plus }, &a.magnitude);
    let y = BigInt::from_slice(if b.negative { Sign::Minus } else { Sign::Plus }, &b.magnitude);
    let (sign, magnitude) = (x | y).to_u32_digits();
    Integer { negative: sign == Sign::Minus, magnitude }
}

/// Bitwise "exclusive or", computed by `num-bigint` (`BigInt ^ BigInt`). Trusted:
/// that the operator works on the two's complement form of negative numbers.
#[verifier::external_body]
pub(crate) fn exclusive(a: &Integer, b: &Integer) -> (r: Integer)
    ensures
        r@ == bit_xor(a@, b@),
{
    let x = BigInt::from_slice(if a.negative { Sign::Minus } else { Sign::Plus }, &a.magnitude);
    let y = BigInt::from_slice(if b.negative { Sign::Minus } else { Sign::Plus }, &b.magnitude);
    let (sign, magnitude) = (x ^ y).to_u32_digits();
    Integer { negative: sign == Sign::Minus, magnitude }
}

/// Bitwise complement, computed by `num-bigint` (`!BigInt`). Trusted: that the
/// complement of `a` is `-a - 1`, as in two's complement.
#[verifier::external_body]
pub(crate) fn complement(a: &Integer) -> (r: Integer)
    ensures
        r@ == -a@ - 1,
{
    let x = BigInt::from_slice(if a.negative { Sign::Minus } else { Sign::Plus }, &a.magnitude);
    let (sign, magnitude) = (!x).to_u32_digits();
    Integer { negative: sign == Sign::Minus, magnitude }
}

/// The negated integer, computed by `num-bigint` (`-BigInt`). Trusted: that the
/// operator flips the sign.
#[verifier::external_body]
pub(crate) fn negation(a: &Integer) -> (r: Integer)
    ensures
        r@ == -a@,
{
    let x = BigInt::from_slice(if a.negative { Sign::Minus } else { Sign::Plus }, &a.magnitude);
    let (sign, magnitude) = (-x).to_u32_digits();
    Integer { negative: sign == Sign::Minus, magnitude }
}

/// Whether one integer is below another, decided by `num-bigint`
/// (`BigInt < BigInt`). Trusted: that the operator orders by value.
#[verifier::external_body]
pub(crate) fn less(a: &Integer, b: &Integer) -> (r: bool)
    ensures
        r == (a@ < b@),
{
    let x = BigInt::from_slice(if a.negative { Sign::Minus } else { Sign::Plus }, &a.magnitude);
    let y = BigInt::from_slice(if b.negative { Sign::Minus } else { Sign::Plus }, &b.magnitude);
    x < y
}

/// The decimal text of an integer, written by `num-bigint` (`BigInt::to_string`).
/// Trusted: that the text is a minus sign for a negative number followed by the
/// decimal digits of the magnitude, without leading zeros.
#[verifier::external_body]
pub(crate) fn text(a: &Integer) -> (r: String)
    ensures
        r@ == decimal(a@),
{
    let x = BigInt::from_slice(if a.negative { Sign::Minus } else { Sign::Plus }, &a.magnitude);
    x.to_string()
}

/// Whether two integers are equal.
pub fn equal(a: &Integer, b: &Integer) -> (r: bool)
    ensures
        r == (a@ == b@),
{
    proof {
        use_type_invariant(a);
        use_type_invariant(b);
        lemma_digits_of_value(a.magnitude@);
        lemma_digits_of_value(b.magnitude@);
        if a.magnitude@.len() > 0 {
            lemma_trimmed_is_positive(a.magnitude@);
        }
        if b.magnitude@.len() > 0 {
            lemma_trimmed_is_positive(b.magnitude@);
        }
    }
    if a.negative != b.negative || a.magnitude.len() != b.magnitude.len() {
        return false;
    }
    let mut i: usize = 0;
    while i < a.magnitude.len()
        invariant
            a.magnitude@.len() == b.magnitude@.len(),
            a.negative == b.negative,
            digits_of(magnitude_value(a.magnitude@)) == a.magnitude@,
            digits_of(magnitude_value(b.magnitude@)) == b.magnitude@,
            i <= a.magnitude@.len(),
            forall|j: int| 0 <= j < i ==> a.magnitude@[j] == b.magnitude@[j],
        decreases a.magnitude@.len() - i,
    {
        if a.magnitude[i] != b.magnitude[i] {
            return false;
        }
        i += 1;
    }
    assert(a.magnitude@ =~= b.magnitude@);
    true
}

impl PartialEq for Integer {
    fn eq(&self, other: &Integer) -> (r: bool) {
        equal(self, other)
    }
}

impl vstd::std_specs::cmp::PartialEqSpecImpl for Integer {
    open spec fn obeys_eq_spec() -> bool {
        true
    }

    open spec fn eq_spec(&self, other: &Integer) -> bool {
        self@ == other@
    }
}

impl Eq for Integer {

}

impl Clone for Integer {
    fn clone(&self) -> (r: Integer)
        ensures
            r@ == self@,
    {
        proof {
            use_type_invariant(self);
        }
        Integer { negative: self.negative, magnitude: self.magnitude.clone() }
    }
}

} // verus!
