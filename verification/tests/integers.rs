use gal_runtime::ast::ValBinaryOp;
use gal_runtime::integer::{equal, Integer};
use gal_runtime::ops::{bin_num_val, checked_num_val, EvalError};
use gal_runtime::value::RawValue;
use num_bigint::BigInt;

fn whole(x: i64) -> Integer {
    Integer::from_i64(x)
}

fn text_of(x: &Integer) -> String {
    RawValue::Num(x.clone()).get_str()
}

/// 2^64, which no machine integer of 64 bits holds.
fn two_to_64() -> Integer {
    Integer::from_digits(false, vec![0, 0, 1])
}

#[test]
fn zero_has_no_digits() {
    assert!(Integer::zero().is_zero());
    assert!(!Integer::zero().is_negative());
    assert_eq!(Integer::zero().digits().len(), 0);
    assert_eq!(text_of(&Integer::zero()), "0");
}

#[test]
fn from_u64_splits_into_digits() {
    let x = Integer::from_u64(0x1_0000_0002);
    assert_eq!(x.digits(), &vec![2u32, 1u32]);
    let y = Integer::from_u64(u64::MAX);
    assert_eq!(y.digits(), &vec![u32::MAX, u32::MAX]);
    assert_eq!(text_of(&y), "18446744073709551615");
    assert_eq!(Integer::from_u64(7).digits(), &vec![7u32]);
}

#[test]
fn from_i64_keeps_the_sign() {
    assert_eq!(text_of(&whole(-1919810)), "-1919810");
    assert_eq!(text_of(&whole(114514)), "114514");
    assert_eq!(text_of(&whole(i64::MIN)), "-9223372036854775808");
    assert_eq!(text_of(&whole(i64::MAX)), "9223372036854775807");
    assert!(whole(-1).is_negative());
    assert!(!whole(1).is_negative());
}

#[test]
fn from_digits_drops_zeros_at_the_top() {
    let x = Integer::from_digits(false, vec![5, 0, 0]);
    assert_eq!(x.digits(), &vec![5u32]);
    assert!(equal(&x, &whole(5)));
    let zero = Integer::from_digits(true, vec![0, 0]);
    assert!(zero.is_zero());
    assert!(!zero.is_negative());
    assert!(equal(&zero, &Integer::zero()));
}

#[test]
fn from_sign_magnitude_makes_both_signs() {
    assert!(equal(&Integer::from_sign_magnitude(true, 5), &whole(-5)));
    assert!(equal(&Integer::from_sign_magnitude(false, 5), &whole(5)));
    assert!(Integer::from_sign_magnitude(true, 0).is_zero());
}

#[test]
fn to_usize_takes_lengths_only() {
    assert_eq!(whole(0).to_usize(), Some(0));
    assert_eq!(whole(3).to_usize(), Some(3));
    assert_eq!(whole(-1).to_usize(), None);
    assert_eq!(Integer::from_u64(u64::MAX).to_usize(), usize::try_from(u64::MAX).ok());
    assert_eq!(two_to_64().to_usize(), None);
}

#[test]
fn equality_is_by_value() {
    assert!(equal(&whole(5), &whole(5)));
    assert!(!equal(&whole(5), &whole(-5)));
    assert!(!equal(&whole(5), &whole(6)));
    assert!(!equal(&two_to_64(), &whole(0)));
    assert!(whole(5) == whole(5));
    assert!(whole(5) != whole(6));
}

#[test]
fn clone_keeps_the_value() {
    let x = two_to_64();
    assert!(equal(&x.clone(), &x));
}

#[test]
fn sum_goes_beyond_64_bits() {
    let x = Integer::from_u64(u64::MAX);
    let r = bin_num_val(&x, &ValBinaryOp::Add, &whole(1));
    assert!(equal(&r, &two_to_64()));
    assert_eq!(text_of(&r), "18446744073709551616");
    assert_eq!(text_of(&bin_num_val(&whole(2), &ValBinaryOp::Add, &whole(3))), "5");
}

#[test]
fn difference_can_go_below_zero() {
    assert_eq!(text_of(&bin_num_val(&whole(2), &ValBinaryOp::Minus, &whole(3))), "-1");
    let r = bin_num_val(&two_to_64(), &ValBinaryOp::Minus, &whole(1));
    assert_eq!(text_of(&r), "18446744073709551615");
}

#[test]
fn product_of_large_numbers() {
    let r = bin_num_val(&two_to_64(), &ValBinaryOp::Mul, &two_to_64());
    assert_eq!(text_of(&r), "340282366920938463463374607431768211456");
    assert_eq!(text_of(&bin_num_val(&whole(-4), &ValBinaryOp::Mul, &whole(6))), "-24");
}

#[test]
fn quotient_rounds_toward_zero() {
    assert_eq!(text_of(&bin_num_val(&whole(7), &ValBinaryOp::Div, &whole(2))), "3");
    assert_eq!(text_of(&bin_num_val(&whole(-7), &ValBinaryOp::Div, &whole(2))), "-3");
    assert_eq!(text_of(&bin_num_val(&whole(7), &ValBinaryOp::Div, &whole(-2))), "-3");
    assert_eq!(text_of(&bin_num_val(&whole(-7), &ValBinaryOp::Div, &whole(-2))), "3");
}

#[test]
fn remainder_has_the_sign_of_the_dividend() {
    assert_eq!(text_of(&bin_num_val(&whole(7), &ValBinaryOp::Mod, &whole(2))), "1");
    assert_eq!(text_of(&bin_num_val(&whole(-7), &ValBinaryOp::Mod, &whole(2))), "-1");
    assert_eq!(text_of(&bin_num_val(&whole(7), &ValBinaryOp::Mod, &whole(-2))), "1");
    assert_eq!(text_of(&bin_num_val(&whole(-7), &ValBinaryOp::Mod, &whole(-2))), "-1");
}

#[test]
fn division_by_zero_is_an_error() {
    assert_eq!(
        checked_num_val(&whole(1), &ValBinaryOp::Div, &whole(0)),
        Err(EvalError::DivisionByZero)
    );
    assert_eq!(
        checked_num_val(&whole(1), &ValBinaryOp::Mod, &whole(0)),
        Err(EvalError::DivisionByZero)
    );
    assert_eq!(
        checked_num_val(&whole(6), &ValBinaryOp::Div, &whole(3)),
        Ok(RawValue::Num(whole(2)))
    );
    assert_eq!(
        checked_num_val(&whole(6), &ValBinaryOp::Add, &whole(0)),
        Ok(RawValue::Num(whole(6)))
    );
}

#[test]
fn bitwise_and_reads_twos_complement() {
    assert_eq!(text_of(&bin_num_val(&whole(12), &ValBinaryOp::And, &whole(10))), "8");
    assert_eq!(text_of(&bin_num_val(&whole(-1), &ValBinaryOp::And, &whole(10))), "10");
    assert_eq!(text_of(&bin_num_val(&whole(-4), &ValBinaryOp::And, &whole(6))), "4");
    assert_eq!(text_of(&bin_num_val(&whole(-4), &ValBinaryOp::And, &whole(-6))), "-8");
}

#[test]
fn bitwise_or_reads_twos_complement() {
    assert_eq!(text_of(&bin_num_val(&whole(12), &ValBinaryOp::Or, &whole(10))), "14");
    assert_eq!(text_of(&bin_num_val(&whole(-4), &ValBinaryOp::Or, &whole(1))), "-3");
    assert_eq!(text_of(&bin_num_val(&whole(-1), &ValBinaryOp::Or, &whole(10))), "-1");
}

#[test]
fn bitwise_xor_reads_twos_complement() {
    assert_eq!(text_of(&bin_num_val(&whole(12), &ValBinaryOp::Xor, &whole(10))), "6");
    assert_eq!(text_of(&bin_num_val(&whole(-1), &ValBinaryOp::Xor, &whole(10))), "-11");
    assert_eq!(text_of(&bin_num_val(&whole(-4), &ValBinaryOp::Xor, &whole(-6))), "6");
}

#[test]
fn the_operators_agree_with_the_bigint_crate() {
    let samples: Vec<i64> = vec![-1_000_000_007, -255, -17, -2, -1, 0, 1, 2, 3, 16, 255, 65_536, 4_294_967_296];
    for a in samples.iter() {
        for b in samples.iter() {
            let x = BigInt::from(*a);
            let y = BigInt::from(*b);
            let mut cases = vec![
                (ValBinaryOp::Add, &x + &y),
                (ValBinaryOp::Minus, &x - &y),
                (ValBinaryOp::Mul, &x * &y),
                (ValBinaryOp::And, &x & &y),
                (ValBinaryOp::Or, &x | &y),
                (ValBinaryOp::Xor, &x ^ &y),
            ];
            if *b != 0 {
                cases.push((ValBinaryOp::Div, &x / &y));
                cases.push((ValBinaryOp::Mod, &x % &y));
            }
            for (op, want) in cases {
                let got = bin_num_val(&whole(*a), &op, &whole(*b));
                assert_eq!(text_of(&got), want.to_string(), "{} {:?} {}", a, op, b);
            }
        }
    }
}

#[test]
fn digits_agree_with_the_bigint_crate() {
    let big = BigInt::parse_bytes(b"-123456789012345678901234567890", 10).unwrap();
    let (sign, digits) = big.to_u32_digits();
    let ours = Integer::from_digits(sign == num_bigint::Sign::Minus, digits.clone());
    assert_eq!(text_of(&ours), "-123456789012345678901234567890");
    assert_eq!(ours.digits(), &digits);
    assert!(ours.is_negative());
}

#[test]
fn the_operators_agree_with_the_machine() {
    let samples: Vec<i64> = vec![-1_000_000_007, -255, -17, -2, -1, 0, 1, 2, 3, 16, 255, 65_536, 4_294_967_296];
    for a in samples.iter().copied() {
        for b in samples.iter().copied() {
            let mut cases = vec![
                (ValBinaryOp::Add, a + b),
                (ValBinaryOp::Minus, a - b),
                (ValBinaryOp::And, a & b),
                (ValBinaryOp::Or, a | b),
                (ValBinaryOp::Xor, a ^ b),
            ];
            if b != 0 {
                cases.push((ValBinaryOp::Div, a / b));
                cases.push((ValBinaryOp::Mod, a % b));
            }
            for (op, want) in cases {
                let got = bin_num_val(&whole(a), &op, &whole(b));
                assert!(equal(&got, &whole(want)), "{} {:?} {}", a, op, b);
            }
        }
    }
}
