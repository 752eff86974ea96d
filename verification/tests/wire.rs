use gal_runtime::integer::Integer;
use gal_runtime::value::RawValue;
use gal_runtime::wire::{
    decode, decode_args, decode_strings, decode_uint, encode, encode_args, encode_strings,
    from_slice, read_token, to_vec, Token, WireError,
};
use num_bigint::BigInt;

fn num(x: i64) -> RawValue {
    RawValue::Num(Integer::from_i64(x))
}

fn text(s: &str) -> RawValue {
    RawValue::Str(s.to_string())
}

fn big(decimal: &str) -> (BigInt, RawValue) {
    let n = BigInt::parse_bytes(decimal.as_bytes(), 10).unwrap();
    let (sign, digits) = n.to_u32_digits();
    let ours = RawValue::Num(Integer::from_digits(sign == num_bigint::Sign::Minus, digits));
    (n, ours)
}

fn samples() -> Vec<RawValue> {
    vec![
        RawValue::Unit,
        RawValue::Bool(true),
        RawValue::Bool(false),
        num(0),
        num(1),
        num(-1),
        num(114514),
        num(-1919810),
        num(i64::MAX),
        num(i64::MIN),
        RawValue::Num(Integer::from_u64(u64::MAX)),
        big("340282366920938463463374607431768211456").1,
        big("-123456789012345678901234567890123456789012345678901234567890").1,
        text(""),
        text("Hello world!"),
        text("日本語のテキスト"),
        text(&"x".repeat(31)),
        text(&"x".repeat(32)),
        text(&"x".repeat(255)),
        text(&"x".repeat(256)),
        text(&"x".repeat(65535)),
        text(&"x".repeat(65536)),
    ]
}

#[test]
fn serde_value() {
    assert_eq!(from_slice(&rmp_serde::to_vec(&()).unwrap()).unwrap(), RawValue::Unit);
    assert_eq!(
        from_slice(&rmp_serde::to_vec(&true).unwrap()).unwrap(),
        RawValue::Bool(true)
    );
    assert_eq!(
        from_slice(&rmp_serde::to_vec(&false).unwrap()).unwrap(),
        RawValue::Bool(false)
    );
    assert_eq!(from_slice(&rmp_serde::to_vec(&114514).unwrap()).unwrap(), num(114514));
    assert_eq!(
        from_slice(&rmp_serde::to_vec(&-1919810).unwrap()).unwrap(),
        num(-1919810)
    );
    assert_eq!(
        from_slice(&rmp_serde::to_vec("Hello world!").unwrap()).unwrap(),
        text("Hello world!")
    );

    assert_eq!(to_vec(&RawValue::Unit).unwrap(), rmp_serde::to_vec(&()).unwrap());
    assert_eq!(
        to_vec(&RawValue::Bool(true)).unwrap(),
        rmp_serde::to_vec(&true).unwrap()
    );
    assert_eq!(
        to_vec(&RawValue::Bool(false)).unwrap(),
        rmp_serde::to_vec(&false).unwrap()
    );
    assert_eq!(
        to_vec(&num(114514)).unwrap(),
        rmp_serde::to_vec(&BigInt::from(114514)).unwrap()
    );
    assert_eq!(
        to_vec(&num(-1919)).unwrap(),
        rmp_serde::to_vec(&BigInt::from(-1919)).unwrap()
    );
    assert_eq!(to_vec(&text("aaa")).unwrap(), rmp_serde::to_vec("aaa").unwrap());
}

#[test]
fn every_value_comes_back() {
    for v in samples() {
        let bytes = to_vec(&v).unwrap();
        assert_eq!(from_slice(&bytes).unwrap(), v);
        let (back, next) = decode(&bytes, 0).unwrap();
        assert_eq!(back, v);
        assert_eq!(next, bytes.len());
    }
}

#[test]
fn integers_beyond_64_bits_come_back() {
    let (_, v) = big("18446744073709551616");
    let bytes = to_vec(&v).unwrap();
    assert_eq!(bytes, vec![0x92, 0x01, 0x93, 0x00, 0x00, 0x01]);
    assert_eq!(from_slice(&bytes).unwrap(), v);
    assert_eq!(from_slice(&bytes).unwrap().get_str(), "18446744073709551616");
}

#[test]
fn what_follows_a_value_is_left_alone() {
    for v in samples() {
        let mut bytes = to_vec(&v).unwrap();
        let len = bytes.len();
        bytes.extend_from_slice(&[0xc1, 0xff, 0x00]);
        let (back, next) = decode(&bytes, 0).unwrap();
        assert_eq!(back, v);
        assert_eq!(next, len);
    }
}

#[test]
fn a_value_is_read_where_it_stands() {
    let mut bytes = vec![0xc1, 0xc1, 0xc1];
    encode(&num(-7), &mut bytes).unwrap();
    bytes.push(0xc0);
    let (value, next) = decode(&bytes, 3).unwrap();
    assert_eq!(value, num(-7));
    assert_eq!(decode(&bytes, next).unwrap(), (RawValue::Unit, bytes.len()));
}

#[test]
fn exact_bytes_of_small_values() {
    assert_eq!(to_vec(&RawValue::Unit).unwrap(), vec![0xc0]);
    assert_eq!(to_vec(&RawValue::Bool(false)).unwrap(), vec![0xc2]);
    assert_eq!(to_vec(&RawValue::Bool(true)).unwrap(), vec![0xc3]);
    assert_eq!(to_vec(&num(0)).unwrap(), vec![0x92, 0x00, 0x90]);
    assert_eq!(to_vec(&num(5)).unwrap(), vec![0x92, 0x01, 0x91, 0x05]);
    assert_eq!(to_vec(&num(-5)).unwrap(), vec![0x92, 0xff, 0x91, 0x05]);
    assert_eq!(to_vec(&num(200)).unwrap(), vec![0x92, 0x01, 0x91, 0xcc, 200]);
    assert_eq!(to_vec(&num(0x1234)).unwrap(), vec![0x92, 0x01, 0x91, 0xcd, 0x12, 0x34]);
    assert_eq!(
        to_vec(&num(0x12345678)).unwrap(),
        vec![0x92, 0x01, 0x91, 0xce, 0x12, 0x34, 0x56, 0x78]
    );
    assert_eq!(to_vec(&text("ab")).unwrap(), vec![0xa2, b'a', b'b']);
}

#[test]
fn numbers_are_written_as_the_bigint_crate_writes_them() {
    for decimal in [
        "0",
        "1",
        "-1",
        "127",
        "128",
        "255",
        "256",
        "65535",
        "65536",
        "4294967295",
        "4294967296",
        "-4294967296",
        "18446744073709551615",
        "18446744073709551616",
        "-99999999999999999999999999999999999999999999",
    ] {
        let (n, v) = big(decimal);
        assert_eq!(to_vec(&v).unwrap(), rmp_serde::to_vec(&n).unwrap(), "{}", decimal);
        let back: BigInt = rmp_serde::from_slice(&to_vec(&v).unwrap()).unwrap();
        assert_eq!(back, n);
    }
}

#[test]
fn texts_are_written_as_messagepack_writes_them() {
    for len in [0usize, 1, 31, 32, 255, 256, 65535, 65536] {
        let s = "é".repeat(len);
        assert_eq!(to_vec(&text(&s)).unwrap(), rmp_serde::to_vec(&s).unwrap());
        let back: String = rmp_serde::from_slice(&to_vec(&text(&s)).unwrap()).unwrap();
        assert_eq!(back, s);
    }
}

#[test]
fn plain_integers_are_read_as_numbers() {
    for x in [
        0i64,
        1,
        127,
        128,
        255,
        256,
        65535,
        65536,
        4294967295,
        4294967296,
        i64::MAX,
        -1,
        -32,
        -33,
        -128,
        -129,
        -32768,
        -32769,
        -2147483648,
        -2147483649,
        i64::MIN,
    ] {
        let bytes = rmp_serde::to_vec(&x).unwrap();
        assert_eq!(from_slice(&bytes).unwrap(), num(x), "{}", x);
    }
    let bytes = rmp_serde::to_vec(&u64::MAX).unwrap();
    assert_eq!(
        from_slice(&bytes).unwrap(),
        RawValue::Num(Integer::from_u64(u64::MAX))
    );
}

#[test]
fn signed_layouts_with_positive_content_are_read() {
    assert_eq!(from_slice(&[0xd0, 0x05]).unwrap(), num(5));
    assert_eq!(from_slice(&[0xd0, 0x80]).unwrap(), num(-128));
    assert_eq!(from_slice(&[0xd1, 0x00, 0x05]).unwrap(), num(5));
    assert_eq!(from_slice(&[0xd1, 0xff, 0xff]).unwrap(), num(-1));
    assert_eq!(from_slice(&[0xd2, 0x80, 0, 0, 0]).unwrap(), num(-2147483648));
    assert_eq!(
        from_slice(&[0xd3, 0x80, 0, 0, 0, 0, 0, 0, 0]).unwrap(),
        num(i64::MIN)
    );
    assert_eq!(
        from_slice(&[0xd3, 0x7f, 0xff, 0xff, 0xff, 0xff, 0xff, 0xff, 0xff]).unwrap(),
        num(i64::MAX)
    );
}

#[test]
fn a_sign_of_zero_gives_zero() {
    assert_eq!(from_slice(&[0x92, 0x00, 0x91, 0x05]).unwrap(), num(0));
}

#[test]
fn digits_with_zeros_at_the_top_are_read() {
    assert_eq!(from_slice(&[0x92, 0x01, 0x93, 0x05, 0x00, 0x00]).unwrap(), num(5));
    assert_eq!(from_slice(&[0x92, 0xff, 0x92, 0x00, 0x00]).unwrap(), num(0));
}

#[test]
fn tokens_are_read() {
    assert!(matches!(read_token(&[0xc0], 0), Ok((Token::Nil, 1))));
    assert!(matches!(read_token(&[0xc2], 0), Ok((Token::Bool(false), 1))));
    assert!(matches!(read_token(&[0xc3], 0), Ok((Token::Bool(true), 1))));
    assert!(matches!(
        read_token(&[0x7f], 0),
        Ok((Token::Int { negative: false, magnitude: 127 }, 1))
    ));
    assert!(matches!(
        read_token(&[0xe0], 0),
        Ok((Token::Int { negative: true, magnitude: 32 }, 1))
    ));
    assert!(matches!(
        read_token(&[0xcd, 0x01, 0x02], 0),
        Ok((Token::Int { negative: false, magnitude: 258 }, 3))
    ));
    assert!(matches!(read_token(&[0xa5], 0), Ok((Token::Str(5), 1))));
    assert!(matches!(read_token(&[0xd9, 0x20], 0), Ok((Token::Str(32), 2))));
    assert!(matches!(read_token(&[0x93], 0), Ok((Token::Array(3), 1))));
    assert!(matches!(
        read_token(&[0xdc, 0x01, 0x00], 0),
        Ok((Token::Array(256), 3))
    ));
    assert!(matches!(
        read_token(&[0xdd, 0, 1, 0, 0], 0),
        Ok((Token::Array(65536), 5))
    ));
}

#[test]
fn bytes_that_end_early_are_refused() {
    assert_eq!(from_slice(&[]), Err(WireError::UnexpectedEnd));
    assert_eq!(from_slice(&[0xcd, 0x01]), Err(WireError::UnexpectedEnd));
    assert_eq!(from_slice(&[0xa3, b'a', b'b']), Err(WireError::UnexpectedEnd));
    assert_eq!(from_slice(&[0x92]), Err(WireError::UnexpectedEnd));
    assert_eq!(from_slice(&[0x92, 0x01]), Err(WireError::UnexpectedEnd));
    assert_eq!(from_slice(&[0x92, 0x01, 0x92, 0x05]), Err(WireError::UnexpectedEnd));
    assert!(matches!(decode(&[0xc0], 1), Err(WireError::UnexpectedEnd)));
    assert!(matches!(decode(&[0xc0], 5), Err(WireError::UnexpectedEnd)));
}

#[test]
fn other_kinds_are_refused() {
    for first in [0xc1u8, 0xc4, 0xc7, 0xca, 0xcb, 0xd4, 0xde, 0x80, 0x8f] {
        assert_eq!(
            from_slice(&[first, 0, 0, 0, 0, 0, 0, 0, 0, 0]),
            Err(WireError::Unsupported),
            "{:#x}",
            first
        );
    }
    assert_eq!(from_slice(&[0x90]), Err(WireError::Unsupported));
    assert_eq!(from_slice(&[0x91, 0x01]), Err(WireError::Unsupported));
    assert_eq!(from_slice(&[0x93, 1, 2, 3]), Err(WireError::Unsupported));
    assert_eq!(from_slice(&[0x92, 0xc0, 0x90]), Err(WireError::Unsupported));
    assert_eq!(from_slice(&[0x92, 0x01, 0x01]), Err(WireError::Unsupported));
    assert_eq!(from_slice(&[0x92, 0x01, 0x91, 0xc0]), Err(WireError::Unsupported));
}

#[test]
fn texts_that_are_not_utf8_are_refused() {
    assert_eq!(from_slice(&[0xa1, 0xff]), Err(WireError::InvalidUtf8));
    assert_eq!(from_slice(&[0xa2, 0xc3, 0x28]), Err(WireError::InvalidUtf8));
    assert_eq!(from_slice(&[0xa3, 0xed, 0xa0, 0x80]), Err(WireError::InvalidUtf8));
    assert_eq!(from_slice(&[0xa2, 0xc3, 0xa9]).unwrap(), text("é"));
}

#[test]
fn bad_signs_and_digits_are_refused() {
    assert_eq!(from_slice(&[0x92, 0x02, 0x90]), Err(WireError::InvalidNumber));
    assert_eq!(from_slice(&[0x92, 0xfe, 0x90]), Err(WireError::InvalidNumber));
    assert_eq!(
        from_slice(&[0x92, 0x01, 0x91, 0xcf, 0, 0, 0, 1, 0, 0, 0, 0]),
        Err(WireError::InvalidNumber)
    );
    assert_eq!(from_slice(&[0x92, 0x01, 0x91, 0xff]), Err(WireError::InvalidNumber));
}

#[test]
fn arguments_are_an_array_in_an_array() {
    assert_eq!(encode_args(&vec![]).unwrap(), vec![0x91, 0x90]);
    assert_eq!(
        encode_args(&vec![RawValue::Unit, RawValue::Bool(true)]).unwrap(),
        vec![0x91, 0x92, 0xc0, 0xc3]
    );
    let args = vec![text("Hello {}!"), num(114514)];
    let (a, b) = ("Hello {}!", BigInt::from(114514));
    assert_eq!(
        encode_args(&args).unwrap(),
        rmp_serde::to_vec(&((a, b),)).unwrap()
    );
    let many: Vec<RawValue> = (0..20).map(num).collect();
    let theirs: Vec<BigInt> = (0..20).map(BigInt::from).collect();
    assert_eq!(
        encode_args(&many).unwrap(),
        rmp_serde::to_vec(&(theirs,)).unwrap()
    );
}

#[test]
fn unsigned_integers_are_read() {
    for x in [0u64, 1, 7, 127, 128, 255, 256, 65536, u64::MAX] {
        assert_eq!(decode_uint(&rmp_serde::to_vec(&x).unwrap()), Ok(x));
    }
    assert_eq!(decode_uint(&[0xd0, 0x05]), Ok(5));
    assert_eq!(decode_uint(&[0xff]), Err(WireError::InvalidNumber));
    assert_eq!(decode_uint(&[0xc0]), Err(WireError::Unsupported));
    assert_eq!(decode_uint(&[]), Err(WireError::UnexpectedEnd));
}

#[test]
fn arrays_of_texts_are_read_and_written() {
    let names = vec!["par".to_string(), "".to_string(), "日本".to_string()];
    let bytes = rmp_serde::to_vec(&names).unwrap();
    assert_eq!(decode_strings(&bytes).unwrap(), names);
    let mut out = vec![];
    encode_strings(&names, &mut out).unwrap();
    assert_eq!(out, bytes);
    assert_eq!(decode_strings(&[0x90]).unwrap(), Vec::<String>::new());
    assert_eq!(decode_strings(&[0x91, 0x01]), Err(WireError::Unsupported));
    assert_eq!(decode_strings(&[0xa0]), Err(WireError::Unsupported));
    assert_eq!(decode_strings(&[0x92, 0xa0]), Err(WireError::UnexpectedEnd));
    assert_eq!(decode_strings(&[0x91, 0xa1, 0xff]), Err(WireError::InvalidUtf8));
}

#[test]
fn encode_appends() {
    let mut out = vec![1, 2, 3];
    encode(&RawValue::Bool(true), &mut out).unwrap();
    assert_eq!(out, vec![1, 2, 3, 0xc3]);
}

#[test]
fn arguments_arrive_as_they_were_sent() {
    let args = samples();
    let bytes = encode_args(&args).unwrap();
    assert_eq!(decode_args(&bytes).unwrap(), args);
    assert_eq!(decode_args(&encode_args(&vec![]).unwrap()).unwrap(), vec![]);
    let theirs = rmp_serde::to_vec(&(vec![BigInt::from(7), BigInt::from(-8)],)).unwrap();
    assert_eq!(decode_args(&theirs).unwrap(), vec![num(7), num(-8)]);
    let plain = rmp_serde::to_vec(&((true, "x", 5u8),)).unwrap();
    assert_eq!(
        decode_args(&plain).unwrap(),
        vec![RawValue::Bool(true), text("x"), num(5)]
    );
}

#[test]
fn arguments_that_are_no_array_in_an_array_are_refused() {
    assert_eq!(decode_args(&[]), Err(WireError::UnexpectedEnd));
    assert_eq!(decode_args(&[0xc0]), Err(WireError::Unsupported));
    assert_eq!(decode_args(&[0x90]), Err(WireError::Unsupported));
    assert_eq!(decode_args(&[0x92, 0x90, 0x90]), Err(WireError::Unsupported));
    assert_eq!(decode_args(&[0x91]), Err(WireError::UnexpectedEnd));
    assert_eq!(decode_args(&[0x91, 0xc0]), Err(WireError::Unsupported));
    assert_eq!(decode_args(&[0x91, 0x91]), Err(WireError::UnexpectedEnd));
    assert_eq!(decode_args(&[0x91, 0x91, 0xc1]), Err(WireError::Unsupported));
    assert_eq!(decode_args(&[0x91, 0x91, 0xa1, 0xff]), Err(WireError::InvalidUtf8));
}
