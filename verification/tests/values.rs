use gal_runtime::integer::Integer;
use gal_runtime::value::{RawValue, ValueType};
use std::cmp::Ordering;

fn num(x: i64) -> RawValue {
    RawValue::Num(Integer::from_i64(x))
}

fn text(s: &str) -> RawValue {
    RawValue::Str(s.to_string())
}

#[test]
fn coercions_of_a_number() {
    let v = num(-1919);
    assert_eq!(v.get_type(), ValueType::Num);
    assert!(v.get_bool());
    assert_eq!(v.get_str(), "-1919");
    assert_eq!(RawValue::Num(v.get_num()), num(-1919));
    assert!(!num(0).get_bool());
}

#[test]
fn coercions_of_unit() {
    let v = RawValue::Unit;
    assert_eq!(v.get_type(), ValueType::Unit);
    assert!(!v.get_bool());
    assert_eq!(RawValue::Num(v.get_num()), num(0));
    assert_eq!(v.get_str(), "");
}

#[test]
fn coercions_of_truth_values() {
    assert_eq!(RawValue::Bool(true).get_type(), ValueType::Bool);
    assert!(RawValue::Bool(true).get_bool());
    assert!(!RawValue::Bool(false).get_bool());
    assert_eq!(RawValue::Num(RawValue::Bool(true).get_num()), num(1));
    assert_eq!(RawValue::Num(RawValue::Bool(false).get_num()), num(0));
    assert_eq!(RawValue::Bool(true).get_str(), "true");
    assert_eq!(RawValue::Bool(false).get_str(), "false");
}

#[test]
fn coercions_of_a_text() {
    let v = text("Hello world!");
    assert_eq!(v.get_type(), ValueType::Str);
    assert!(v.get_bool());
    assert!(!text("").get_bool());
    assert_eq!(RawValue::Num(v.get_num()), num(12));
    assert_eq!(v.get_str(), "Hello world!");
}

#[test]
fn a_text_counts_its_bytes() {
    assert_eq!(RawValue::Num(text("é").get_num()), num(2));
    assert_eq!(RawValue::Num(text("日本").get_num()), num(6));
}

#[test]
fn the_default_value_is_unit() {
    assert_eq!(RawValue::default(), RawValue::Unit);
}

#[test]
fn kinds_are_ordered() {
    assert!(ValueType::Unit < ValueType::Bool);
    assert!(ValueType::Bool < ValueType::Num);
    assert!(ValueType::Num < ValueType::Str);
    assert_eq!(ValueType::Unit.max(ValueType::Str), ValueType::Str);
    assert_eq!(ValueType::Num.max(ValueType::Bool), ValueType::Num);
    assert_eq!(ValueType::Bool.max(ValueType::Bool), ValueType::Bool);
    assert_eq!(ValueType::Str.max(ValueType::Unit), ValueType::Str);
}

#[test]
fn values_are_ordered_by_kind_first() {
    assert!(RawValue::Unit < RawValue::Bool(false));
    assert!(RawValue::Bool(false) < RawValue::Bool(true));
    assert!(RawValue::Bool(true) < num(-1_000_000));
    assert!(num(1_000_000) < text(""));
    assert!(RawValue::Unit.less(&text("")));
    assert!(!text("").less(&RawValue::Unit));
    assert!(!RawValue::Unit.less(&RawValue::Unit));
}

#[test]
fn numbers_are_ordered_by_size() {
    assert!(num(-5) < num(3));
    assert!(num(3) < num(4));
    assert!(!(num(4) < num(4)));
    let big = RawValue::Num(Integer::from_digits(false, vec![0, 0, 1]));
    assert!(num(i64::MAX) < big);
    let small = RawValue::Num(Integer::from_digits(true, vec![0, 0, 1]));
    assert!(small < num(i64::MIN));
}

#[test]
fn texts_are_ordered_lexicographically() {
    assert!(text("abc") < text("abd"));
    assert!(text("ab") < text("abc"));
    assert!(text("") < text("a"));
    assert!(text("Z") < text("a"));
    assert!(!(text("b") < text("a")));
    assert!(!(text("a") < text("a")));
}

#[test]
fn comparison_gives_an_ordering() {
    assert_eq!(num(1).partial_cmp(&num(2)), Some(Ordering::Less));
    assert_eq!(num(2).partial_cmp(&num(1)), Some(Ordering::Greater));
    assert_eq!(num(2).partial_cmp(&num(2)), Some(Ordering::Equal));
    assert_eq!(text("a").partial_cmp(&RawValue::Unit), Some(Ordering::Greater));
}

#[test]
fn equality_is_by_kind_and_content() {
    assert_eq!(num(1), num(1));
    assert_ne!(num(1), num(2));
    assert_ne!(num(1), RawValue::Bool(true));
    assert_ne!(text("1"), num(1));
    assert_eq!(text("a"), text("a"));
    assert_ne!(RawValue::Unit, RawValue::Bool(false));
    assert_eq!(
        RawValue::Num(Integer::from_digits(false, vec![1, 0])),
        num(1)
    );
}

#[test]
fn clone_gives_an_equal_value() {
    for v in [RawValue::Unit, RawValue::Bool(true), num(-3), text("x")] {
        assert_eq!(v.clone(), v);
    }
}
