use gal_runtime::ast::{LogicBinaryOp, UnaryOp, ValBinaryOp};
use gal_runtime::integer::Integer;
use gal_runtime::ops::{
    bin_bool_val, bin_logic, bin_ord_logic, bin_str_val, bin_val, promoted, unary, EvalError,
};
use gal_runtime::value::{RawValue, ValueType};

fn num(x: i64) -> RawValue {
    RawValue::Num(Integer::from_i64(x))
}

fn text(s: &str) -> RawValue {
    RawValue::Str(s.to_string())
}

const ALL_OPS: [ValBinaryOp; 8] = [
    ValBinaryOp::Add,
    ValBinaryOp::Minus,
    ValBinaryOp::Mul,
    ValBinaryOp::Div,
    ValBinaryOp::Mod,
    ValBinaryOp::And,
    ValBinaryOp::Or,
    ValBinaryOp::Xor,
];

#[test]
fn two_units_give_unit() {
    for op in ALL_OPS {
        assert_eq!(bin_val(&RawValue::Unit, &op, &RawValue::Unit), Ok(RawValue::Unit));
    }
}

#[test]
fn truth_values_count_as_numbers_in_arithmetic() {
    let t = RawValue::Bool(true);
    let f = RawValue::Bool(false);
    assert_eq!(bin_val(&t, &ValBinaryOp::Add, &t), Ok(num(2)));
    assert_eq!(bin_val(&t, &ValBinaryOp::Minus, &f), Ok(num(1)));
    assert_eq!(bin_val(&f, &ValBinaryOp::Minus, &t), Ok(num(-1)));
    assert_eq!(bin_val(&t, &ValBinaryOp::Mul, &f), Ok(num(0)));
    assert_eq!(bin_val(&f, &ValBinaryOp::Div, &t), Ok(num(0)));
    assert_eq!(bin_val(&t, &ValBinaryOp::Mod, &t), Ok(num(0)));
    assert_eq!(bin_val(&t, &ValBinaryOp::Div, &f), Err(EvalError::DivisionByZero));
    assert_eq!(bin_bool_val(true, &ValBinaryOp::Add, true), Ok(num(2)));
}

#[test]
fn truth_values_keep_their_kind_in_logic() {
    assert_eq!(bin_bool_val(true, &ValBinaryOp::And, false), Ok(RawValue::Bool(false)));
    assert_eq!(bin_bool_val(true, &ValBinaryOp::And, true), Ok(RawValue::Bool(true)));
    assert_eq!(bin_bool_val(false, &ValBinaryOp::Or, false), Ok(RawValue::Bool(false)));
    assert_eq!(bin_bool_val(true, &ValBinaryOp::Or, false), Ok(RawValue::Bool(true)));
    assert_eq!(bin_bool_val(true, &ValBinaryOp::Xor, true), Ok(RawValue::Bool(false)));
    assert_eq!(bin_bool_val(true, &ValBinaryOp::Xor, false), Ok(RawValue::Bool(true)));
}

#[test]
fn unit_and_a_truth_value_work_as_truth_values() {
    assert_eq!(
        bin_val(&RawValue::Unit, &ValBinaryOp::Or, &RawValue::Bool(true)),
        Ok(RawValue::Bool(true))
    );
    assert_eq!(
        bin_val(&RawValue::Unit, &ValBinaryOp::Add, &RawValue::Bool(true)),
        Ok(num(1))
    );
}

#[test]
fn a_number_and_a_smaller_kind_work_as_numbers() {
    assert_eq!(bin_val(&num(4), &ValBinaryOp::Add, &RawValue::Bool(true)), Ok(num(5)));
    assert_eq!(bin_val(&RawValue::Unit, &ValBinaryOp::Minus, &num(4)), Ok(num(-4)));
    assert_eq!(bin_val(&num(6), &ValBinaryOp::And, &RawValue::Bool(true)), Ok(num(0)));
    assert_eq!(bin_val(&num(7), &ValBinaryOp::And, &RawValue::Bool(true)), Ok(num(1)));
    assert_eq!(
        bin_val(&num(7), &ValBinaryOp::Div, &RawValue::Unit),
        Err(EvalError::DivisionByZero)
    );
}

#[test]
fn texts_are_joined() {
    assert_eq!(bin_val(&text("ab"), &ValBinaryOp::Add, &text("cd")), Ok(text("abcd")));
    assert_eq!(bin_val(&text("a"), &ValBinaryOp::Add, &num(-12)), Ok(text("a-12")));
    assert_eq!(bin_val(&num(1), &ValBinaryOp::Add, &text("a")), Ok(text("1a")));
    assert_eq!(
        bin_val(&RawValue::Bool(true), &ValBinaryOp::Add, &text("!")),
        Ok(text("true!"))
    );
    assert_eq!(bin_val(&RawValue::Unit, &ValBinaryOp::Add, &text("x")), Ok(text("x")));
    assert_eq!(bin_str_val(&text("ab"), &ValBinaryOp::Add, &text("")), Ok(text("ab")));
}

#[test]
fn a_text_is_repeated() {
    assert_eq!(bin_val(&text("ab"), &ValBinaryOp::Mul, &num(3)), Ok(text("ababab")));
    assert_eq!(bin_val(&num(2), &ValBinaryOp::Mul, &text("xy")), Ok(text("xyxy")));
    assert_eq!(bin_val(&text("ab"), &ValBinaryOp::Mul, &num(0)), Ok(text("")));
    assert_eq!(bin_val(&text("ab"), &ValBinaryOp::Mul, &num(1)), Ok(text("ab")));
    assert_eq!(
        bin_val(&text("ab"), &ValBinaryOp::Mul, &RawValue::Bool(true)),
        Ok(text("ab"))
    );
    assert_eq!(bin_val(&RawValue::Unit, &ValBinaryOp::Mul, &text("ab")), Ok(text("")));
}

#[test]
fn a_text_is_not_repeated_a_negative_number_of_times() {
    assert_eq!(
        bin_val(&text("ab"), &ValBinaryOp::Mul, &num(-1)),
        Err(EvalError::RepeatCount)
    );
    let huge = RawValue::Num(Integer::from_digits(false, vec![0, 0, 1]));
    assert_eq!(
        bin_val(&huge, &ValBinaryOp::Mul, &text("")),
        Err(EvalError::RepeatCount)
    );
}

#[test]
fn a_text_times_a_text_fails() {
    assert_eq!(
        bin_val(&text("a"), &ValBinaryOp::Mul, &text("b")),
        Err(EvalError::StrTimesStr)
    );
    assert_eq!(
        bin_str_val(&text("a"), &ValBinaryOp::Mul, &text("3")),
        Err(EvalError::StrTimesStr)
    );
}

#[test]
fn texts_have_no_other_operators() {
    for op in [
        ValBinaryOp::Minus,
        ValBinaryOp::Div,
        ValBinaryOp::Mod,
        ValBinaryOp::And,
        ValBinaryOp::Or,
        ValBinaryOp::Xor,
    ] {
        assert_eq!(bin_val(&text("a"), &op, &num(1)), Err(EvalError::UnsupportedStrOp));
        assert_eq!(bin_val(&num(1), &op, &text("a")), Err(EvalError::UnsupportedStrOp));
        assert_eq!(bin_val(&text("a"), &op, &text("b")), Err(EvalError::UnsupportedStrOp));
    }
}

#[test]
fn operands_are_read_in_the_larger_kind() {
    assert_eq!(promoted(&num(5), ValueType::Unit), RawValue::Unit);
    assert_eq!(promoted(&num(5), ValueType::Bool), RawValue::Bool(true));
    assert_eq!(promoted(&RawValue::Bool(true), ValueType::Num), num(1));
    assert_eq!(promoted(&num(5), ValueType::Str), text("5"));
    assert_eq!(promoted(&RawValue::Unit, ValueType::Str), text(""));
    for (l, r) in [
        (RawValue::Unit, RawValue::Bool(true)),
        (RawValue::Bool(true), num(3)),
        (num(3), RawValue::Unit),
        (text("a"), num(3)),
        (RawValue::Unit, text("b")),
    ] {
        let kind = l.get_type().max(r.get_type());
        for op in ALL_OPS {
            if kind == ValueType::Str && op == ValBinaryOp::Mul {
                continue;
            }
            assert_eq!(
                bin_val(&l, &op, &r),
                bin_val(&promoted(&l, kind), &op, &promoted(&r, kind)),
                "{:?} {:?} {:?}",
                l,
                op,
                r
            );
        }
    }
}

#[test]
fn comparisons_within_a_kind() {
    assert!(bin_ord_logic(&num(1), &LogicBinaryOp::Eq, &num(1)));
    assert!(!bin_ord_logic(&num(1), &LogicBinaryOp::Eq, &num(2)));
    assert!(bin_ord_logic(&num(1), &LogicBinaryOp::Neq, &num(2)));
    assert!(bin_ord_logic(&num(1), &LogicBinaryOp::Lt, &num(2)));
    assert!(!bin_ord_logic(&num(2), &LogicBinaryOp::Lt, &num(2)));
    assert!(bin_ord_logic(&num(2), &LogicBinaryOp::Le, &num(2)));
    assert!(bin_ord_logic(&num(3), &LogicBinaryOp::Gt, &num(2)));
    assert!(!bin_ord_logic(&num(2), &LogicBinaryOp::Gt, &num(2)));
    assert!(bin_ord_logic(&num(2), &LogicBinaryOp::Ge, &num(2)));
    assert!(!bin_ord_logic(&num(1), &LogicBinaryOp::Ge, &num(2)));
    assert!(bin_ord_logic(&text("a"), &LogicBinaryOp::Lt, &text("b")));
    assert!(bin_ord_logic(
        &RawValue::Bool(false),
        &LogicBinaryOp::Lt,
        &RawValue::Bool(true)
    ));
}

#[test]
fn comparisons_across_kinds_use_the_larger_kind() {
    assert!(bin_logic(&num(1), &LogicBinaryOp::Eq, &RawValue::Bool(true)));
    assert!(bin_logic(&num(0), &LogicBinaryOp::Eq, &RawValue::Unit));
    assert!(bin_logic(&text("1"), &LogicBinaryOp::Eq, &num(1)));
    assert!(bin_logic(&text("10"), &LogicBinaryOp::Lt, &num(9)));
    assert!(bin_logic(&RawValue::Bool(true), &LogicBinaryOp::Gt, &RawValue::Unit));
    assert!(bin_logic(&text("true"), &LogicBinaryOp::Eq, &RawValue::Bool(true)));
    assert!(bin_logic(&num(16), &LogicBinaryOp::Eq, &num(16)));
}

#[test]
fn two_units_compare_false() {
    for op in [
        LogicBinaryOp::Eq,
        LogicBinaryOp::Neq,
        LogicBinaryOp::Lt,
        LogicBinaryOp::Le,
        LogicBinaryOp::Gt,
        LogicBinaryOp::Ge,
    ] {
        assert!(!bin_logic(&RawValue::Unit, &op, &RawValue::Unit));
    }
}

#[test]
fn and_or_xor_on_values() {
    assert!(bin_logic(&num(1), &LogicBinaryOp::And, &text("x")));
    assert!(!bin_logic(&num(1), &LogicBinaryOp::And, &text("")));
    assert!(bin_logic(&num(0), &LogicBinaryOp::Or, &text("x")));
    assert!(!bin_logic(&num(0), &LogicBinaryOp::Or, &RawValue::Unit));
    assert!(bin_logic(&num(0), &LogicBinaryOp::Xor, &text("x")));
    assert!(!bin_logic(&num(1), &LogicBinaryOp::Xor, &text("x")));
}

#[test]
fn unary_on_values() {
    assert_eq!(unary(&UnaryOp::Positive, &text("abcd")), num(4));
    assert_eq!(unary(&UnaryOp::Negative, &num(7)), num(-7));
    assert_eq!(unary(&UnaryOp::Negative, &num(0)), num(0));
    assert_eq!(unary(&UnaryOp::Not, &num(7)), num(-8));
    let big = RawValue::Num(Integer::from_digits(false, vec![u32::MAX, u32::MAX]));
    assert_eq!(unary(&UnaryOp::Not, &big).get_str(), "-18446744073709551616");
    assert_eq!(unary(&UnaryOp::Negative, &big).get_str(), "-18446744073709551615");
}
