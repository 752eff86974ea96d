//! The operators of the script language, on values.
//!
//! A binary operator works in the larger kind of its two operands, in the order
//! `Unit < Bool < Num < Str`.

use crate::ast::{LogicBinaryOp, UnaryOp, ValBinaryOp};
use crate::integer::{
    bit_and, bit_or, bit_xor, complement, conjunction, difference, disjunction, exclusive,
    negation, product, quotient, remainder, sum, trunc_div, trunc_rem, Integer,
};
use crate::value::{RawValue, Value, ValueType};
use vstd::prelude::*;
use vstd::string::StringExecFns;

verus! {

/// Why an expression cannot be evaluated.
#[derive(Debug, Clone, Copy, PartialEq, Eq, Structural)]
pub enum EvalError {
    /// A text times a text.
    StrTimesStr,
    /// An operator that texts do not have: all but `+` and `*`.
    UnsupportedStrOp,
    /// A text repeated a number of times that is negative or beyond what the
    /// machine can count.
    RepeatCount,
    /// A division, or a remainder, by zero.
    DivisionByZero,
    /// An assignment to a resource.
    AssignToResource,
    /// An assignment to something that is no reference.
    AssignTarget,
    /// A call, in the empty namespace, of something that is not built in.
    UnknownIntrinsic,
}

/// The number that a truth value counts as.
pub open spec fn count(b: bool) -> int {
    if b {
        1
    } else {
        0
    }
}

/// Whether an operator on numbers has a result: all do, but division and
/// remainder by zero.
pub open spec fn num_defined(op: ValBinaryOp, rhs: int) -> bool {
    (op is Div || op is Mod) ==> rhs != 0
}

/// An operator on two numbers. Division rounds toward zero, the remainder has
/// the sign of the dividend, and the bitwise operators read a negative number
/// in two's complement.
pub open spec fn num_op(lhs: int, op: ValBinaryOp, rhs: int) -> int {
    match op {
        ValBinaryOp::Add => lhs + rhs,
        ValBinaryOp::Minus => lhs - rhs,
        ValBinaryOp::Mul => lhs * rhs,
        ValBinaryOp::Div => trunc_div(lhs, rhs),
        ValBinaryOp::Mod => trunc_rem(lhs, rhs),
        ValBinaryOp::And => bit_and(lhs, rhs),
        ValBinaryOp::Or => bit_or(lhs, rhs),
        ValBinaryOp::Xor => bit_xor(lhs, rhs),
    }
}

/// An operator on two numbers, where it has a result.
pub open spec fn checked_num_op(lhs: int, op: ValBinaryOp, rhs: int) -> Result<Value, EvalError> {
    if num_defined(op, rhs) {
        Ok(Value::Num(num_op(lhs, op, rhs)))
    } else {
        Err(EvalError::DivisionByZero)
    }
}

/// An operator on two truth values: the arithmetic operators count false as 0
/// and true as 1 and give a number; the others are those of logic.
pub open spec fn bool_op(lhs: bool, op: ValBinaryOp, rhs: bool) -> Result<Value, EvalError> {
    match op {
        ValBinaryOp::And => Ok(Value::Bool(lhs && rhs)),
        ValBinaryOp::Or => Ok(Value::Bool(lhs || rhs)),
        ValBinaryOp::Xor => Ok(Value::Bool(lhs != rhs)),
        _ => checked_num_op(count(lhs), op, count(rhs)),
    }
}

/// A text repeated `times` times.
pub open spec fn repeat(text: Seq<char>, times: nat) -> Seq<char>
    decreases times,
{
    if times == 0 {
        Seq::empty()
    } else {
        repeat(text, (times - 1) as nat) + text
    }
}

/// A text repeated a number of times, where that number is one that the machine
/// can count.
pub open spec fn checked_repeat(text: Seq<char>, times: int) -> Result<Value, EvalError> {
    if 0 <= times <= usize::MAX {
        Ok(Value::Str(repeat(text, times as nat)))
    } else {
        Err(EvalError::RepeatCount)
    }
}

/// An operator on two values of which one at least is a text: `+` joins the
/// texts of both, `*` repeats the one text as often as the other operand says,
/// and nothing else is supported.
pub open spec fn str_op(lhs: Value, op: ValBinaryOp, rhs: Value) -> Result<Value, EvalError> {
    match op {
        ValBinaryOp::Add => Ok(Value::Str(lhs.as_str() + rhs.as_str())),
        ValBinaryOp::Mul => if lhs is Str && rhs is Str {
            Err(EvalError::StrTimesStr)
        } else if rhs is Str {
            checked_repeat(rhs.as_str(), lhs.as_num())
        } else {
            checked_repeat(lhs.as_str(), rhs.as_num())
        },
        _ => Err(EvalError::UnsupportedStrOp),
    }
}

/// The kind in which a binary operator works on two values: the larger of
/// their kinds.
pub open spec fn working_type(lhs: Value, rhs: Value) -> ValueType {
    lhs.type_of().spec_max(rhs.type_of())
}

/// A value read in a kind.
pub open spec fn promote(value: Value, kind: ValueType) -> Value {
    match kind {
        ValueType::Unit => Value::Unit,
        ValueType::Bool => Value::Bool(value.as_bool()),
        ValueType::Num => Value::Num(value.as_num()),
        ValueType::Str => Value::Str(value.as_str()),
    }
}

/// A binary operator that gives a value.
pub open spec fn val_op(lhs: Value, op: ValBinaryOp, rhs: Value) -> Result<Value, EvalError> {
    match working_type(lhs, rhs) {
        ValueType::Unit => Ok(Value::Unit),
        ValueType::Bool => bool_op(lhs.as_bool(), op, rhs.as_bool()),
        ValueType::Num => checked_num_op(lhs.as_num(), op, rhs.as_num()),
        ValueType::Str => str_op(lhs, op, rhs),
    }
}

/// An operator with one operand. `Not` keeps the kind: it negates a truth
/// value, complements the bits of a number, and empties a text.
pub open spec fn unary_op(op: UnaryOp, value: Value) -> Value {
    match op {
        UnaryOp::Positive => Value::Num(value.as_num()),
        UnaryOp::Negative => Value::Num(-value.as_num()),
        UnaryOp::Not => match value {
            Value::Unit => Value::Unit,
            Value::Bool(b) => Value::Bool(!b),
            Value::Num(n) => Value::Num(-n - 1),
            Value::Str(_) => Value::Str(Seq::empty()),
        },
    }
}

/// A comparison of two values in the order of values.
pub open spec fn compare_op(lhs: Value, op: LogicBinaryOp, rhs: Value) -> bool {
    match op {
        LogicBinaryOp::Eq => lhs == rhs,
        LogicBinaryOp::Neq => lhs != rhs,
        LogicBinaryOp::Lt => lhs.less(rhs),
        LogicBinaryOp::Le => lhs.less(rhs) || lhs == rhs,
        LogicBinaryOp::Gt => rhs.less(lhs),
        _ => rhs.less(lhs) || lhs == rhs,
    }
}

/// A binary operator that gives a truth value. `&&`, `||` and `^^` combine the
/// truth values of the operands. A comparison reads both operands in their
/// working kind and compares them there; in the kind `Unit` every comparison is
/// false.
pub open spec fn logic_op(lhs: Value, op: LogicBinaryOp, rhs: Value) -> bool {
    match op {
        LogicBinaryOp::And => lhs.as_bool() && rhs.as_bool(),
        LogicBinaryOp::Or => lhs.as_bool() || rhs.as_bool(),
        LogicBinaryOp::Xor => lhs.as_bool() != rhs.as_bool(),
        _ => {
            let kind = working_type(lhs, rhs);
            kind != ValueType::Unit && compare_op(promote(lhs, kind), op, promote(rhs, kind))
        },
    }
}

/// An operator on two numbers.
pub fn bin_num_val(lhs: &Integer, op: &ValBinaryOp, rhs: &Integer) -> (r: Integer)
    requires
        num_defined(*op, rhs@),
    ensures
        r@ == num_op(lhs@, *op, rhs@),
{
    match op {
        ValBinaryOp::Add => sum(lhs, rhs),
        ValBinaryOp::Minus => difference(lhs, rhs),
        ValBinaryOp::Mul => product(lhs, rhs),
        ValBinaryOp::Div => quotient(lhs, rhs),
        ValBinaryOp::Mod => remainder(lhs, rhs),
        ValBinaryOp::And => conjunction(lhs, rhs),
        ValBinaryOp::Or => disjunction(lhs, rhs),
        ValBinaryOp::Xor => exclusive(lhs, rhs),
    }
}

/// An operator on two numbers, or the reason why it has no result.
pub fn checked_num_val(lhs: &Integer, op: &ValBinaryOp, rhs: &Integer) -> (r: Result<
    RawValue,
    EvalError,
>)
    ensures
        r is Ok <==> num_defined(*op, rhs@),
        agrees(r, checked_num_op(lhs@, *op, rhs@)),
{
    let divides = match op {
        ValBinaryOp::Div => true,
        ValBinaryOp::Mod => true,
        _ => false,
    };
    if divides && rhs.is_zero() {
        Err(EvalError::DivisionByZero)
    } else {
        Ok(RawValue::Num(bin_num_val(lhs, op, rhs)))
    }
}

/// Whether an executable result is the one that the language prescribes.
pub open spec fn agrees(got: Result<RawValue, EvalError>, want: Result<Value, EvalError>) -> bool {
    match got {
        Ok(value) => want == Ok::<Value, EvalError>(value@),
        Err(e) => want == Err::<Value, EvalError>(e),
    }
}

/// An operator on two truth values.
pub fn bin_bool_val(lhs: bool, op: &ValBinaryOp, rhs: bool) -> (r: Result<RawValue, EvalError>)
    ensures
        agrees(r, bool_op(lhs, *op, rhs)),
{
    match op {
        ValBinaryOp::And => Ok(RawValue::Bool(lhs && rhs)),
        ValBinaryOp::Or => Ok(RawValue::Bool(lhs || rhs)),
        ValBinaryOp::Xor => Ok(RawValue::Bool(lhs != rhs)),
        _ => {
            let a = Integer::from_u64(if lhs { 1 } else { 0 });
            let b = Integer::from_u64(if rhs { 1 } else { 0 });
            checked_num_val(&a, op, &b)
        },
    }
}

/// A text repeated a number of times.
fn repeated(text: &str, times: &Integer) -> (r: Result<RawValue, EvalError>)
    ensures
        agrees(r, checked_repeat(text@, times@)),
{
    match times.to_usize() {
        None => Err(EvalError::RepeatCount),
        Some(n) => {
            let mut out = String::new();
            let mut i: usize = 0;
            while i < n
                invariant
                    i <= n,
                    out@ == repeat(text@, i as nat),
                decreases n - i,
            {
                out.append(text);
                i += 1;
            }
            Ok(RawValue::Str(out))
        },
    }
}

/// An operator on two values of which one at least is a text.
pub fn bin_str_val(lhs: &RawValue, op: &ValBinaryOp, rhs: &RawValue) -> (r: Result<
    RawValue,
    EvalError,
>)
    ensures
        agrees(r, str_op(lhs@, *op, rhs@)),
{
    match op {
        ValBinaryOp::Add => {
            let joined = lhs.get_str().concat(rhs.get_str().as_str());
            Ok(RawValue::Str(joined))
        },
        ValBinaryOp::Mul => match (lhs, rhs) {
            (RawValue::Str(_), RawValue::Str(_)) => Err(EvalError::StrTimesStr),
            (_, RawValue::Str(text)) => repeated(text.as_str(), &lhs.get_num()),
            _ => repeated(lhs.get_str().as_str(), &rhs.get_num()),
        },
        _ => Err(EvalError::UnsupportedStrOp),
    }
}

/// A binary operator that gives a value, on two values: it works in the larger
/// of their kinds.
pub fn bin_val(lhs: &RawValue, op: &ValBinaryOp, rhs: &RawValue) -> (r: Result<
    RawValue,
    EvalError,
>)
    ensures
        agrees(r, val_op(lhs@, *op, rhs@)),
{
    match lhs.get_type().max(rhs.get_type()) {
        ValueType::Unit => Ok(RawValue::Unit),
        ValueType::Bool => bin_bool_val(lhs.get_bool(), op, rhs.get_bool()),
        ValueType::Num => checked_num_val(&lhs.get_num(), op, &rhs.get_num()),
        ValueType::Str => bin_str_val(lhs, op, rhs),
    }
}

/// An operator with one operand.
pub fn unary(op: &UnaryOp, value: &RawValue) -> (r: RawValue)
    ensures
        r@ == unary_op(*op, value@),
{
    match op {
        UnaryOp::Positive => RawValue::Num(value.get_num()),
        UnaryOp::Negative => RawValue::Num(negation(&value.get_num())),
        UnaryOp::Not => match value {
            RawValue::Unit => RawValue::Unit,
            RawValue::Bool(b) => RawValue::Bool(!*b),
            RawValue::Num(n) => RawValue::Num(complement(n)),
            RawValue::Str(_) => RawValue::Str(String::new()),
        },
    }
}

/// A comparison of two values in the order of values.
pub fn bin_ord_logic(lhs: &RawValue, op: &LogicBinaryOp, rhs: &RawValue) -> (r: bool)
    requires
        op.compares(),
    ensures
        r == compare_op(lhs@, *op, rhs@),
{
    match op {
        LogicBinaryOp::Eq => *lhs == *rhs,
        LogicBinaryOp::Neq => !(*lhs == *rhs),
        LogicBinaryOp::Lt => lhs.less(rhs),
        LogicBinaryOp::Le => lhs.less(rhs) || *lhs == *rhs,
        LogicBinaryOp::Gt => rhs.less(lhs),
        _ => rhs.less(lhs) || *lhs == *rhs,
    }
}

/// A value read in a kind.
pub fn promoted(value: &RawValue, kind: ValueType) -> (r: RawValue)
    ensures
        r@ == promote(value@, kind),
{
    match kind {
        ValueType::Unit => RawValue::Unit,
        ValueType::Bool => RawValue::Bool(value.get_bool()),
        ValueType::Num => RawValue::Num(value.get_num()),
        ValueType::Str => RawValue::Str(value.get_str()),
    }
}

/// A binary operator that gives a truth value, on two values.
pub fn bin_logic(lhs: &RawValue, op: &LogicBinaryOp, rhs: &RawValue) -> (r: bool)
    ensures
        r == logic_op(lhs@, *op, rhs@),
{
    match op {
        LogicBinaryOp::And => lhs.get_bool() && rhs.get_bool(),
        LogicBinaryOp::Or => lhs.get_bool() || rhs.get_bool(),
        LogicBinaryOp::Xor => lhs.get_bool() != rhs.get_bool(),
        _ => {
            let kind = lhs.get_type().max(rhs.get_type());
            match kind {
                ValueType::Unit => false,
                _ => bin_ord_logic(&promoted(lhs, kind), op, &promoted(rhs, kind)),
            }
        },
    }
}

/// The kind in which an operator works decides its result: but for a text times
/// a number, a binary operator gives what it gives on its operands read in
/// their working kind.
pub proof fn lemma_promotion(lhs: Value, op: ValBinaryOp, rhs: Value)
    requires
        !(working_type(lhs, rhs) == ValueType::Str && op is Mul),
    ensures
        val_op(lhs, op, rhs) == val_op(
            promote(lhs, working_type(lhs, rhs)),
            op,
            promote(rhs, working_type(lhs, rhs)),
        ),
{
}

/// The kinds of values are in the order `Unit < Bool < Num < Str`, and values
/// of one kind in their own order: `Unit` is below false, false below true,
/// true below every number, and every number below every text.
pub proof fn lemma_value_order(n: int, s: Seq<char>)
    ensures
        Value::Unit.less(Value::Bool(false)),
        Value::Bool(false).less(Value::Bool(true)),
        Value::Bool(true).less(Value::Num(n)),
        Value::Num(n).less(Value::Str(s)),
{
}

} // verus!
