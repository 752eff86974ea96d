//! The syntax trees that the evaluator walks. They come from a parser that is
//! not part of this crate.

use crate::value::RawValue;
use vstd::prelude::*;

verus! {

/// A reference to a variable, by the scope it lives in.
#[derive(Debug)]
pub enum Ref {
    /// A variable of the evaluation in course.
    Var(String),
    /// A variable of the session, which outlives an evaluation.
    Ctx(String),
    /// A resource, which scripts can only read.
    Res(String),
}

/// An operator with one operand.
#[derive(Debug, Clone, Copy, PartialEq, Eq, Structural)]
pub enum UnaryOp {
    Positive,
    Negative,
    Not,
}

/// An operator on two values that gives a value.
#[derive(Debug, Clone, Copy, PartialEq, Eq, Structural)]
pub enum ValBinaryOp {
    Add,
    Minus,
    Mul,
    Div,
    Mod,
    And,
    Or,
    Xor,
}

/// An operator on two values that gives a truth value.
#[derive(Debug, Clone, Copy, PartialEq, Eq, Structural)]
pub enum LogicBinaryOp {
    And,
    Or,
    Xor,
    Eq,
    Neq,
    Lt,
    Le,
    Gt,
    Ge,
}

impl LogicBinaryOp {
    /// Whether the operator compares its operands, rather than combining their
    /// truth values.
    pub open spec fn compares(self) -> bool {
        !(self is And || self is Or || self is Xor)
    }
}

/// An operator with two operands.
#[derive(Debug, Clone, Copy, PartialEq, Eq, Structural)]
pub enum BinaryOp {
    Val(ValBinaryOp),
    Logic(LogicBinaryOp),
    /// `=`
    Assign,
    /// An operator and `=` in one, such as `+=`.
    Inplace(ValBinaryOp),
}

/// An expression.
#[derive(Debug)]
pub enum Expr {
    Ref(Ref),
    Const(RawValue),
    Unary(UnaryOp, Box<Expr>),
    Binary(Box<Expr>, BinaryOp, Box<Expr>),
    /// A call: the namespace, the name, and the arguments. The empty namespace
    /// holds the built-in functions; any other is the name of a plugin.
    Call(String, String, Vec<Expr>),
}

/// A program: expressions that are evaluated one after the other.
#[derive(Debug)]
pub struct Program(pub Vec<Expr>);

/// A command inside a text.
#[derive(Debug)]
pub enum Command {
    /// A program whose result becomes part of the text.
    Exec(Program),
    /// A command for a text plugin, by name and arguments. It adds nothing to
    /// the text.
    Other(String, Vec<String>),
}

/// A piece of a text.
#[derive(Debug)]
pub enum Line {
    /// Characters to be taken as they are.
    Str(String),
    Cmd(Command),
}

/// A text: pieces that are put together one after the other.
#[derive(Debug)]
pub struct Text(pub Vec<Line>);

} // verus!
