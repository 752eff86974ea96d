//! The values that scripts compute and plugins exchange.

use crate::integer::{decimal, equal, less, text, Integer};
use std::cmp::Ordering;
use vstd::prelude::*;
use vstd::utf8::encode_utf8;

verus! {

/// The kind of a value. Kinds are ordered `Unit < Bool < Num < Str`; a binary
/// operator works in the larger kind of its two operands.
#[derive(Debug, Clone, Copy, PartialEq, Eq, Structural, PartialOrd, Ord)]
pub enum ValueType {
    Unit,
    Bool,
    Num,
    Str,
}

impl ValueType {
    /// Position of the kind in the order `Unit < Bool < Num < Str`.
    pub open spec fn rank(self) -> int {
        match self {
            ValueType::Unit => 0,
            ValueType::Bool => 1,
            ValueType::Num => 2,
            ValueType::Str => 3,
        }
    }

    /// The larger of two kinds.
    pub open spec fn spec_max(self, other: ValueType) -> ValueType {
        if self.rank() >= other.rank() {
            self
        } else {
            other
        }
    }

    /// The larger of two kinds.
    pub fn max(self, other: ValueType) -> (r: ValueType)
        ensures
            r == self.spec_max(other),
    {
        let a: u8 = self.index();
        let b: u8 = other.index();
        if a >= b {
            self
        } else {
            other
        }
    }

    fn index(self) -> (r: u8)
        ensures
            r == self.rank(),
    {
        match self {
            ValueType::Unit => 0,
            ValueType::Bool => 1,
            ValueType::Num => 2,
            ValueType::Str => 3,
        }
    }
}

/// What a value is: the mathematical model that contracts speak of.
pub enum Value {
    Unit,
    Bool(bool),
    Num(int),
    Str(Seq<char>),
}

impl Value {
    /// The kind of the value.
    pub open spec fn type_of(self) -> ValueType {
        match self {
            Value::Unit => ValueType::Unit,
            Value::Bool(_) => ValueType::Bool,
            Value::Num(_) => ValueType::Num,
            Value::Str(_) => ValueType::Str,
        }
    }

    /// The value read as a truth value: `Unit` is false, a number is true unless
    /// it is zero, a string is true unless it is empty.
    pub open spec fn as_bool(self) -> bool {
        match self {
            Value::Unit => false,
            Value::Bool(b) => b,
            Value::Num(n) => n != 0,
            Value::Str(s) => s.len() != 0,
        }
    }

    /// The value read as a number: `Unit` is 0, false is 0, true is 1, a string
    /// is the number of bytes of its UTF-8 form.
    pub open spec fn as_num(self) -> int {
        match self {
            Value::Unit => 0,
            Value::Bool(b) => if b {
                1
            } else {
                0
            },
            Value::Num(n) => n,
            Value::Str(s) => encode_utf8(s).len() as int,
        }
    }

    /// The value read as text: `Unit` is empty, a truth value is `true` or
    /// `false`, a number is its decimal form.
    pub open spec fn as_str(self) -> Seq<char> {
        match self {
            Value::Unit => Seq::empty(),
            Value::Bool(b) => if b {
                seq!['t', 'r', 'u', 'e']
            } else {
                seq!['f', 'a', 'l', 's', 'e']
            },
            Value::Num(n) => decimal(n),
            Value::Str(s) => s,
        }
    }

    /// The strict order of values: by kind first, `Unit < Bool < Num < Str`, and
    /// within a kind false before true, numbers by size, strings
    /// lexicographically.
    pub open spec fn less(self, other: Value) -> bool {
        match (self, other) {
            (Value::Bool(a), Value::Bool(b)) => !a && b,
            (Value::Num(a), Value::Num(b)) => a < b,
            (Value::Str(a), Value::Str(b)) => text_less(a, b),
            _ => self.type_of().rank() < other.type_of().rank(),
        }
    }

    /// How two values compare in the order of [`Value::less`].
    pub open spec fn compare(self, other: Value) -> Ordering {
        if self.less(other) {
            Ordering::Less
        } else if other.less(self) {
            Ordering::Greater
        } else {
            Ordering::Equal
        }
    }
}

/// Lexicographic order of two texts, character by character in the order of the
/// code points.
pub open spec fn text_less(a: Seq<char>, b: Seq<char>) -> bool
    decreases a.len(),
{
    if b.len() == 0 {
        false
    } else if a.len() == 0 {
        true
    } else if a[0] != b[0] {
        (a[0] as u32) < (b[0] as u32)
    } else {
        text_less(a.skip(1), b.skip(1))
    }
}

/// Whether one text comes before another, decided by the order that std gives
/// to `str`. Trusted: that this order is lexicographic by code points, as the
/// documentation of `str` says.
#[verifier::external_body]
pub(crate) fn str_less(a: &str, b: &str) -> (r: bool)
    ensures
        r == text_less(a@, b@),
{
    a < b
}

/// A value of a script: nothing, a truth value, an integer of any size, or a
/// text.
#[derive(Debug)]
pub enum RawValue {
    Unit,
    Bool(bool),
    Num(Integer),
    Str(String),
}

impl View for RawValue {
    type V = Value;

    open spec fn view(&self) -> Value {
        match self {
            RawValue::Unit => Value::Unit,
            RawValue::Bool(b) => Value::Bool(*b),
            RawValue::Num(n) => Value::Num(n@),
            RawValue::Str(s) => Value::Str(s@),
        }
    }
}

impl Clone for RawValue {
    fn clone(&self) -> (r: RawValue)
        ensures
            r@ == self@,
    {
        match self {
            RawValue::Unit => RawValue::Unit,
            RawValue::Bool(b) => RawValue::Bool(*b),
            RawValue::Num(n) => RawValue::Num(n.clone()),
            RawValue::Str(s) => RawValue::Str(s.clone()),
        }
    }
}

impl Default for RawValue {
    fn default() -> (r: RawValue)
        ensures
            r@ == Value::Unit,
    {
        RawValue::Unit
    }
}

impl RawValue {
    /// The kind of the value.
    pub fn get_type(&self) -> (r: ValueType)
        ensures
            r == self@.type_of(),
    {
        match self {
            RawValue::Unit => ValueType::Unit,
            RawValue::Bool(_) => ValueType::Bool,
            RawValue::Num(_) => ValueType::Num,
            RawValue::Str(_) => ValueType::Str,
        }
    }

    /// The value read as a truth value.
    pub fn get_bool(&self) -> (r: bool)
        ensures
            r == self@.as_bool(),
    {
        match self {
            RawValue::Unit => false,
            RawValue::Bool(b) => *b,
            RawValue::Num(n) => !n.is_zero(),
            RawValue::Str(s) => !s.as_str().is_empty(),
        }
    }

    /// The value read as a number.
    pub fn get_num(&self) -> (r: Integer)
        ensures
            r@ == self@.as_num(),
    {
        match self {
            RawValue::Unit => Integer::zero(),
            RawValue::Bool(b) => if *b {
                Integer::from_u64(1)
            } else {
                Integer::zero()
            },
            RawValue::Num(n) => n.clone(),
            RawValue::Str(s) => Integer::from_usize(s.as_str().as_bytes().len()),
        }
    }

    /// The value read as text.
    pub fn get_str(&self) -> (r: String)
        ensures
            r@ == self@.as_str(),
    {
        match self {
            RawValue::Unit => String::new(),
            RawValue::Bool(b) => if *b {
                proof {
                    reveal_strlit("true");
                }
                let r = "true".to_owned();
                assert(r@ =~= seq!['t', 'r', 'u', 'e']);
                r
            } else {
                proof {
                    reveal_strlit("false");
                }
                let r = "false".to_owned();
                assert(r@ =~= seq!['f', 'a', 'l', 's', 'e']);
                r
            },
            RawValue::Num(n) => text(n),
            RawValue::Str(s) => s.clone(),
        }
    }

    /// Whether the value comes before another in the order of values.
    pub fn less(&self, other: &RawValue) -> (r: bool)
        ensures
            r == self@.less(other@),
    {
        match (self, other) {
            (RawValue::Bool(a), RawValue::Bool(b)) => !*a && *b,
            (RawValue::Num(a), RawValue::Num(b)) => less(a, b),
            (RawValue::Str(a), RawValue::Str(b)) => str_less(a.as_str(), b.as_str()),
            _ => self.get_type().index() < other.get_type().index(),
        }
    }
}

impl PartialEq for RawValue {
    fn eq(&self, other: &RawValue) -> (r: bool) {
        match (self, other) {
            (RawValue::Unit, RawValue::Unit) => true,
            (RawValue::Bool(a), RawValue::Bool(b)) => *a == *b,
            (RawValue::Num(a), RawValue::Num(b)) => equal(a, b),
            (RawValue::Str(a), RawValue::Str(b)) => *a == *b,
            _ => false,
        }
    }
}

impl vstd::std_specs::cmp::PartialEqSpecImpl for RawValue {
    open spec fn obeys_eq_spec() -> bool {
        true
    }

    open spec fn eq_spec(&self, other: &RawValue) -> bool {
        self@ == other@
    }
}

impl Eq for RawValue {

}

impl PartialOrd for RawValue {
    fn partial_cmp(&self, other: &RawValue) -> (r: Option<Ordering>) {
        if self.less(other) {
            Some(Ordering::Less)
        } else if other.less(self) {
            Some(Ordering::Greater)
        } else {
            Some(Ordering::Equal)
        }
    }
}

impl vstd::std_specs::cmp::PartialOrdSpecImpl for RawValue {
    open spec fn obeys_partial_cmp_spec() -> bool {
        true
    }

    open spec fn partial_cmp_spec(&self, other: &RawValue) -> Option<Ordering> {
        Some(self@.compare(other@))
    }
}

/// No text comes before itself.
pub proof fn lemma_text_less_irreflexive(a: Seq<char>)
    ensures
        !text_less(a, a),
    decreases a.len(),
{
    if a.len() > 0 {
        lemma_text_less_irreflexive(a.skip(1));
    }
}

/// Of two different texts one comes before the other.
pub proof fn lemma_text_less_total(a: Seq<char>, b: Seq<char>)
    ensures
        text_less(a, b) || text_less(b, a) || a == b,
        !(text_less(a, b) && text_less(b, a)),
    decreases a.len(),
{
    if a.len() > 0 && b.len() > 0 && a[0] == b[0] {
        lemma_text_less_total(a.skip(1), b.skip(1));
        if a.skip(1) == b.skip(1) {
            assert(a =~= seq![a[0]] + a.skip(1));
            assert(b =~= seq![b[0]] + b.skip(1));
        }
    } else if a.len() == 0 && b.len() == 0 {
        assert(a =~= b);
    } else if a.len() > 0 && b.len() > 0 {
        if a[0] as u32 == b[0] as u32 {
            vstd::utf8::char_u32_cast(a[0], a[0] as u32);
            vstd::utf8::char_u32_cast(b[0], b[0] as u32);
        }
    }
}

/// A text that comes before another comes before all that come after that.
pub proof fn lemma_text_less_transitive(a: Seq<char>, b: Seq<char>, c: Seq<char>)
    requires
        text_less(a, b),
        text_less(b, c),
    ensures
        text_less(a, c),
    decreases a.len(),
{
    if a.len() > 0 && a[0] == b[0] && b[0] == c[0] {
        lemma_text_less_transitive(a.skip(1), b.skip(1), c.skip(1));
    }
}

/// The order of values is a strict total order: no value comes before itself,
/// of two different values one comes before the other and never both, and a
/// value that comes before another comes before all that come after that.
pub proof fn lemma_less_is_a_total_order(a: Value, b: Value, c: Value)
    ensures
        !a.less(a),
        a.less(b) || b.less(a) || a == b,
        !(a.less(b) && b.less(a)),
        a.less(b) && b.less(c) ==> a.less(c),
{
    match (a, b) {
        (Value::Str(x), Value::Str(y)) => {
            lemma_text_less_total(x, y);
        },
        _ => {},
    }
    match a {
        Value::Str(x) => {
            lemma_text_less_irreflexive(x);
        },
        _ => {},
    }
    match (a, b, c) {
        (Value::Str(x), Value::Str(y), Value::Str(z)) => {
            if text_less(x, y) && text_less(y, z) {
                lemma_text_less_transitive(x, y, z);
            }
        },
        _ => {},
    }
}

} // verus!
