//! Runtime values, and the two judgements the language makes of them:
//! truthiness and equality.
use vstd::prelude::*;
use crate::number::{float_compare, float_order, is_nan, FloatOrder};

verus! {

/// Something that can be called: a function or a class, by its index in the
/// interpreter's tables, or the native `clock`.
#[derive(Debug, Clone, Copy, PartialEq, Eq, Structural)]
pub enum Callable {
    Function(usize),
    Class(usize),
    Clock,
}

/// A value of the (dynamically typed) language. A float is held as the bit
/// pattern of an IEEE-754 double; an instance by its index in the
/// interpreter's table of instances.
#[derive(Debug)]
pub enum Value {
    Callable(Callable),
    Instance(usize),
    Integer(isize),
    Float(u64),
    Str(String),
    Bool(bool),
    Nil,
}

/// The mathematical view of a value.
pub enum ValueView {
    Callable(Callable),
    Instance(usize),
    Integer(isize),
    Float(u64),
    Str(Seq<char>),
    Bool(bool),
    Nil,
}

impl View for Value {
    type V = ValueView;

    open spec fn view(&self) -> ValueView {
        match self {
            Value::Callable(c) => ValueView::Callable(*c),
            Value::Instance(i) => ValueView::Instance(*i),
            Value::Integer(i) => ValueView::Integer(*i),
            Value::Float(f) => ValueView::Float(*f),
            Value::Str(s) => ValueView::Str(s@),
            Value::Bool(b) => ValueView::Bool(*b),
            Value::Nil => ValueView::Nil,
        }
    }
}

/// `nil` and `false` are false; every other value is true.
pub open spec fn truthy(v: ValueView) -> bool {
    match v {
        ValueView::Nil => false,
        ValueView::Bool(b) => b,
        _ => true,
    }
}

/// Equality of the language: values of one kind compare by content (floats
/// as IEEE-754 does), values of different kinds are never equal, and
/// callables and instances are never equal to anything.
pub open spec fn values_equal(a: ValueView, b: ValueView) -> bool {
    match (a, b) {
        (ValueView::Nil, ValueView::Nil) => true,
        (ValueView::Bool(x), ValueView::Bool(y)) => x == y,
        (ValueView::Float(x), ValueView::Float(y)) => float_order(x, y) == FloatOrder::Equal,
        (ValueView::Integer(x), ValueView::Integer(y)) => x == y,
        (ValueView::Str(x), ValueView::Str(y)) => x == y,
        _ => false,
    }
}

impl Value {
    /// A copy of the value.
    pub fn copy(&self) -> (r: Value)
        ensures
            r == *self,
    {
        match self {
            Value::Callable(c) => Value::Callable(*c),
            Value::Instance(i) => Value::Instance(*i),
            Value::Integer(i) => Value::Integer(*i),
            Value::Float(f) => Value::Float(*f),
            Value::Str(s) => Value::Str(s.clone()),
            Value::Bool(b) => Value::Bool(*b),
            Value::Nil => Value::Nil,
        }
    }
}

/// Whether a value counts as true in a condition.
pub fn is_truthy(v: &Value) -> (r: bool)
    ensures
        r == truthy(v@),
{
    match v {
        Value::Nil => false,
        Value::Bool(b) => *b,
        _ => true,
    }
}

/// Whether two values are equal in the language.
pub fn is_equal(a: &Value, b: &Value) -> (r: bool)
    ensures
        r == values_equal(a@, b@),
{
    match (a, b) {
        (Value::Nil, Value::Nil) => true,
        (Value::Bool(x), Value::Bool(y)) => *x == *y,
        (Value::Float(x), Value::Float(y)) => float_compare(*x, *y) == FloatOrder::Equal,
        (Value::Integer(x), Value::Integer(y)) => *x == *y,
        (Value::Str(x), Value::Str(y)) => *x == *y,
        _ => false,
    }
}

/// Equality is reflexive on every value but floats, callables and
/// instances.
pub proof fn lemma_equal_reflexive(a: ValueView)
    requires
        !(a is Float),
        !(a is Callable),
        !(a is Instance),
    ensures
        values_equal(a, a),
{
}

/// Equality is symmetric whenever the two sides are not both floats.
pub proof fn lemma_equal_symmetric(a: ValueView, b: ValueView)
    requires
        !(a is Float && b is Float),
    ensures
        values_equal(a, b) == values_equal(b, a),
{
}

/// Values of different kinds are never equal.
pub proof fn lemma_equal_same_kind(a: ValueView, b: ValueView)
    requires
        values_equal(a, b),
    ensures
        (a is Nil && b is Nil) || (a is Bool && b is Bool) || (a is Float && b is Float) || (a is Integer
            && b is Integer) || (a is Str && b is Str),
{
}

/// Exactly `nil` and `false` are false.
pub proof fn lemma_falsy_values(v: ValueView)
    ensures
        !truthy(v) <==> (v is Nil || v == ValueView::Bool(false)),
{
}

/// A double is its sign bit and its magnitude bits: two doubles with the
/// same of each are the same.
proof fn lemma_sign_and_magnitude(x: u64, y: u64)
    requires
        x & 0x7fff_ffff_ffff_ffffu64 == y & 0x7fff_ffff_ffff_ffffu64,
        (x & 0x8000_0000_0000_0000u64 == 0) == (y & 0x8000_0000_0000_0000u64 == 0),
    ensures
        x == y,
{
    assert(x == y) by (bit_vector)
        requires
            x & 0x7fff_ffff_ffff_ffffu64 == y & 0x7fff_ffff_ffff_ffffu64,
            (x & 0x8000_0000_0000_0000u64 == 0) == (y & 0x8000_0000_0000_0000u64 == 0),
    ;
}

/// Two floats are equal exactly when neither is NaN and they are the same
/// double, or both are zeros (of either sign): two different doubles that
/// are not both zero are never equal, and NaN equals nothing, itself
/// included.
pub proof fn lemma_float_equality(x: u64, y: u64)
    ensures
        values_equal(ValueView::Float(x), ValueView::Float(y)) <==> (!is_nan(x) && !is_nan(y) && (x == y || (x
            & 0x7fff_ffff_ffff_ffffu64 == 0 && y & 0x7fff_ffff_ffff_ffffu64 == 0))),
{
    let mx = x & 0x7fff_ffff_ffff_ffffu64;
    let my = y & 0x7fff_ffff_ffff_ffffu64;
    if !is_nan(x) && !is_nan(y) && mx != 0 && my != 0 && crate::number::order_key(x) == crate::number::order_key(y) {
        if (x & 0x8000_0000_0000_0000u64 == 0) != (y & 0x8000_0000_0000_0000u64 == 0) {
            assert(false);
        }
        lemma_sign_and_magnitude(x, y);
    }
}

} // verus!
