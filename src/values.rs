//! Static types checked by the compiler and the run-time values of the machine.
use vstd::prelude::*;

verus! {

/// Static type of an expression, known at compile time.
///
/// `Int` and `Float` are distinct here, although both are carried as the same
/// 32-bit float at run time.
#[derive(Debug, Clone, Copy, PartialEq, Eq, Structural)]
pub enum ComptimeValueType {
    Int,
    StringValue,
    Bool,
    Void,
    Float,
}

/// A run-time value.
///
/// A number is held as the bit pattern of an IEEE-754 single-precision float,
/// the form in which it is written to a byte stream.
#[derive(Debug, Clone)]
pub enum Value {
    StringValue(String),
    Number(u32),
    Bool(bool),
}

/// The mathematical model of a [`Value`].
pub enum ValueModel {
    Str(Seq<char>),
    Number(u32),
    Bool(bool),
}

impl View for Value {
    type V = ValueModel;

    open spec fn view(&self) -> ValueModel {
        match self {
            Value::StringValue(s) => ValueModel::Str(s@),
            Value::Number(n) => ValueModel::Number(*n),
            Value::Bool(b) => ValueModel::Bool(*b),
        }
    }
}

/// Copies a value, keeping its model.
pub fn copy_value(v: &Value) -> (r: Value)
    ensures
        r@ == v@,
{
    match v {
        Value::StringValue(s) => Value::StringValue(s.clone()),
        Value::Number(n) => Value::Number(*n),
        Value::Bool(b) => Value::Bool(*b),
    }
}

/// True when the bit pattern is that of a float equal to zero (`+0.0` or `-0.0`).
pub open spec fn is_zero_bits(bits: u32) -> bool {
    bits == 0 || bits == 0x8000_0000
}

/// Tells whether a number, given by its bit pattern, equals zero.
pub fn number_is_zero(bits: u32) -> (r: bool)
    ensures
        r == is_zero_bits(bits),
{
    bits == 0 || bits == 0x8000_0000
}

} // verus!
