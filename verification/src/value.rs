use vstd::prelude::*;

verus! {

/// The dynamically typed value a session can hold under a key.
///
/// This plays the role of the usual JSON-style dynamic value: a null,
/// a boolean, a signed integer, or a string.
#[derive(Debug, PartialEq, Eq)]
pub enum Value {
    Null,
    Bool(bool),
    Int(i64),
    Str(String),
}

/// The mathematical abstraction of a `Value`.
pub enum SpecValue {
    Null,
    Bool(bool),
    Int(i64),
    Str(Seq<char>),
}

impl View for Value {
    type V = SpecValue;

    open spec fn view(&self) -> SpecValue {
        match self {
            Value::Null => SpecValue::Null,
            Value::Bool(b) => SpecValue::Bool(*b),
            Value::Int(i) => SpecValue::Int(*i),
            Value::Str(s) => SpecValue::Str(s@),
        }
    }
}

impl Clone for Value {
    /// A clone denotes the same abstract value.
    fn clone(&self) -> (res: Self)
        ensures
            res@ == self@,
    {
        match self {
            Value::Null => Value::Null,
            Value::Bool(b) => Value::Bool(*b),
            Value::Int(i) => Value::Int(*i),
            Value::Str(s) => Value::Str(s.clone()),
        }
    }
}

/// Decides equality of two values at the level of their abstractions.
pub fn value_eq(a: &Value, b: &Value) -> (r: bool)
    ensures
        r == (a@ == b@),
{
    match (a, b) {
        (Value::Null, Value::Null) => true,
        (Value::Bool(x), Value::Bool(y)) => *x == *y,
        (Value::Int(x), Value::Int(y)) => *x == *y,
        (Value::Str(x), Value::Str(y)) => *x == *y,
        _ => false,
    }
}

} // verus!
