//! The values that the store holds.

use vstd::prelude::*;

verus! {

/// A value of one of four kinds. A value never changes its kind, and none is
/// read as another.
#[derive(Debug, PartialEq)]
pub enum Value {
    Integer(i32),
    String(String),
    /// A 64-bit IEEE 754 number, held as its bit pattern. The store carries
    /// the number and never computes with it, so two floats are the same
    /// value exactly when their bits are.
    Float(u64),
    Boolean(bool),
}

/// The mathematical value of a [`Value`].
pub enum ValueView {
    Integer(i32),
    String(Seq<char>),
    Float(u64),
    Boolean(bool),
}

impl View for Value {
    type V = ValueView;

    open spec fn view(&self) -> ValueView {
        match *self {
            Value::Integer(n) => ValueView::Integer(n),
            Value::String(s) => ValueView::String(s@),
            Value::Float(bits) => ValueView::Float(bits),
            Value::Boolean(b) => ValueView::Boolean(b),
        }
    }
}

/// Reading a [`Value`] as a `T`.
pub trait ValueConvert<T> {
    /// The payload, if the value is of the kind that holds a `T`.
    spec fn payload(&self) -> Option<T>;

    /// Borrows the payload if the value is of the kind that holds a `T`,
    /// and fails otherwise.
    fn to(&self) -> (r: Result<&T, ()>)
        ensures
            match self.payload() {
                Some(p) => r == Ok::<&T, ()>(&p),
                None => r is Err,
            },
    ;
}

impl ValueConvert<String> for Value {
    open spec fn payload(&self) -> Option<String> {
        match *self {
            Value::String(s) => Some(s),
            _ => None,
        }
    }

    fn to(&self) -> (r: Result<&String, ()>) {
        match self {
            Value::String(value) => Ok(value),
            _ => Err(()),
        }
    }
}

impl ValueConvert<i32> for Value {
    open spec fn payload(&self) -> Option<i32> {
        match *self {
            Value::Integer(n) => Some(n),
            _ => None,
        }
    }

    fn to(&self) -> (r: Result<&i32, ()>) {
        match self {
            Value::Integer(value) => Ok(value),
            _ => Err(()),
        }
    }
}

impl ValueConvert<u64> for Value {
    open spec fn payload(&self) -> Option<u64> {
        match *self {
            Value::Float(bits) => Some(bits),
            _ => None,
        }
    }

    fn to(&self) -> (r: Result<&u64, ()>) {
        match self {
            Value::Float(value) => Ok(value),
            _ => Err(()),
        }
    }
}

impl ValueConvert<bool> for Value {
    open spec fn payload(&self) -> Option<bool> {
        match *self {
            Value::Boolean(b) => Some(b),
            _ => None,
        }
    }

    fn to(&self) -> (r: Result<&bool, ()>) {
        match self {
            Value::Boolean(value) => Ok(value),
            _ => Err(()),
        }
    }
}

} // verus!
