use vstd::prelude::*;

verus! {

/// The colour of a pixel, or none.
#[derive(Debug, Clone, Copy, PartialEq, Eq, Structural)]
pub enum Value {
    Invalid,
    White,
    Black,
}

impl Value {
    /// Whether the pixel is black.
    pub fn is_black(&self) -> (res: bool)
        ensures
            res == (*self == Value::Black),
    {
        matches!(self, Value::Black)
    }

    /// Whether the pixel is white.
    pub fn is_white(&self) -> (res: bool)
        ensures
            res == (*self == Value::White),
    {
        matches!(self, Value::White)
    }

    /// Whether the pixel has a colour.
    pub fn is_valid(&self) -> (res: bool)
        ensures
            res == (*self != Value::Invalid),
    {
        !matches!(self, Value::Invalid)
    }
}

/// Black for `true`, white for `false`.
pub open spec fn value_of_bool(value: bool) -> Value {
    if value {
        Value::Black
    } else {
        Value::White
    }
}

impl From<bool> for Value {
    fn from(value: bool) -> (res: Self) {
        if value {
            Value::Black
        } else {
            Value::White
        }
    }
}

impl vstd::std_specs::convert::FromSpecImpl<bool> for Value {
    open spec fn obeys_from_spec() -> bool {
        true
    }

    open spec fn from_spec(value: bool) -> Value {
        value_of_bool(value)
    }
}

impl From<Value> for bool {
    fn from(value: Value) -> (res: Self) {
        matches!(value, Value::Black)
    }
}

impl vstd::std_specs::convert::FromSpecImpl<Value> for bool {
    open spec fn obeys_from_spec() -> bool {
        true
    }

    open spec fn from_spec(value: Value) -> bool {
        value == Value::Black
    }
}

} // verus!
