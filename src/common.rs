//! Types needed in multiple modules.

use vstd::prelude::*;

verus! {

/// Enumeration of binary symbol values.
#[derive(Clone, Copy, Debug, PartialEq, Eq, Structural)]
pub enum Bit {
    /// Binary symbol `0`
    Zero,
    /// Binary symbol `1`
    One,
}

/// The bit that a boolean stands for: `true` is `1`.
pub open spec fn bit_of(b: bool) -> Bit {
    if b {
        Bit::One
    } else {
        Bit::Zero
    }
}

impl Bit {
    /// The boolean value of the bit: `1` is `true`.
    pub open spec fn is_one(self) -> bool {
        self is One
    }

    /// The soft value of the bit as sent over an antipodal channel:
    /// `0` maps to `+1` and `1` maps to `-1`, so that a positive
    /// log-likelihood ratio favours `0`.
    pub fn soft_value(self) -> (r: i32)
        ensures
            r == (if self.is_one() { -1int } else { 1int }),
    {
        match self {
            Bit::Zero => 1,
            Bit::One => -1,
        }
    }
}

impl From<bool> for Bit {
    fn from(value: bool) -> (r: Self)
        ensures
            r == bit_of(value),
    {
        if value {
            Bit::One
        } else {
            Bit::Zero
        }
    }
}

impl vstd::std_specs::convert::FromSpecImpl<bool> for Bit {
    open spec fn obeys_from_spec() -> bool {
        true
    }

    open spec fn from_spec(v: bool) -> Bit {
        bit_of(v)
    }
}

impl From<Bit> for bool {
    fn from(value: Bit) -> (r: Self)
        ensures
            r == value.is_one(),
    {
        match value {
            Bit::Zero => false,
            Bit::One => true,
        }
    }
}

impl vstd::std_specs::convert::FromSpecImpl<Bit> for bool {
    open spec fn obeys_from_spec() -> bool {
        true
    }

    open spec fn from_spec(v: Bit) -> bool {
        v.is_one()
    }
}

/// Error type of the library.
#[derive(Debug, PartialEq, Eq)]
pub enum Error {
    /// Invalid input error, with a description of what was wrong.
    InvalidInput(String),
    /// Unknown error.
    Unknown,
}

impl Error {
    /// The message of the error.
    pub fn message(&self) -> (r: String)
        ensures
            self matches Error::InvalidInput(m) ==> r@ == m@,
            self is Unknown ==> r@ == "Unknown error"@,
    {
        match self {
            Error::InvalidInput(m) => m.clone(),
            Error::Unknown => String::from_str("Unknown error"),
        }
    }
}

} // verus!
