//! Why a proposed length is refused. Lengths themselves are measured in
//! floating point and are kept by the typesetting host.

use vstd::prelude::*;

verus! {

/// Why a proposed length is not usable.
#[derive(Debug, Clone, Copy, PartialEq, Eq, Structural)]
pub enum InvalidLength {
    /// The value was infinite or not a number.
    NotFinite,
    /// The value was zero or negative.
    NotPositive,
}

/// The message describing a refused length.
pub open spec fn invalid_length_message(e: InvalidLength) -> Seq<char> {
    match e {
        InvalidLength::NotFinite => "length must be a finite number"@,
        InvalidLength::NotPositive => "length must be greater than zero"@,
    }
}

impl InvalidLength {
    /// The message describing the refusal: which rule the value broke.
    pub fn message(&self) -> (r: &'static str)
        ensures
            r@ == invalid_length_message(*self),
    {
        match self {
            InvalidLength::NotFinite => "length must be a finite number",
            InvalidLength::NotPositive => "length must be greater than zero",
        }
    }
}

} // verus!
