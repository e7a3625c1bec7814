//! The error kinds of the encoder.

use vstd::prelude::*;

verus! {

/// A sixel-related result.
pub type SixelResult<T> = Result<T, SixelError>;

/// A sixel-related error.
#[derive(Clone, Copy, Debug, PartialEq, Eq, Hash, Structural)]
pub enum SixelError {
    /// Bad argument detected.
    BadArgument,
    /// Bad input detected.
    BadInput,
    /// Integer overflow.
    BadIntegerOverflow,
    /// Feature not implemented.
    NotImplemented,
}

impl SixelError {
    /// The text that describes the error kind.
    pub open spec fn spec_message(self) -> Seq<char> {
        match self {
            SixelError::BadArgument => "bad argument detected"@,
            SixelError::BadInput => "bad input detected"@,
            SixelError::BadIntegerOverflow => "integer overflow"@,
            SixelError::NotImplemented => "feature not implemented"@,
        }
    }

    /// Returns the text that describes the error kind.
    pub fn message(&self) -> (text: String)
        ensures
            text@ == self.spec_message(),
    {
        match self {
            SixelError::BadArgument => String::from_str("bad argument detected"),
            SixelError::BadInput => String::from_str("bad input detected"),
            SixelError::BadIntegerOverflow => String::from_str("integer overflow"),
            SixelError::NotImplemented => String::from_str("feature not implemented"),
        }
    }
}

} // verus!
