//! The ways a request can be refused.

use vstd::prelude::*;
use vstd::string::StringExecFns;

verus! {

/// Why a request was refused. Every refusal is decided on the request alone,
/// before any work is done.
#[derive(Clone, Copy, Debug, PartialEq, Eq, Structural)]
pub enum Error {
    /// The source grid has no rows or no columns.
    EmptySource,
    /// A target height or width of zero was asked for.
    InvalidTargetDimensions,
    /// The rows handed to a matrix constructor differ in length.
    ShapeMismatch,
    /// A matrix was accessed outside its rows or columns.
    IndexOutOfRange,
}

impl Error {
    /// The text shown for this error.
    pub open spec fn text(self) -> Seq<char> {
        match self {
            Error::EmptySource => "error: the source grid is empty"@,
            Error::InvalidTargetDimensions => "error: target dimensions must be greater than zero"@,
            Error::ShapeMismatch => "error: inconsistent row lengths"@,
            Error::IndexOutOfRange => "error: index out of range"@,
        }
    }

    pub fn to_string(&self) -> (s: String)
        ensures
            s@ == self.text(),
    {
        match self {
            Error::EmptySource => String::from_str("error: the source grid is empty"),
            Error::InvalidTargetDimensions => String::from_str(
                "error: target dimensions must be greater than zero",
            ),
            Error::ShapeMismatch => String::from_str("error: inconsistent row lengths"),
            Error::IndexOutOfRange => String::from_str("error: index out of range"),
        }
    }
}

} // verus!
