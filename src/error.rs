//! Why a conversion failed.
use vstd::prelude::*;

verus! {

#[derive(Clone, Copy, PartialEq, Eq, Structural, Debug)]
pub enum ErrorType {
    /// A numeric field is not a decimal number in range, or is missing.
    MalformedLine,
    /// No directory of the search path holds the referenced file.
    SubpartNotFound,
    /// A file references itself, directly or through other files.
    CyclicReference,
}

pub open spec fn message_spec(e: ErrorType) -> Seq<char> {
    match e {
        ErrorType::MalformedLine => "malformed line: a numeric field does not parse"@,
        ErrorType::SubpartNotFound => "subpart not found on the search path"@,
        ErrorType::CyclicReference => "cyclic subfile reference"@,
    }
}

impl ErrorType {
    /// A short description of the failure.
    pub fn message(&self) -> (r: String)
        ensures
            r@ == message_spec(*self),
    {
        match self {
            ErrorType::MalformedLine => String::from_str("malformed line: a numeric field does not parse"),
            ErrorType::SubpartNotFound => String::from_str("subpart not found on the search path"),
            ErrorType::CyclicReference => String::from_str("cyclic subfile reference"),
        }
    }
}

} // verus!
