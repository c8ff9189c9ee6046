//! The closed error taxonomy of the scanner, each error paired with the
//! exact source location at which it was detected.

use vstd::prelude::*;
use crate::location::Location;
use crate::strutil::{dec_rep, usize_to_string};

verus! {

/// The closed set of scan error kinds.
#[derive(Clone, Copy, Debug, PartialEq, Eq, Structural)]
pub enum WSVErrorType {
    /// A quoted value reached a raw line feed or the end of the input before
    /// its closing quote.
    StringNotClosed,
    /// A quote immediately follows a bare value with no separating whitespace.
    InvalidDoubleQuoteAfterValue,
    /// A character other than whitespace, `#`, a line feed or end of input
    /// immediately follows a closed quoted value.
    InvalidCharacterAfterString,
    /// A `"/` escape inside a quoted value is not followed by a closing `"`.
    InvalidStringLineBreak,
}

/// A scan error: its kind together with the location of the offending
/// character in the source text.
#[derive(Debug, Clone, Copy)]
pub struct WSVError {
    pub err_type: WSVErrorType,
    pub location: Location,
}

impl WSVError {
    /// Builds an error value; useful to state expected results.
    pub fn new(err_type: WSVErrorType, location: Location) -> (r: Self)
        ensures
            r == (WSVError { err_type, location }),
    {
        WSVError { err_type, location }
    }

    /// The kind of this error.
    pub fn err_type(&self) -> (r: WSVErrorType)
        ensures
            r == self.err_type,
    {
        self.err_type
    }

    /// Where in the source text the error was detected.
    pub fn location(&self) -> (r: Location)
        ensures
            r == self.location,
    {
        self.location
    }

    /// A human-readable description of this error: its location, then its
    /// kind.
    pub fn message(&self) -> (r: String)
        ensures
            r@ == error_message(self.err_type, self.location),
    {
        let mut description = String::new();
        description.append("(line: ");
        let line = usize_to_string(self.location.line);
        description.append(line.as_str());
        description.append(", column: ");
        let col = usize_to_string(self.location.col);
        description.append(col.as_str());
        description.append(") ");
        match self.err_type {
            WSVErrorType::InvalidCharacterAfterString => {
                description.append("Invalid Character After String");
            },
            WSVErrorType::InvalidDoubleQuoteAfterValue => {
                description.append("Invalid Double Quote After Value");
            },
            WSVErrorType::InvalidStringLineBreak => {
                description.append("Invalid String Line Break");
            },
            WSVErrorType::StringNotClosed => {
                description.append("String Not Closed");
            },
        }
        proof {
            assert(description@ =~= error_message(self.err_type, self.location));
        }
        description
    }
}

/// The name of one error kind, as shown to a user.
pub open spec fn kind_name(k: WSVErrorType) -> Seq<char> {
    match k {
        WSVErrorType::InvalidCharacterAfterString => "Invalid Character After String"@,
        WSVErrorType::InvalidDoubleQuoteAfterValue => "Invalid Double Quote After Value"@,
        WSVErrorType::InvalidStringLineBreak => "Invalid String Line Break"@,
        WSVErrorType::StringNotClosed => "String Not Closed"@,
    }
}

/// The full text of an error message.
pub open spec fn error_message(k: WSVErrorType, loc: Location) -> Seq<char> {
    "(line: "@ + dec_rep(loc.line as nat) + ", column: "@ + dec_rep(loc.col as nat) + ") "@
        + kind_name(k)
}

} // verus!
