//! The failure kinds shared by every parser.

use vstd::prelude::*;

verus! {

/// Why a parser did not match.
///
/// - `EOF`: the cursor was exhausted where content was mandatory.
/// - `Indeterminate`: fewer bytes remain than a literal match requires, so
///   there was not enough data to decide either way.
/// - `Invalid`: enough input existed but it failed the content test.
#[derive(Clone, Copy, Debug, PartialEq, Eq, Structural)]
pub enum ParseError {
    EOF,
    Indeterminate,
    Invalid,
}

impl ParseError {
    /// A one-line diagnostic naming the failure kind.
    pub fn message(&self) -> (s: &'static str)
        ensures
            self is EOF ==> s@ == "unexpected end of stream"@,
            self is Indeterminate ==> s@ == "not enough data to parse"@,
            self is Invalid ==> s@ == "match failed"@,
    {
        match self {
            ParseError::EOF => "unexpected end of stream",
            ParseError::Indeterminate => "not enough data to parse",
            ParseError::Invalid => "match failed",
        }
    }
}

} // verus!
