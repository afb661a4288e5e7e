//! The one error of the parser.
use vstd::prelude::*;

verus! {

/// The query is malformed. No finer kind of failure is told apart.
#[derive(Debug, Clone, Copy, PartialEq, Eq)]
pub struct ParseError;

impl ParseError {
    /// The message that goes with the error.
    pub fn message(&self) -> (text: &'static str)
        ensures
            text@ == "malformed query"@,
    {
        "malformed query"
    }
}

} // verus!
