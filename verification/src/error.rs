//! The ways in which reading a page can fail.

use vstd::prelude::*;

verus! {

/// Why a page could not be turned into records.
#[derive(Debug, Clone, Copy, PartialEq, Eq, Structural)]
pub enum Error {
    /// An element that the path through the page expects is not there.
    Structure,
    /// A text or an attribute was found, but it does not hold the number
    /// that is expected in that place.
    Format,
}

impl Error {
    /// A short description for a log line or an exit message.
    pub fn message(&self) -> (text: &'static str)
        ensures
            text@ == match *self {
                Error::Structure => "an expected element is missing from the page"@,
                Error::Format => "a value on the page is not a number"@,
            },
    {
        match self {
            Error::Structure => "an expected element is missing from the page",
            Error::Format => "a value on the page is not a number",
        }
    }
}

} // verus!
