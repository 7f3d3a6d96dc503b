//! The outcomes that end a request without a result.

use vstd::prelude::*;
use vstd::string::*;

verus! {

/// Why a request failed.
#[derive(Debug)]
pub enum Error {
    /// The store failed; the text says how.
    DbError(String),
    /// One of the accounts already holds a reservation that collides with
    /// the requested slot.
    Conflicts,
}

impl Error {
    /// The text that describes the error.
    pub open spec fn message_spec(&self) -> Seq<char> {
        match self {
            Error::DbError(description) => "DbError: "@ + description@,
            Error::Conflicts => "already slot exist."@,
        }
    }

    /// The signal by which a caller tells the two outcomes apart: 409 for a
    /// conflict, 500 for every failure of the store.
    pub open spec fn status_code_spec(&self) -> u16 {
        match self {
            Error::DbError(_) => 500,
            Error::Conflicts => 409,
        }
    }

    /// The text that describes the error.
    pub fn message(&self) -> (text: String)
        ensures
            text@ == self.message_spec(),
    {
        match self {
            Error::DbError(description) => String::from_str("DbError: ").concat(
                description.as_str(),
            ),
            Error::Conflicts => String::from_str("already slot exist."),
        }
    }

    /// The status that the error is reported with.
    pub fn status_code(&self) -> (code: u16)
        ensures
            code == self.status_code_spec(),
    {
        match self {
            Error::DbError(_) => 500,
            Error::Conflicts => 409,
        }
    }
}

} // verus!
