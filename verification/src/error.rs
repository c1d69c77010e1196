//! The errors of the library.

use crate::address::ParseBDAddrError;
use vstd::prelude::*;

verus! {

/// Why an operation could not be done.
#[derive(Debug, PartialEq, Eq)]
pub enum Error {
    /// The operation names a peripheral that is not known.
    NotFound,
    /// A text that should be a device address is none.
    InvalidInput(ParseBDAddrError),
    /// The platform failed; its message is handed on as it came.
    BackendFailure(String),
}

impl Clone for Error {
    fn clone(&self) -> (r: Error)
        ensures
            r == *self,
    {
        match self {
            Error::NotFound => Error::NotFound,
            Error::InvalidInput(e) => Error::InvalidInput(*e),
            Error::BackendFailure(message) => Error::BackendFailure(message.clone()),
        }
    }
}

impl Error {
    /// The error for a text that could not be read as a device address.
    pub fn from_parse_error(e: ParseBDAddrError) -> (r: Error)
        ensures
            r == Error::InvalidInput(e),
    {
        Error::InvalidInput(e)
    }
}

} // verus!
