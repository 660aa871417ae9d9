use vstd::prelude::*;

verus! {

/// Errors of the serial link.
#[derive(Debug, PartialEq)]
pub enum Error {
    /// The device is not available.
    NoDevice(String),
    /// A parameter was incorrect.
    InvalidInput(String),
    /// A read produced nothing within the read timeout; trying again may
    /// succeed.
    Timeout,
    /// The stream ended: no further data will come.
    Closed,
    /// A completed line was not valid UTF-8.
    Utf8Error,
    /// Any other failure of the underlying transport.
    IoError(String),
    /// A failure with no better classification.
    UnknownError(String),
}

pub type Result<T> = core::result::Result<T, Error>;

} // verus!
