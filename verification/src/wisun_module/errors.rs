use vstd::prelude::*;

verus! {

/// Errors of the module driver.
#[derive(Debug, PartialEq)]
pub enum Error {
    /// The serial link failed.
    SerialError(crate::serial::errors::Error),
    /// The module reported a failure, or an expected event arrived as its
    /// negative counterpart; the payload is the module's reason.
    CommandError(String),
    /// No coordinator was found on any scan duration.
    ScanError(String),
    /// An ECHONET payload could not be decoded.
    PacketParseError(crate::echonet::errors::Error),
    /// No matching message arrived before the stream ended.
    TimeoutError,
}

pub type Result<T> = core::result::Result<T, Error>;

} // verus!
