use vstd::prelude::*;

verus! {

/// Errors raised while encoding or decoding ECHONET Lite data.
#[derive(Debug, PartialEq)]
pub enum Error {
    /// The binary data is malformed (too short, inconsistent counts).
    ParseError(String),
    /// A fixed header byte holds an unexpected value.
    InvalidValueError(String),
    /// The three bytes do not name a known ECHONET object.
    InvalidEchonetObjectIdError([u8; 3]),
    /// The byte does not name a known ECHONET service.
    InvalidEchonetServiceError(u8),
    /// The byte does not name a property of the expected property class.
    InvalidEchonetProperty(u8),
}

pub type Result<T> = core::result::Result<T, Error>;

} // verus!
