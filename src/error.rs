use vstd::prelude::*;

verus! {

/// httparse's error, carried through unchanged.
#[verifier::external_type_specification]
#[verifier::external_body]
pub struct ExHttpError(httparse::Error);

/// std's I/O error, carried through unchanged.
#[verifier::external_type_specification]
#[verifier::external_body]
pub struct ExIoError(std::io::Error);

/// serde_json's error, carried through unchanged.
#[verifier::external_type_specification]
#[verifier::external_body]
pub struct ExJsonError(serde_json::Error);

/// What can go wrong in the server core.
#[derive(Debug)]
pub enum MioError {
    /// A socket, registration or channel failure.
    IoError(std::io::Error),
    /// The request head is malformed.
    HttpParseError(httparse::Error),
    /// A `Content-Length` value is not a decimal number that fits in `usize`.
    ParseIntError,
    /// A body could not be read as JSON.
    SerdeJsonError(serde_json::Error),
    /// Anything else, described in words.
    Error(String),
}

pub type MioResult<T> = Result<T, MioError>;

} // verus!
