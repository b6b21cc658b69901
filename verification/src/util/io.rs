//! The I/O errors that the library inspects or produces.
use vstd::prelude::*;

use std::io::{Error, ErrorKind};

verus! {

#[verifier::external_type_specification]
#[verifier::external_body]
pub struct ExIoError(Error);

/// The kinds of I/O error that the library tells apart.
#[derive(Debug, Clone, Copy, PartialEq, Eq, Structural)]
pub enum IoErrorKind {
    AlreadyExists,
    NotFound,
    InvalidInput,
    /// Any other kind.
    Other,
}

/// The kind of an I/O error.
pub uninterp spec fn io_error_kind(error: Error) -> IoErrorKind;

/// The kind of an I/O error.
///
/// Trusted: calls `io::Error::kind` and tells the `ErrorKind` variants that
/// the library distinguishes apart; the answer is named `io_error_kind` of
/// the error.
#[verifier::external_body]
fn kind_of(error: &Error) -> (kind: IoErrorKind)
    ensures
        kind == io_error_kind(*error),
{
    match error.kind() {
        ErrorKind::AlreadyExists => IoErrorKind::AlreadyExists,
        ErrorKind::NotFound => IoErrorKind::NotFound,
        ErrorKind::InvalidInput => IoErrorKind::InvalidInput,
        _ => IoErrorKind::Other,
    }
}

/// The kind of an I/O error, among those the library tells apart.
pub fn error_kind(error: &Error) -> (kind: IoErrorKind)
    ensures
        kind == io_error_kind(*error),
{
    kind_of(error)
}

/// Builds the error for a Unix timestamp that the platform's system time
/// cannot represent.
///
/// Trusted: calls `io::Error::new` with `ErrorKind::InvalidInput` and a
/// message that names the timestamp; as `io::Error::new` documents, the
/// error's kind is the one given.
#[verifier::external_body]
pub(crate) fn invalid_timestamp_error(time: i64) -> (error: Error)
    ensures
        io_error_kind(error) == IoErrorKind::InvalidInput,
{
    Error::new(
        ErrorKind::InvalidInput,
        format!("Invalid timestamp (not supported by OS): {}", time),
    )
}

} // verus!
