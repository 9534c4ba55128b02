//! The standard I/O error type, as the readers and writers report it.
use vstd::prelude::*;

verus! {

/// `std::io::Error` is carried through the library's results without being inspected.
#[verifier::external_type_specification]
#[verifier::external_body]
pub struct ExIoError(std::io::Error);

/// Calls `std::io::Error::from` on `std::io::ErrorKind::UnexpectedEof`: the error a
/// read past the end of the input reports. Nothing is claimed of the value.
#[verifier::external_body]
pub(crate) fn unexpected_eof() -> std::io::Error {
    std::io::Error::from(std::io::ErrorKind::UnexpectedEof)
}

} // verus!
