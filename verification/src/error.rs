//! Error types of the library.
use vstd::prelude::*;

verus! {

#[verifier::external_type_specification]
#[verifier::external_body]
pub struct ExIoError(std::io::Error);

/// Errors that can occur in this library.
#[derive(Debug)]
pub enum Error {
    /// An S101 framing error.
    S101(String),
    /// A Glow/BER encoding or decoding error.
    Glow(String),
    /// An I/O error.
    Io(std::io::Error),
}

/// Result type alias of this library.
pub type Result<T> = std::result::Result<T, Error>;

impl Error {
    /// The error is an S101 framing error whose message is `msg`.
    pub open spec fn is_s101_with(self, msg: Seq<char>) -> bool {
        self matches Error::S101(m) && m@ == msg
    }
}

} // verus!
