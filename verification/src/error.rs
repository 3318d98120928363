//! The errors of the tool.
use vstd::prelude::*;

verus! {

/// What can go wrong. Failures of the HTTP client and of I/O arrive here as
/// their messages; a failed HTTP request carries its numeric status code.
#[derive(Debug)]
pub enum Error {
    /// The version is not of the form `X.Y.Z`.
    InvalidVersion(String),
    /// The HTTP client failed.
    HttpClient(String),
    /// The server answered with a status that is not a success.
    HttpStatus { url: String, status: u16 },
    /// Reading or writing failed.
    Io(String),
    /// An archive's MD5 differs from the one that `md5sums.txt` lists.
    Md5Mismatch { filename: String, expected: String, actual: String },
    /// An archive's SHA-512 differs from the one stored in the sources file.
    Sha512Mismatch { filename: String },
    /// This many archives failed to download or to verify.
    VerificationFailed { count: usize },
}

} // verus!
