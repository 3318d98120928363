//! Sentinel-based verification of the SHA-512 hashes of Qt source archives.
//!
//! The tool watches Qt's upstream `md5sums.txt`: its SHA-512, the sentinel,
//! is stored in the `sources` file together with the SHA-512 of every source
//! archive. When the sentinel or the set of archives changes, every archive
//! is downloaded, checked against its MD5 and hashed again.
use vstd::prelude::*;

pub mod client;
pub mod digest;
pub mod error;
pub mod file_hashes;
pub mod hex;
pub mod modules;
pub mod plan;
pub mod sentinel;
pub mod sources;
pub mod text;
pub mod verify;

verus! {

/// What a run reports.
#[derive(Debug, PartialEq, Eq)]
pub enum CheckResult {
    /// Sources file matches upstream — nothing to do
    UpToDate,
    /// Sentinel changed — new sources content is provided
    Changed { new_sources: String },
    /// Something went wrong
    Error(String),
}

/// The exit status that reports a result: 0 when up to date, 1 when the
/// sources changed, 2 on an error.
pub fn exit_code(result: &CheckResult) -> (code: i32)
    ensures
        code == match result {
            CheckResult::UpToDate => 0i32,
            CheckResult::Changed { .. } => 1i32,
            CheckResult::Error(_) => 2i32,
        },
{
    match result {
        CheckResult::UpToDate => 0,
        CheckResult::Changed { .. } => 1,
        CheckResult::Error(_) => 2,
    }
}

} // verus!
