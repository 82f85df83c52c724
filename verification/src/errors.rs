//! Error values reported by the library.

use vstd::prelude::*;

verus! {

/// Failures that the library's own logic can report.
///
/// Operation-level failures are reported to the caller, which records
/// them as warnings and continues with the rest of the plan.
#[derive(Debug, Clone, Copy, PartialEq, Eq, Structural)]
pub enum SyncError {
    /// A compression backend refused the payload.
    CompressionFailed,
    /// The payload is not valid compressed data, or its content
    /// exceeds the decompression bound.
    DecompressionFailed,
    /// A block reference points outside the destination data.
    BlockOutOfRange,
    /// A path does not lie under the root it was expected under.
    PathNotUnderRoot,
    /// A file copy was requested without the data flag set.
    DataFlagMissing,
}

impl SyncError {
    /// A short description of the error, for logs.
    pub fn message(&self) -> (r: &'static str)
        ensures
            r@.len() > 0,
    {
        proof {
            reveal_strlit("compression failed");
            reveal_strlit("decompression failed or exceeded the size bound");
            reveal_strlit("block reference outside destination data");
            reveal_strlit("path not under the expected root");
            reveal_strlit("data flag (D) must be set for file copying");
        }
        match self {
            SyncError::CompressionFailed => "compression failed",
            SyncError::DecompressionFailed => "decompression failed or exceeded the size bound",
            SyncError::BlockOutOfRange => "block reference outside destination data",
            SyncError::PathNotUnderRoot => "path not under the expected root",
            SyncError::DataFlagMissing => "data flag (D) must be set for file copying",
        }
    }
}

} // verus!
