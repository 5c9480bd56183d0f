//! The ways in which reading a record can fail.
use vstd::prelude::*;

verus! {

/// Why no record could be had.
#[derive(Clone, Copy, Debug, PartialEq, Eq, Structural)]
pub enum RecordError {
    /// The source could not be opened or read, for a reason other than its
    /// absence.
    IoUnavailable,
    /// The process has no directory: it ended, or never was.
    ProcessNotFound,
    /// The record has fewer fields than every kernel writes.
    MalformedRecord,
    /// The record ends before the last field of the schema.
    TruncatedRecord,
    /// The state field is none of the known codes.
    UnknownState,
    /// A numeric field is no decimal integer, or does not fit its width.
    InvalidNumber,
    /// The pattern that tells process directories apart did not compile.
    InvalidPattern,
}

/// Why a read gave no text.
#[derive(Clone, Copy, Debug, PartialEq, Eq, Structural)]
pub enum ReadFailure {
    /// What was to be read does not exist.
    NotFound,
    /// Any other failure to open or read.
    Unavailable,
}

} // verus!
