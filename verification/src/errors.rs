//! The failure taxonomy of a count query: how opening the segment can fail,
//! how reading it can fail, and how each failure classifies for the caller.

use vstd::prelude::*;
use vstd::string::StringExecFns;

verus! {

/// How an attempt to open the record segment ended short of a ready handle.
/// `Uninitialized` is not a fault: it signals that no compaction has ever
/// happened, and the log is then the only source of truth. The other
/// variants are data-integrity faults and abort the count. Opaque cause
/// payloads describe the underlying fault for the caller.
#[derive(Debug, PartialEq, Eq)]
pub enum CreationFailure {
    Uninitialized,
    OpenFailure(String),
    MalformedFileSet,
    MissingCommittedRecord(String),
}

/// A failed point read against the segment: an existence check or the
/// committed-count read. The cause is opaque to this library.
#[derive(Debug, PartialEq, Eq)]
pub struct ReadFailure {
    pub cause: String,
}

/// A count query fails either while acquiring the segment handle or while
/// reading from it; the classification of the underlying fault is kept.
#[derive(Debug, PartialEq, Eq)]
pub enum CountRecordsError {
    RecordSegmentCreateError(CreationFailure),
    RecordSegmentReadError(ReadFailure),
}

/// The coarse status a caller maps a failure to.
#[derive(Clone, Copy, Debug, PartialEq, Eq, Structural)]
pub enum ErrorCode {
    Internal,
    InvalidArgument,
    NotFound,
    FailedPrecondition,
}

/// The status code of one creation failure.
pub open spec fn creation_failure_code(f: CreationFailure) -> ErrorCode {
    match f {
        CreationFailure::Uninitialized => ErrorCode::FailedPrecondition,
        CreationFailure::OpenFailure(_) => ErrorCode::Internal,
        CreationFailure::MalformedFileSet => ErrorCode::InvalidArgument,
        CreationFailure::MissingCommittedRecord(_) => ErrorCode::NotFound,
    }
}

/// The status code of one count error: creation failures keep their own
/// classification, and every read failure is an internal fault.
pub open spec fn error_code(e: CountRecordsError) -> ErrorCode {
    match e {
        CountRecordsError::RecordSegmentCreateError(f) => creation_failure_code(f),
        CountRecordsError::RecordSegmentReadError(_) => ErrorCode::Internal,
    }
}

impl CreationFailure {
    /// An equal copy, so a failure can be surfaced unchanged while the
    /// input that carried it stays borrowed.
    pub fn duplicate(&self) -> (r: Self)
        ensures
            r == *self,
    {
        match self {
            CreationFailure::Uninitialized => CreationFailure::Uninitialized,
            CreationFailure::OpenFailure(cause) => CreationFailure::OpenFailure(cause.clone()),
            CreationFailure::MalformedFileSet => CreationFailure::MalformedFileSet,
            CreationFailure::MissingCommittedRecord(id) => CreationFailure::MissingCommittedRecord(
                id.clone(),
            ),
        }
    }
}

impl ReadFailure {
    /// An equal copy, so a failure can be surfaced unchanged while the
    /// input that carried it stays borrowed.
    pub fn duplicate(&self) -> (r: Self)
        ensures
            r == *self,
    {
        ReadFailure { cause: self.cause.clone() }
    }
}

impl CountRecordsError {
    /// A short description of the failure, as a caller would log it. The
    /// type carries no `Display` impl; callers take this text instead.
    pub fn message(&self) -> (m: String)
        ensures
            (*self matches CountRecordsError::RecordSegmentCreateError(_)) ==> m@
                == "Error creating record segment reader"@,
            (*self matches CountRecordsError::RecordSegmentReadError(_)) ==> m@
                == "Error reading record segment"@,
    {
        match self {
            CountRecordsError::RecordSegmentCreateError(_) => String::from_str(
                "Error creating record segment reader",
            ),
            CountRecordsError::RecordSegmentReadError(_) => String::from_str(
                "Error reading record segment",
            ),
        }
    }

    /// The caller-facing classification of this error.
    pub fn code(&self) -> (c: ErrorCode)
        ensures
            c == error_code(*self),
    {
        match self {
            CountRecordsError::RecordSegmentCreateError(f) => match f {
                CreationFailure::Uninitialized => ErrorCode::FailedPrecondition,
                CreationFailure::OpenFailure(_) => ErrorCode::Internal,
                CreationFailure::MalformedFileSet => ErrorCode::InvalidArgument,
                CreationFailure::MissingCommittedRecord(_) => ErrorCode::NotFound,
            },
            CountRecordsError::RecordSegmentReadError(_) => ErrorCode::Internal,
        }
    }
}

} // verus!
