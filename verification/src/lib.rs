//! Reconciles a collection's not-yet-compacted operation log with its
//! durable record segment to produce the logical count of live records.
//!
//! The record segment itself is an external storage engine reached over I/O;
//! this library works on what that engine reports (existence checks, a cached
//! total count, and how opening the segment went), handed in as plain values,
//! and proves the reconciliation arithmetic and the log-replay semantics.

pub mod errors;
pub mod idset;
pub mod operator;
pub mod records;

pub use errors::{CountRecordsError, CreationFailure, ErrorCode, ReadFailure};
pub use idset::IdSet;
pub use operator::{
    count_from_log, reconcile_with_segment, CountRecordsInput, CountRecordsOperator,
    CountRecordsOutput, SegmentHandle, SegmentReads,
};
pub use records::{LogRecord, Operation, OperationRecord};
