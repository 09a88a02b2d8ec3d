//! The failure taxonomy of a sync run.
//!
//! Only a failed checkpoint read is fatal: it aborts the run before any
//! table is touched.  Every other failure is recorded in the run's error
//! list and the run continues with the remaining records and tables.

use vstd::prelude::*;
use crate::tables::TableId;

verus! {

/// The last-sync checkpoint could not be read, so no safe pull filter bound
/// exists; the whole run is aborted before any table is touched.
#[derive(Clone, Copy, PartialEq, Eq, Structural, Debug)]
pub struct CheckpointError;

/// Why a single pull or push step failed.
#[derive(Clone, Copy, PartialEq, Eq, Structural, Debug)]
pub enum ErrorKind {
    /// Transient failure reaching the remote backend; the affected records
    /// stay dirty and are retried on the next run.
    Network,
    /// A pulled record is missing a required field or has an unexpected
    /// shape; the record is skipped.
    Validation,
    /// A local store operation failed; the affected step is abandoned.
    Persistence,
}

/// One recorded, non-fatal failure: which table, what went wrong, and the
/// affected record where one is known.
#[derive(Clone, Copy, PartialEq, Eq, Debug)]
pub struct SyncError {
    pub table: TableId,
    pub kind: ErrorKind,
    pub record_id: Option<u128>,
}

} // verus!
