//! The syncable record: business-column values plus the four sync-control
//! fields that drive reconciliation.

use vstd::prelude::*;
use crate::timestamp::{wf_time, MAX_TIMESTAMP};

verus! {

/// Sentinel value of `remote_updated_at` for a record that has never been
/// synchronized; strictly less than every real timestamp.
pub const NEVER_SYNCED: u64 = 0;

/// One row of a syncable table.  The business columns are carried as opaque
/// positional values (in the order given by the table's descriptor); the
/// engine never interprets them, since conflict resolution is whole-record.
pub struct Record {
    pub id: u128,
    pub columns: Vec<Option<String>>,
    pub created_at: u64,
    pub local_updated_at: u64,
    pub remote_updated_at: u64,
    pub is_deleted: bool,
}

/// Mathematical model of a record: the same fields, with the column vector
/// abstracted to a sequence.
pub ghost struct RecordView {
    pub id: u128,
    pub columns: Seq<Option<String>>,
    pub created_at: u64,
    pub local_updated_at: u64,
    pub remote_updated_at: u64,
    pub is_deleted: bool,
}

impl View for Record {
    type V = RecordView;

    open spec fn view(&self) -> RecordView {
        RecordView {
            id: self.id,
            columns: self.columns@,
            created_at: self.created_at,
            local_updated_at: self.local_updated_at,
            remote_updated_at: self.remote_updated_at,
            is_deleted: self.is_deleted,
        }
    }
}

impl RecordView {
    /// A well-formed record carries real timestamps, is never known to the
    /// remote beyond its own latest local change, and keeps a tombstone
    /// pending (dirty) until the remote delete is confirmed.
    pub open spec fn wf(self) -> bool {
        &&& wf_time(self.created_at)
        &&& wf_time(self.local_updated_at)
        &&& self.remote_updated_at <= self.local_updated_at
        &&& self.remote_updated_at <= MAX_TIMESTAMP
        &&& (self.is_deleted ==> self.dirty())
    }

    /// Push-eligible: the latest local change has not been confirmed by the
    /// remote side.
    pub open spec fn dirty(self) -> bool {
        self.local_updated_at > self.remote_updated_at
    }

    /// Fully synchronized.
    pub open spec fn clean(self) -> bool {
        self.local_updated_at == self.remote_updated_at
    }

    /// The record after a confirmed push: the remote now holds the latest
    /// local change.
    pub open spec fn marked_clean(self) -> RecordView {
        RecordView { remote_updated_at: self.local_updated_at, ..self }
    }
}

impl Record {
    /// Whether this record is push-eligible.
    pub fn is_dirty(&self) -> (r: bool)
        ensures
            r == self@.dirty(),
    {
        self.local_updated_at > self.remote_updated_at
    }

    /// A locally authored record: never synchronized, last changed at its
    /// creation instant.
    pub fn new_local(id: u128, columns: Vec<Option<String>>, now: u64) -> (r: Record)
        requires
            wf_time(now),
        ensures
            r@ == local_record(id, columns@, now),
            r@.wf(),
            r@.dirty(),
    {
        Record {
            id,
            columns,
            created_at: now,
            local_updated_at: now,
            remote_updated_at: NEVER_SYNCED,
            is_deleted: false,
        }
    }
}

/// Model of a record created by a local edit at instant `now`.
pub open spec fn local_record(id: u128, columns: Seq<Option<String>>, now: u64) -> RecordView {
    RecordView {
        id,
        columns,
        created_at: now,
        local_updated_at: now,
        remote_updated_at: NEVER_SYNCED,
        is_deleted: false,
    }
}

} // verus!
