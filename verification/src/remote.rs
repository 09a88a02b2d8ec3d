//! Records as the remote backend reports them, and their validation.
//!
//! A pulled record arrives as a raw row whose fields may be missing or
//! malformed; nothing remote-supplied is trusted.  Validation either
//! produces a well-formed remote record with decoded timestamps or rejects
//! the row, so a malformed payload can never crash the engine.

use vstd::prelude::*;
use crate::timestamp::{parse_timestamp, rfc3339_millis, wf_time, MAX_TIMESTAMP};

verus! {

/// A pulled record exactly as converted from the transport representation:
/// every remote-supplied field still optional, timestamps still encoded.
pub struct RemoteRow {
    pub id: Option<u128>,
    pub created_at: Option<String>,
    pub updated_at: Option<String>,
    pub is_deleted: bool,
    pub columns: Vec<Option<String>>,
}

/// Mathematical model of a raw row.
pub ghost struct RemoteRowView {
    pub id: Option<u128>,
    pub created_at: Option<String>,
    pub updated_at: Option<String>,
    pub is_deleted: bool,
    pub columns: Seq<Option<String>>,
}

impl View for RemoteRow {
    type V = RemoteRowView;

    open spec fn view(&self) -> RemoteRowView {
        RemoteRowView {
            id: self.id,
            created_at: self.created_at,
            updated_at: self.updated_at,
            is_deleted: self.is_deleted,
            columns: self.columns@,
        }
    }
}

/// A validated remote record: identified, timestamped, ready for conflict
/// resolution.
pub struct RemoteRecord {
    pub id: u128,
    pub created_at: u64,
    pub updated_at: u64,
    pub is_deleted: bool,
    pub columns: Vec<Option<String>>,
}

/// Mathematical model of a validated remote record.
pub ghost struct RemoteRecordView {
    pub id: u128,
    pub created_at: u64,
    pub updated_at: u64,
    pub is_deleted: bool,
    pub columns: Seq<Option<String>>,
}

impl View for RemoteRecord {
    type V = RemoteRecordView;

    open spec fn view(&self) -> RemoteRecordView {
        RemoteRecordView {
            id: self.id,
            created_at: self.created_at,
            updated_at: self.updated_at,
            is_deleted: self.is_deleted,
            columns: self.columns@,
        }
    }
}

impl RemoteRecordView {
    pub open spec fn wf(self) -> bool {
        wf_time(self.created_at) && wf_time(self.updated_at)
    }
}

/// The timestamp an encoded field denotes, if it is present, valid, and an
/// instant the engine accepts.
pub open spec fn decoded_time(s: Option<String>) -> Option<u64> {
    match s {
        None => None,
        Some(enc) => match rfc3339_millis(enc@) {
            Some(m) => if 0 < m <= MAX_TIMESTAMP as i64 {
                Some(m as u64)
            } else {
                None
            },
            None => None,
        },
    }
}

/// What validation accepts: a row with an id and a valid update time.  The
/// creation time may be absent, in which case the update time stands in for
/// it; if present it must be valid.
pub open spec fn validate_spec(row: RemoteRowView) -> Option<RemoteRecordView> {
    match row.id {
        None => None,
        Some(id) => match decoded_time(row.updated_at) {
            None => None,
            Some(updated) => match row.created_at {
                None => Some(
                    RemoteRecordView {
                        id,
                        created_at: updated,
                        updated_at: updated,
                        is_deleted: row.is_deleted,
                        columns: row.columns,
                    },
                ),
                Some(_) => match decoded_time(row.created_at) {
                    None => None,
                    Some(created) => Some(
                        RemoteRecordView {
                            id,
                            created_at: created,
                            updated_at: updated,
                            is_deleted: row.is_deleted,
                            columns: row.columns,
                        },
                    ),
                },
            },
        },
    }
}

/// Validates one pulled row.  Succeeds if and only if the row carries an id
/// and decodable timestamps; the result is then well-formed.
pub fn validate(row: RemoteRow) -> (r: Option<RemoteRecord>)
    ensures
        match r {
            Some(rec) => validate_spec(row@) == Some(rec@) && rec@.wf(),
            None => validate_spec(row@) is None,
        },
{
    let RemoteRow { id, created_at, updated_at, is_deleted, columns } = row;
    let id = match id {
        Some(id) => id,
        None => {
            return None;
        },
    };
    let updated = match &updated_at {
        Some(enc) => match parse_timestamp(enc.as_str()) {
            Some(t) => t,
            None => {
                return None;
            },
        },
        None => {
            return None;
        },
    };
    let created = match &created_at {
        None => updated,
        Some(enc) => match parse_timestamp(enc.as_str()) {
            Some(t) => t,
            None => {
                return None;
            },
        },
    };
    Some(RemoteRecord { id, created_at: created, updated_at: updated, is_deleted, columns })
}

} // verus!
