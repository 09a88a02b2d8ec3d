//! The conflict resolver: decides, for one pulled record, whether the
//! remote or the local state wins, by comparing the local record's latest
//! change time against the remote's reported update time (last-write-wins,
//! whole-record).

use vstd::prelude::*;
use crate::record::Record;
use crate::remote::RemoteRecord;

verus! {

/// The resolver's decision for one pulled record.
#[derive(Clone, Copy, PartialEq, Eq, Structural, Debug)]
pub enum Decision {
    /// Insert or overwrite with the remote payload.
    ApplyRemote,
    /// The local copy is strictly newer; leave it untouched.  This is a
    /// conflict skip, not an error.
    KeepLocal,
}

/// Decides one pulled record.  Without a local copy the remote always
/// wins; with one, the local copy wins exactly when it is strictly newer
/// than the remote's reported update time.
pub fn resolve(local: Option<&Record>, remote: &RemoteRecord) -> (d: Decision)
    ensures
        match local {
            None => d == Decision::ApplyRemote,
            Some(rec) => d == if rec@.local_updated_at > remote@.updated_at {
                Decision::KeepLocal
            } else {
                Decision::ApplyRemote
            },
        },
{
    match local {
        None => Decision::ApplyRemote,
        Some(rec) => {
            if rec.local_updated_at > remote.updated_at {
                Decision::KeepLocal
            } else {
                Decision::ApplyRemote
            }
        },
    }
}

} // verus!
