//! Timestamps and their wire encoding.
//!
//! The engine orders events with plain integer timestamps (milliseconds),
//! never by comparing encoded strings: encoded timestamps vary in precision
//! and offset formatting, so lexical comparison can misorder them.  The
//! remote backend transports timestamps as RFC 3339 strings; decoding and
//! encoding are delegated to an outside library through the two trusted
//! wrappers below.

use vstd::prelude::*;

verus! {

/// Largest timestamp the engine accepts: 9999-12-31T23:59:59.999Z in
/// milliseconds since the Unix epoch.  Comfortably inside the range the
/// outside time library can encode.
pub const MAX_TIMESTAMP: u64 = 253402300799999;

/// A real timestamp: strictly after the epoch (so strictly greater than the
/// never-synced sentinel, which is 0) and encodable.
pub open spec fn wf_time(t: u64) -> bool {
    0 < t <= MAX_TIMESTAMP
}

/// The instant, in milliseconds since the Unix epoch, that an RFC 3339
/// string denotes, or `None` if the string is not a valid RFC 3339
/// timestamp.  Defined only by the trusted wrappers below: the same string
/// always denotes the same instant.
pub uninterp spec fn rfc3339_millis(s: Seq<char>) -> Option<i64>;

/// Relies on `chrono::DateTime::parse_from_rfc3339`: parses an RFC 3339
/// string, or fails; the result depends on the characters alone.  The
/// parsed instant is converted to epoch milliseconds with
/// `chrono::DateTime::timestamp_millis`.
#[verifier::external_body]
fn decode_rfc3339(s: &str) -> (r: Option<i64>)
    ensures
        r == rfc3339_millis(s@),
{
    match chrono::DateTime::parse_from_rfc3339(s) {
        Ok(dt) => Some(dt.timestamp_millis()),
        Err(_) => None,
    }
}

/// Relies on `chrono::DateTime::from_timestamp_millis` (defined for every
/// millisecond count the engine accepts, far inside chrono's year range)
/// and `chrono::DateTime::to_rfc3339`, whose output for a year within
/// 0–9999 is a four-digit-year RFC 3339 string denoting the same instant,
/// so decoding it yields `t` again.  Outside that range chrono writes a
/// signed five-digit year, which its own RFC 3339 parser rejects, so the
/// round trip is claimed only for the instants the engine accepts.
#[verifier::external_body]
fn encode_rfc3339(t: i64) -> (r: Option<String>)
    ensures
        0 <= t <= MAX_TIMESTAMP ==> r is Some,
        0 <= t <= MAX_TIMESTAMP ==> (r matches Some(s) ==> rfc3339_millis(s@) == Some(t)),
{
    chrono::DateTime::<chrono::Utc>::from_timestamp_millis(t).map(|dt| dt.to_rfc3339())
}

/// Decodes an RFC 3339 string into an engine timestamp, rejecting instants
/// at or before the epoch and instants past [`MAX_TIMESTAMP`].
pub fn parse_timestamp(s: &str) -> (r: Option<u64>)
    ensures
        r matches Some(t) ==> wf_time(t) && rfc3339_millis(s@) == Some(t as i64),
        r is None ==> match rfc3339_millis(s@) {
            Some(m) => !(0 < m <= MAX_TIMESTAMP as i64),
            None => true,
        },
{
    match decode_rfc3339(s) {
        Some(m) => {
            if 0 < m && m <= MAX_TIMESTAMP as i64 {
                Some(m as u64)
            } else {
                None
            }
        },
        None => None,
    }
}

/// Encodes an engine timestamp as an RFC 3339 string that decodes back to
/// exactly the same instant.
pub fn format_timestamp(t: u64) -> (r: String)
    requires
        t <= MAX_TIMESTAMP,
    ensures
        rfc3339_millis(r@) == Some(t as i64),
{
    let encoded = encode_rfc3339(t as i64);
    match encoded {
        Some(s) => s,
        None => {
            // unreachable: every t <= MAX_TIMESTAMP is encodable
            proof {
                assert(false);
            }
            String::new()
        },
    }
}

} // verus!
