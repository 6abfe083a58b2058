//! Wall-clock and timestamp parsing, through chrono.
//!
//! The expiry decision itself is verified (`auth::check_api_key`); only
//! the RFC 3339 parse and the reading of the wall clock are trusted.

use vstd::prelude::*;

verus! {

/// The epoch-millisecond instant an RFC 3339 timestamp string denotes,
/// or `None` where the string is not a strict RFC 3339 timestamp.  The
/// result depends on the characters of the string alone.
pub uninterp spec fn rfc3339_epoch_millis(s: Seq<char>) -> Option<int>;

/// Relies on chrono's `DateTime::parse_from_rfc3339` and
/// `timestamp_millis`: a strict RFC 3339 parse, deciding validity and
/// the denoted instant from the string alone.
#[verifier::external_body]
pub fn parse_rfc3339_millis(s: &str) -> (r: Option<i64>)
    ensures
        match r {
            Some(t) => rfc3339_epoch_millis(s@) == Some(t as int),
            None => rfc3339_epoch_millis(s@) is None,
        },
{
    chrono::DateTime::parse_from_rfc3339(s).ok().map(|d| d.timestamp_millis())
}

/// Relies on chrono's `Utc::now` and `timestamp_millis`: the wall clock
/// now, in epoch milliseconds.  Nothing can be promised of the value.
#[verifier::external_body]
pub fn now_epoch_millis() -> i64 {
    chrono::Utc::now().timestamp_millis()
}

} // verus!
