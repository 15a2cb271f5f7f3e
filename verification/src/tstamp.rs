//! Timestamps of track points.
//!
//! A point's `time` child carries an RFC 3339 date-time. The library keeps
//! the instant as plain integers: seconds since the Unix epoch together
//! with the UTC offset the text carried. Reading the text is chrono's
//! work and stands behind one trusted wrapper; everything the library
//! proves about timestamps goes through the name `rfc3339_timestamp`.

use vstd::prelude::*;

verus! {

/// One parsed RFC 3339 instant: `seconds` since the Unix epoch (UTC),
/// and the offset of the local notation from UTC, in seconds.
#[derive(Clone, Copy, Debug, PartialEq, Eq, Structural)]
pub struct Timestamp {
    pub seconds: i64,
    pub offset_seconds: i32,
}

/// What chrono's RFC 3339 parser returns on a given text: `None` where the
/// text is not a valid RFC 3339 date-time, otherwise the instant it denotes.
/// The outcome depends on the characters alone.
pub uninterp spec fn rfc3339_timestamp(text: Seq<char>) -> Option<Timestamp>;

/// Relies on chrono's `DateTime::parse_from_rfc3339`, reading the result out
/// as plain integers through `DateTime::timestamp` and
/// `FixedOffset::local_minus_utc`.
#[verifier::external_body]
pub(crate) fn parse_rfc3339(text: &str) -> (r: Option<Timestamp>)
    ensures
        r == rfc3339_timestamp(text@),
{
    match chrono::DateTime::parse_from_rfc3339(text) {
        Ok(dt) => Some(Timestamp {
            seconds: dt.timestamp(),
            offset_seconds: dt.offset().local_minus_utc(),
        }),
        Err(_) => None,
    }
}

} // verus!
