use vstd::prelude::*;

use crate::entry::quote_free;

verus! {

/// The instant that an RFC 3339 timestamp names, in seconds since the Unix
/// epoch, or `None` where the bytes are no such timestamp.
pub uninterp spec fn rfc3339_seconds_of(text: Seq<u8>) -> Option<i64>;

/// Relies on chrono::DateTime::parse_from_rfc3339, read through
/// `DateTime::timestamp`: the instant of a timestamp; bytes that are not UTF-8
/// name none.
#[verifier::external_body]
pub(crate) fn parse_rfc3339(text: &[u8]) -> (r: Option<i64>)
    ensures
        r == rfc3339_seconds_of(text@),
{
    let s = std::str::from_utf8(text).ok()?;
    chrono::DateTime::parse_from_rfc3339(s).ok().map(|d| d.timestamp())
}

/// Relies on chrono's `From<SystemTime> for DateTime<Utc>` (which, unlike
/// `Utc::now`, also takes clocks set before 1970): the current time, in seconds
/// since the Unix epoch and as an RFC 3339 timestamp (`DateTime::to_rfc3339`,
/// which writes digits, a sign, `-`, `:`, `T`, `.` and an offset, and so no
/// quote).
#[verifier::external_body]
pub(crate) fn utc_now() -> (r: (i64, Vec<u8>))
    ensures
        quote_free(r.1@),
{
    let now = chrono::DateTime::<chrono::Utc>::from(std::time::SystemTime::now());
    (now.timestamp(), now.to_rfc3339().into_bytes())
}

} // verus!
