//! When a known remote file is stale and must be re-extracted.

use vstd::prelude::*;

verus! {

/// The instant, in seconds since the Unix epoch, that an RFC 3339 timestamp
/// string denotes, or `None` when the string is not a valid RFC 3339
/// date-and-time. The remote index stores `extracted_at` in this format.
pub uninterp spec fn rfc3339_epoch_seconds(s: Seq<char>) -> Option<i64>;

/// Relies on chrono's `DateTime::parse_from_rfc3339` and `timestamp`: the
/// parsed instant is a function of the characters alone.
#[verifier::external_body]
pub(crate) fn parse_rfc3339_epoch_seconds(s: &str) -> (r: Option<i64>)
    ensures
        r == rfc3339_epoch_seconds(s@),
{
    match chrono::DateTime::parse_from_rfc3339(s) {
        Ok(dt) => Some(dt.timestamp()),
        Err(_) => None,
    }
}

/// A remote file record is stale when the local file was modified more than
/// `threshold` seconds after the content was last extracted; only then is it
/// re-extracted by an update pass.
pub open spec fn spec_is_stale(mtime: int, extracted: int, threshold: int) -> bool {
    mtime - extracted > threshold
}

/// Decide whether a file must be re-extracted, from its local modification
/// time, the remote record's extraction time (both in seconds), and the
/// staleness threshold.
pub fn is_stale(mtime_secs: i64, extracted_secs: i64, threshold_secs: i64) -> (r: bool)
    ensures
        r == spec_is_stale(mtime_secs as int, extracted_secs as int, threshold_secs as int),
{
    (mtime_secs as i128) - (extracted_secs as i128) > (threshold_secs as i128)
}

/// A file with both times known is re-extracted only when stale; a file
/// whose modification time is unavailable, or whose extraction time cannot
/// be read, is re-extracted to be safe.
pub open spec fn spec_needs_reextract(
    mtime: Option<i64>,
    extracted: Option<i64>,
    threshold: int,
) -> bool {
    match (mtime, extracted) {
        (Some(m), Some(x)) => spec_is_stale(m as int, x as int, threshold),
        _ => true,
    }
}

/// Decide whether a known remote file is re-extracted, from already-parsed
/// times: only when its content changed after the last extraction by more
/// than the threshold, or when either time is unknown.
pub fn needs_reextract(
    mtime_secs: Option<i64>,
    extracted_secs: Option<i64>,
    threshold_secs: i64,
) -> (r: bool)
    ensures
        r == spec_needs_reextract(mtime_secs, extracted_secs, threshold_secs as int),
{
    match (mtime_secs, extracted_secs) {
        (Some(m), Some(x)) => is_stale(m, x, threshold_secs),
        _ => true,
    }
}

/// A known remote file is current — left untouched by an update pass — when
/// its local modification time lies within the threshold of its recorded
/// `extracted_at` instant.
pub open spec fn spec_file_current(
    mtime: Option<i64>,
    extracted_at: Seq<char>,
    threshold: int,
) -> bool {
    !spec_needs_reextract(mtime, rfc3339_epoch_seconds(extracted_at), threshold)
}

/// Decide whether a known remote file is current, from its local
/// modification time and the remote record's `extracted_at` string.
pub fn file_current(mtime_secs: Option<i64>, extracted_at: &String, threshold_secs: i64) -> (r:
    bool)
    ensures
        r == spec_file_current(mtime_secs, extracted_at@, threshold_secs as int),
{
    let extracted = parse_rfc3339_epoch_seconds(extracted_at.as_str());
    !needs_reextract(mtime_secs, extracted, threshold_secs)
}

} // verus!
