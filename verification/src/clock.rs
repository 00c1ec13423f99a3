//! The library's only contact with the clock. Operations take the current
//! time as a plain parameter; `now_unix` is how the surrounding binary
//! obtains it, read from the system clock and clamped into the supported
//! range by verified code, and `timestamp_title` derives a default note
//! title from it.

use std::time::{SystemTime, UNIX_EPOCH};

use vstd::prelude::*;

verus! {

/// One second past the last timestamp of year 9999; every timestamp the
/// library handles lies below it.
pub const MAX_TIMESTAMP: i64 = 253402300800;

/// Relies on std::time::SystemTime: whole seconds since the Unix epoch,
/// zero when the clock reads before it. Nothing more is promised of a
/// clock reading.
#[verifier::external_body]
fn epoch_seconds() -> (r: u64) {
    SystemTime::now().duration_since(UNIX_EPOCH).map(|d| d.as_secs()).unwrap_or(0)
}

/// The current time as the operations take it: seconds since the Unix
/// epoch, clamped into the supported range whatever the clock reads.
pub fn now_unix() -> (r: i64)
    ensures
        0 <= r < MAX_TIMESTAMP,
{
    let secs = epoch_seconds();
    if secs >= (MAX_TIMESTAMP as u64) {
        MAX_TIMESTAMP - 1
    } else {
        secs as i64
    }
}

/// What chrono renders for a creation timestamp: `YYYYMMDD-HHMMSS`.
pub uninterp spec fn datetime_stamp_of(now: int) -> Seq<char>;

/// Relies on chrono's timestamp conversion and formatting: under the
/// supported range the conversion cannot fail, and the stamp is a function
/// of the timestamp alone.
#[verifier::external_body]
fn format_timestamp(now: i64) -> (r: String)
    requires
        0 <= now < MAX_TIMESTAMP,
    ensures
        r@ == datetime_stamp_of(now as int),
{
    let dt = chrono::DateTime::<chrono::Utc>::from_timestamp(now, 0).unwrap();
    dt.format("%Y%m%d-%H%M%S").to_string()
}

/// The default title a note created at `now` gets.
pub open spec fn default_title_of(now: int) -> Seq<char> {
    "note-"@ + datetime_stamp_of(now)
}

/// Renders the default title for an untitled note.
pub fn timestamp_title(now: i64) -> (r: String)
    requires
        0 <= now < MAX_TIMESTAMP,
    ensures
        r@ == default_title_of(now as int),
{
    let mut s = "note-".to_owned();
    let stamp = format_timestamp(now);
    s.append(stamp.as_str());
    s
}

} // verus!
