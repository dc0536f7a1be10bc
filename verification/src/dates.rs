//! The time model: simulated time is a count of whole seconds from the
//! start of 1970, UTC.  All date arithmetic the engine needs is plain
//! integer arithmetic on that count; only turning a count into a calendar
//! date or into display text needs the calendar itself, which the trusted
//! wrappers below delegate to chrono.

use vstd::prelude::*;

verus! {

pub const SECONDS_PER_DAY: i64 = 86_400;

/// The latest second a calendar wrapper may be asked about: the last second
/// of year 9999, comfortably inside chrono's documented range.
pub const MAX_TEXT_TIME: i64 = 253_402_300_799;

/// The latest event time the scheduler processes.  An event beyond this is
/// refused instead of risking wraparound: every delay the engine ever adds
/// to a processed time is far below the margin left to `i64::MAX`.
pub const MAX_EVENT_TIME: i64 = i64::MAX - 1_000_000_000_000;

/// The calendar date (year, month, day) of a second count, as the UTC
/// calendar gives it.  Fixed by the count alone.
pub uninterp spec fn ymd_of(ts: int) -> (int, int, int);

/// The display text of a second count, as chrono renders a UTC datetime.
/// Fixed by the count alone.
pub uninterp spec fn time_text_of(ts: int) -> Seq<char>;

/// Relies on chrono's `DateTime::from_timestamp` together with the
/// `Datelike` accessors `year`, `month` and `day`: for an in-range count
/// the conversion succeeds, months lie in 1..=12, days in 1..=31, and no
/// date before 1970 is returned for a nonnegative count.
#[verifier::external_body]
pub fn civil_from_timestamp(ts: i64) -> (r: (u32, u32, u32))
    requires
        0 <= ts <= MAX_TEXT_TIME,
    ensures
        (r.0 as int, r.1 as int, r.2 as int) == ymd_of(ts as int),
        1970 <= r.0,
        1 <= r.1 <= 12,
        1 <= r.2 <= 31,
{
    let d = chrono::DateTime::<chrono::Utc>::from_timestamp(ts, 0).unwrap();
    (chrono::Datelike::year(&d) as u32, chrono::Datelike::month(&d), chrono::Datelike::day(&d))
}

/// Relies on chrono's `DateTime::from_timestamp` and the `Display` of a
/// UTC datetime: the text is fixed by the second count alone.
#[verifier::external_body]
pub fn format_timestamp(ts: i64) -> (r: String)
    requires
        0 <= ts <= MAX_TEXT_TIME,
    ensures
        r@ == time_text_of(ts as int),
{
    chrono::DateTime::<chrono::Utc>::from_timestamp(ts, 0).unwrap().to_string()
}

} // verus!
