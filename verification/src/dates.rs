//! Calendar days, each held by its number: the first of January of the year 1
//! is day 1.

use chrono::{DateTime, Datelike, Duration, NaiveDate, Utc};
use vstd::prelude::*;

verus! {

/// The first day of the calendar, the first of January 262144 BCE.
pub const FIRST_DAY: i32 = -95_746_129;

/// The last day of the calendar, the last of December 262142.
pub const LAST_DAY: i32 = 95_745_399;

pub open spec fn in_calendar(day: int) -> bool {
    FIRST_DAY <= day <= LAST_DAY
}

/// The day of a time that is given in seconds since the beginning of 1970.
pub open spec fn day_number(seconds: int) -> int {
    seconds / 86_400 + 719_163
}

/// Whether the day of a time, and the one that lies so many days before it,
/// are in the calendar.
pub fn is_in_calendar(seconds: i64, days: i64) -> (r: bool)
    ensures
        r == (in_calendar(day_number(seconds as int)) && in_calendar(
            day_number(seconds as int) - days,
        )),
{
    let offset: i128 = if seconds >= 0 || seconds % 86_400 == 0 {
        (seconds / 86_400) as i128
    } else {
        (seconds / 86_400) as i128 - 1
    };
    let day: i128 = offset + 719_163;
    assert(day == day_number(seconds as int));
    let earlier: i128 = day - days as i128;
    FIRST_DAY as i128 <= day && day <= LAST_DAY as i128 && FIRST_DAY as i128 <= earlier && earlier
        <= LAST_DAY as i128
}

/// `DateTime::from_timestamp` and `DateTime::date_naive`: the day, in UTC, of
/// a time that is given in seconds since the beginning of 1970. A day has
/// 86400 seconds.
#[verifier::external_body]
pub(crate) fn day_of_time(seconds: i64) -> (r: i32)
    requires
        in_calendar(day_number(seconds as int)),
    ensures
        r == day_number(seconds as int),
{
    DateTime::<Utc>::from_timestamp(seconds, 0).unwrap().date_naive().num_days_from_ce()
}

/// What `DateTime::to_rfc3339` prints of a time in UTC.
pub uninterp spec fn time_text(seconds: int, nanos: int) -> Seq<char>;

/// `DateTime::to_rfc3339`: the time as text, out of the seconds since the
/// beginning of 1970 and the nanoseconds of the second.
#[verifier::external_body]
pub(crate) fn write_time(seconds: i64, nanos: u32) -> (r: String)
    requires
        in_calendar(day_number(seconds as int)),
        nanos < 1_000_000_000,
    ensures
        r@ == time_text(seconds as int, nanos as int),
{
    DateTime::<Utc>::from_timestamp(seconds, nanos).unwrap().to_rfc3339()
}

/// What `NaiveDate::parse_from_str` reads with the format `%Y-%m-%d`.
pub uninterp spec fn parsed_day(s: Seq<char>) -> Option<int>;

/// `NaiveDate::parse_from_str` with the format `%Y-%m-%d`: the day that the
/// text stands for, or nothing where it is not such a text or names a day that
/// does not exist. What comes back is a day of chrono's calendar.
#[verifier::external_body]
pub(crate) fn parse_day(s: &str) -> (r: Option<i32>)
    ensures
        match r {
            Some(day) => parsed_day(s@) == Some(day as int) && in_calendar(day as int),
            None => parsed_day(s@) is None,
        },
{
    NaiveDate::parse_from_str(s, "%Y-%m-%d").ok().map(|date| date.num_days_from_ce())
}

/// What `NaiveDate::format` prints of a day with the format `%Y-%m-%d`.
pub uninterp spec fn day_text(day: int) -> Seq<char>;

/// `NaiveDate::format` with the format `%Y-%m-%d`: the day as text.
#[verifier::external_body]
pub(crate) fn write_day(day: i32) -> (r: String)
    requires
        in_calendar(day as int),
    ensures
        r@ == day_text(day as int),
{
    NaiveDate::from_num_days_from_ce_opt(day).unwrap().format("%Y-%m-%d").to_string()
}

/// `NaiveDate - Duration::days`: the day that lies so many days back. chrono
/// panics where that leads out of its calendar.
#[verifier::external_body]
pub(crate) fn days_before(day: i32, days: i64) -> (r: i32)
    requires
        in_calendar(day as int),
        in_calendar(day - days),
    ensures
        r == day - days,
{
    (NaiveDate::from_num_days_from_ce_opt(day).unwrap() - Duration::days(days)).num_days_from_ce()
}

} // verus!
