//! Everything that needs a calendar: reading and writing times with a
//! pattern, placing a time of day on a date, and finding the weekday and
//! hour of an absolute time. The calendar itself is chrono's; each function
//! here makes one call into it and says what is known of the answer.

use chrono::{DateTime, Datelike, FixedOffset, Local, NaiveDate, NaiveTime, TimeZone, Timelike};
use std::fmt::Write;
use vstd::prelude::*;

verus! {

/// The absolute time, in seconds since the epoch, that chrono reads from
/// `text` under `pattern` in the zone `offset` seconds east of UTC; `None`
/// where it reads none.
pub uninterp spec fn parsed_timestamp(offset: i32, text: Seq<char>, pattern: Seq<char>) -> Option<
    i64,
>;

/// The text that chrono writes for the time of day under `pattern`; `None`
/// where the three numbers are no time of day or the pattern cannot be
/// applied to one.
pub uninterp spec fn rendered_time_of_day(
    hour: u8,
    minute: u8,
    second: u8,
    pattern: Seq<char>,
) -> Option<Seq<char>>;

/// The text that chrono writes for the absolute time `stamp`, seen in the
/// zone `offset` seconds east of UTC, under `pattern`; `None` where the zone
/// or the time is out of range or the pattern cannot be applied.
pub uninterp spec fn rendered_timestamp(offset: i32, stamp: i64, pattern: Seq<char>) -> Option<
    Seq<char>,
>;

/// The absolute time of the given wall-clock reading on the given date in
/// the zone `offset` seconds east of UTC; `None` where the date, the time of
/// day or the zone does not exist.
pub uninterp spec fn dated_timestamp(
    offset: i32,
    year: i32,
    month: u32,
    day: u32,
    hour: u8,
    minute: u8,
    second: u8,
) -> Option<i64>;

/// The weekday (Monday is 0) and the hour of the day, both in UTC, of the
/// absolute time `stamp`; `None` where chrono's calendar does not reach.
pub uninterp spec fn calendar_slot(stamp: i64) -> Option<(u8, u8)>;

/// The times within eight trillion seconds of the epoch. All of them lie
/// within the years that chrono can represent.
pub open spec fn within_reach(stamp: i64) -> bool {
    -8_000_000_000_000 <= stamp <= 8_000_000_000_000
}

/// The weekday and the hour of the day, both in UTC, of every time that
/// the calendar reaches, by plain division; nothing for the others.
pub open spec fn slot_at(stamp: i64) -> Option<(u8, u8)> {
    if within_reach(stamp) || calendar_slot(stamp) is Some {
        Some((weekday_of(stamp) as u8, hour_of(stamp) as u8))
    } else {
        None
    }
}

/// The weekday of `stamp` in UTC, Monday being 0: the epoch fell on a
/// Thursday.
pub open spec fn weekday_of(stamp: i64) -> int {
    (stamp as int / 86_400 + 3) % 7
}

/// The hour of the day of `stamp` in UTC.
pub open spec fn hour_of(stamp: i64) -> int {
    (stamp as int % 86_400) / 3_600
}

/// `TimeZone::datetime_from_str` on a `FixedOffset`, followed by
/// `DateTime::timestamp`: the result depends on the three arguments alone
/// and is known only under the name `parsed_timestamp`. A zone that
/// `FixedOffset::east_opt` refuses gives `None`.
#[allow(deprecated)]
#[verifier::external_body]
pub(crate) fn parse_timestamp(offset: i32, text: &str, pattern: &str) -> (r: Option<i64>)
    ensures
        r == parsed_timestamp(offset, text@, pattern@),
{
    let zone = FixedOffset::east_opt(offset)?;
    zone.datetime_from_str(text, pattern).ok().map(|d| d.timestamp())
}

/// `NaiveTime::from_hms_opt` and `NaiveTime::format`, written into a string:
/// the text depends on the arguments alone and is known only under the name
/// `rendered_time_of_day`. A pattern that chrono cannot apply gives `None`.
#[verifier::external_body]
pub(crate) fn render_time_of_day(hour: u8, minute: u8, second: u8, pattern: &str) -> (r: Option<
    String,
>)
    ensures
        match r {
            Some(s) => rendered_time_of_day(hour, minute, second, pattern@) == Some(s@),
            None => rendered_time_of_day(hour, minute, second, pattern@) is None,
        },
{
    let time = NaiveTime::from_hms_opt(hour as u32, minute as u32, second as u32)?;
    let mut out = String::new();
    write!(out, "{}", time.format(pattern)).ok()?;
    Some(out)
}

/// `TimeZone::timestamp_opt` on a `FixedOffset` and `DateTime::format`,
/// written into a string: the text depends on the arguments alone and is
/// known only under the name `rendered_timestamp`.
#[verifier::external_body]
pub(crate) fn render_timestamp(offset: i32, stamp: i64, pattern: &str) -> (r: Option<String>)
    ensures
        match r {
            Some(s) => rendered_timestamp(offset, stamp, pattern@) == Some(s@),
            None => rendered_timestamp(offset, stamp, pattern@) is None,
        },
{
    let zone = FixedOffset::east_opt(offset)?;
    let time = zone.timestamp_opt(stamp, 0).single()?;
    let mut out = String::new();
    write!(out, "{}", time.format(pattern)).ok()?;
    Some(out)
}

/// `Local::today` and `Date::and_hms_opt`: the absolute time of the given
/// wall-clock reading on the current day in the machine's zone. The answer
/// changes with the clock and the zone, so nothing is claimed of it; `None`
/// where the reading is no time of day, or does not exist on that day. On
/// a machine whose clock stands before 1970, or whose zone data cannot be
/// used, chrono stops the program here; no caller can rule that out.
#[allow(deprecated)]
#[verifier::external_body]
pub(crate) fn today_at(hour: u8, minute: u8, second: u8) -> Option<i64> {
    Local::today().and_hms_opt(hour as u32, minute as u32, second as u32).map(|d| d.timestamp())
}

/// `TimeZone::from_local_date` on a `FixedOffset`, then `and_time` and
/// `DateTime::timestamp`: the result depends on the arguments alone and is
/// known only under the name `dated_timestamp`.
#[allow(deprecated)]
#[verifier::external_body]
pub(crate) fn timestamp_on(
    offset: i32,
    year: i32,
    month: u32,
    day: u32,
    hour: u8,
    minute: u8,
    second: u8,
) -> (r: Option<i64>)
    ensures
        r == dated_timestamp(offset, year, month, day, hour, minute, second),
{
    let zone = FixedOffset::east_opt(offset)?;
    let date = NaiveDate::from_ymd_opt(year, month, day)?;
    let time = NaiveTime::from_hms_opt(hour as u32, minute as u32, second as u32)?;
    zone.from_local_date(&date).and_time(time).single().map(|d| d.timestamp())
}

/// `DateTime::from_timestamp`, then `Datelike::weekday` with
/// `Weekday::num_days_from_monday`, and `Timelike::hour`. Where chrono has an
/// answer it is the weekday and hour that plain division gives; it has one
/// for every time within eight trillion seconds of the epoch, which is
/// inside the years it can represent.
#[verifier::external_body]
pub(crate) fn weekday_hour(stamp: i64) -> (r: Option<(u8, u8)>)
    ensures
        r == calendar_slot(stamp),
        r == slot_at(stamp),
{
    DateTime::from_timestamp(stamp, 0).map(
        |d| (d.weekday().num_days_from_monday() as u8, d.hour() as u8),
    )
}

} // verus!
