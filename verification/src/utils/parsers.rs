//! Dates and timestamps with plain messages for errors.
//!
//! The same conversions as in [`crate::commons::date`], for callers that
//! want a message rather than an error value.

use vstd::prelude::*;
use crate::commons::date::calendar_date;
use crate::commons::date::datetime_to_date as split_date;
use crate::commons::date::day_end;
use crate::commons::date::first_space;
use crate::commons::date::format_utc;
use crate::commons::date::parse_calendar_date;
use crate::commons::date::unix_to_civil;
use crate::commons::date::utc_date;
use crate::commons::date::utc_text;
use crate::commons::date::CivilDateTime;
use crate::commons::date::DateType;
use crate::commons::date::LOCAL_OFFSET_SECONDS;

verus! {

/// Midnight in UTC at the start of a date written as year, month and day,
/// joined by hyphens.
pub fn parse_start_date(d: &str) -> (r: Result<CivilDateTime, String>)
    ensures
        match calendar_date("[year]-[month]-[day]"@, d@) {
            Some(found) => r == Ok::<CivilDateTime, String>(day_end(found, DateType::Start)),
            None => r is Err,
        },
{
    match parse_calendar_date(d, "[year]-[month]-[day]") {
        Ok((year, month, day)) => Ok(
            CivilDateTime { year, month, day, hour: 0, minute: 0, second: 0, microsecond: 0 },
        ),
        Err(reason) => Err(reason),
    }
}

/// The last microsecond in UTC of a date written as year, month and day,
/// joined by hyphens.
pub fn parse_end_date(d: &str) -> (r: Result<CivilDateTime, String>)
    ensures
        match calendar_date("[year]-[month]-[day]"@, d@) {
            Some(found) => r == Ok::<CivilDateTime, String>(day_end(found, DateType::End)),
            None => r is Err,
        },
{
    match parse_calendar_date(d, "[year]-[month]-[day]") {
        Ok((year, month, day)) => Ok(
            CivilDateTime {
                year,
                month,
                day,
                hour: 23,
                minute: 59,
                second: 59,
                microsecond: 999_999,
            },
        ),
        Err(reason) => Err(reason),
    }
}

/// The date and time of day in UTC of a Unix timestamp in seconds.
pub fn timestamp_to_datetime(timestamp: i64) -> (r: Result<CivilDateTime, String>)
    ensures
        match utc_date(timestamp) {
            Some(date) => r == Ok::<CivilDateTime, String>(
                CivilDateTime {
                    year: date.0,
                    month: date.1,
                    day: date.2,
                    hour: ((timestamp % 86400) / 3600) as u8,
                    minute: (((timestamp % 86400) % 3600) / 60) as u8,
                    second: ((timestamp % 86400) % 60) as u8,
                    microsecond: 0,
                },
            ),
            None => r is Err,
        },
{
    unix_to_civil(timestamp)
}

/// What [`timestamp_to_localdt`] owes: the text of the instant one hour
/// after `timestamp`, provided the timestamp fits a signed one and both
/// instants are supported.
pub open spec fn local_text(timestamp: u64) -> Option<Seq<char>> {
    if timestamp > i64::MAX - LOCAL_OFFSET_SECONDS || utc_date(timestamp as i64) is None {
        None
    } else {
        utc_text(
            "[year]-[month]-[day] [hour]:[minute]:[second]"@,
            (timestamp + LOCAL_OFFSET_SECONDS) as i64,
        )
    }
}

/// The local date and time of a Unix timestamp, written as
/// `year-month-day hour:minute:second`. Local time is one hour ahead of
/// UTC. A timestamp too large for a signed one is refused.
pub fn timestamp_to_localdt(timestamp: u64) -> (r: Result<String, String>)
    ensures
        match local_text(timestamp) {
            Some(text) => r matches Ok(written) && written@ == text,
            None => r is Err,
        },
        timestamp > i64::MAX ==> (r matches Err(message) && message@
            == "out of range integral type conversion attempted"@),
{
    if timestamp > 0x7FFF_FFFF_FFFF_FFFF {
        return Err("out of range integral type conversion attempted".to_owned());
    }
    let signed: i64 = timestamp as i64;
    match unix_to_civil(signed) {
        Err(reason) => {
            return Err(reason);
        },
        Ok(_) => {},
    }
    if signed > i64::MAX - LOCAL_OFFSET_SECONDS {
        return Err("local datetime out of valid range".to_owned());
    }
    format_utc(signed + LOCAL_OFFSET_SECONDS, "[year]-[month]-[day] [hour]:[minute]:[second]")
}

/// The date of a date-time text: what stands before its first space.
pub fn datetime_to_date(d: String) -> (r: Result<String, String>)
    ensures
        first_space(d@) < d@.len() ==> (r matches Ok(date) && date@ == d@.subrange(
            0,
            first_space(d@),
        )),
        first_space(d@) >= d@.len() ==> (r matches Err(message) && message@
            == "Invalid datetime format. Expected %Y-%m-%d %H:%M:%S. {}"@),
{
    match split_date(d) {
        Ok(date) => Ok(date),
        Err(_) => Err("Invalid datetime format. Expected %Y-%m-%d %H:%M:%S. {}".to_owned()),
    }
}

} // verus!
