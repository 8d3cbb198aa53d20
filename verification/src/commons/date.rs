//! Calendar dates and timestamps.
//!
//! Dates are parsed and timestamps converted by the `time` crate. What it
//! hands back is carried here as plain calendar fields, in UTC.

use vstd::prelude::*;
use vstd::string::StrSliceExecFns;

verus! {

/// Why a date or timestamp was refused.
#[derive(Debug, Clone, PartialEq, Eq)]
pub enum DateTimeError {
    /// The text is no calendar date; holds the text and the parser's words.
    InvalidDateFormat(String, String),
    /// The timestamp names no supported instant; holds it and the reason.
    InvalidTimestamp(i64, String),
    /// The text holds no space between a date and a time; holds the text.
    InvalidDateTimeFormat(String),
    /// A time of day is out of range.
    InvalidTimeComponent(String),
}

/// Which end of a day a date stands for.
#[derive(Debug, Clone, Copy, PartialEq, Eq, Structural)]
pub enum DateType {
    /// Its first instant, midnight.
    Start,
    /// Its last microsecond.
    End,
}

/// An instant in UTC by its calendar fields.
#[derive(Debug, Clone, Copy, PartialEq, Eq, Structural)]
pub struct CivilDateTime {
    pub year: i32,
    /// `1` for January to `12` for December.
    pub month: u8,
    /// Day of the month, from `1`.
    pub day: u8,
    pub hour: u8,
    pub minute: u8,
    pub second: u8,
    pub microsecond: u32,
}

/// Position of the first space in `text`, or its length if it holds none.
pub open spec fn first_space(text: Seq<char>) -> int
    decreases text.len(),
{
    if text.len() == 0 || text[0] == ' ' {
        0
    } else {
        1 + first_space(text.drop_first())
    }
}

/// `first_space` is within the text, marks a space unless it is the length,
/// and nothing before it is a space.
pub proof fn lemma_first_space(text: Seq<char>)
    ensures
        0 <= first_space(text) <= text.len(),
        first_space(text) < text.len() ==> text[first_space(text)] == ' ',
        forall|j: int| 0 <= j < first_space(text) ==> text[j] != ' ',
    decreases text.len(),
{
    if text.len() == 0 || text[0] == ' ' {
    } else {
        let rest = text.drop_first();
        lemma_first_space(rest);
        assert forall|j: int| 0 <= j < first_space(text) implies text[j] != ' ' by {
            if j > 0 {
                assert(text[j] == rest[j - 1]);
            }
        }
        if first_space(text) < text.len() {
            assert(text[first_space(text)] == rest[first_space(rest)]);
        }
    }
}

/// A position that holds a space, with none before it, is `first_space`.
pub proof fn lemma_first_space_is(text: Seq<char>, at: int)
    requires
        0 <= at <= text.len(),
        at < text.len() ==> text[at] == ' ',
        forall|j: int| 0 <= j < at ==> text[j] != ' ',
    ensures
        first_space(text) == at,
{
    lemma_first_space(text);
    let found = first_space(text);
    if found < at {
        assert(text[found] == ' ');
    } else if found > at {
        assert(text[at] != ' ');
    }
}

/// The date of a date-time text: what stands before its first space.
///
/// A text without a space is handed back in the error.
pub fn datetime_to_date(d: String) -> (r: Result<String, DateTimeError>)
    ensures
        first_space(d@) < d@.len() ==> (r matches Ok(date) && date@ == d@.subrange(
            0,
            first_space(d@),
        )),
        first_space(d@) >= d@.len() ==> (r matches Err(DateTimeError::InvalidDateTimeFormat(text))
            && text@ == d@),
{
    let text = d.as_str();
    let n = text.unicode_len();
    let mut i: usize = 0;
    while i < n
        invariant
            i <= n,
            n == text@.len(),
            text@ == d@,
            forall|j: int| 0 <= j < i ==> text@[j] != ' ',
        decreases n - i,
    {
        if text.get_char(i) == ' ' {
            proof {
                lemma_first_space_is(d@, i as int);
            }
            return Ok(text.substring_char(0, i).to_owned());
        }
        i = i + 1;
    }
    proof {
        lemma_first_space_is(d@, n as int);
    }
    Err(DateTimeError::InvalidDateTimeFormat(d))
}

/// The calendar date that the `time` crate reads from `text` under the
/// format description `description`: year, month from `1`, day of the
/// month. `None` where it refuses the description or the text.
pub uninterp spec fn calendar_date(description: Seq<char>, text: Seq<char>) -> Option<(i32, u8, u8)>;

/// The calendar date in UTC of the instant `timestamp` seconds after the
/// Unix epoch, as the `time` crate converts it. `None` where the instant is
/// outside the range of dates the crate supports.
pub uninterp spec fn utc_date(timestamp: i64) -> Option<(i32, u8, u8)>;

/// The text that the `time` crate writes for the instant `timestamp`
/// seconds after the Unix epoch, in UTC, under the format description
/// `description`. `None` where it refuses the instant or the description.
pub uninterp spec fn utc_text(description: Seq<char>, timestamp: i64) -> Option<Seq<char>>;

/// Calls `time::Date::parse` with the items that
/// `time::format_description::parse_borrowed` makes of `description`.
///
/// Believed, not proved: the call succeeds exactly where [`calendar_date`]
/// is defined and returns that date. A failure carries the crate's message.
#[verifier::external_body]
pub(crate) fn parse_calendar_date(text: &str, description: &str) -> (r: Result<(i32, u8, u8), String>)
    ensures
        r is Ok <==> calendar_date(description@, text@) is Some,
        r is Ok ==> Some(r->Ok_0) == calendar_date(description@, text@),
{
    let items = match time::format_description::parse_borrowed::<1>(description) {
        Ok(items) => items,
        Err(e) => return Err(e.to_string()),
    };
    match time::Date::parse(text, &items) {
        Ok(date) => Ok((date.year(), u8::from(date.month()), date.day())),
        Err(e) => Err(e.to_string()),
    }
}

/// Calls `time::OffsetDateTime::from_unix_timestamp` and reads the fields
/// of the result.
///
/// Believed, not proved: the call succeeds exactly where [`utc_date`] is
/// defined and the date is that one; the time of day is the remainder of
/// the timestamp within its day, split into hours, minutes and seconds,
/// with no fraction of a second. A failure carries the crate's message.
#[verifier::external_body]
pub(crate) fn unix_to_civil(timestamp: i64) -> (r: Result<CivilDateTime, String>)
    ensures
        r is Ok <==> utc_date(timestamp) is Some,
        r is Ok ==> ({
            let t = r->Ok_0;
            &&& Some((t.year, t.month, t.day)) == utc_date(timestamp)
            &&& t.hour == (timestamp % 86400) / 3600
            &&& t.minute == ((timestamp % 86400) % 3600) / 60
            &&& t.second == (timestamp % 86400) % 60
            &&& t.microsecond == 0
        }),
{
    match time::OffsetDateTime::from_unix_timestamp(timestamp) {
        Ok(t) => Ok(
            CivilDateTime {
                year: t.year(),
                month: u8::from(t.month()),
                day: t.day(),
                hour: t.hour(),
                minute: t.minute(),
                second: t.second(),
                microsecond: t.microsecond(),
            },
        ),
        Err(e) => Err(e.to_string()),
    }
}

/// Calls `format` on the `time::OffsetDateTime` of `timestamp`, with the
/// items that `time::format_description::parse_borrowed` makes of
/// `description`.
///
/// Believed, not proved: the call succeeds exactly where [`utc_text`] is
/// defined and returns that text. A failure carries the crate's message.
#[verifier::external_body]
pub(crate) fn format_utc(timestamp: i64, description: &str) -> (r: Result<String, String>)
    ensures
        r is Ok <==> utc_text(description@, timestamp) is Some,
        r is Ok ==> Some(r->Ok_0@) == utc_text(description@, timestamp),
{
    let items = match time::format_description::parse_borrowed::<1>(description) {
        Ok(items) => items,
        Err(e) => return Err(e.to_string()),
    };
    match time::OffsetDateTime::from_unix_timestamp(timestamp) {
        Ok(t) => t.format(&items).map_err(|e| e.to_string()),
        Err(e) => Err(e.to_string()),
    }
}

/// The instant a date stands for: midnight at its start, the last
/// microsecond before the next midnight at its end.
pub open spec fn day_end(date: (i32, u8, u8), date_type: DateType) -> CivilDateTime {
    match date_type {
        DateType::Start => CivilDateTime {
            year: date.0,
            month: date.1,
            day: date.2,
            hour: 0,
            minute: 0,
            second: 0,
            microsecond: 0,
        },
        DateType::End => CivilDateTime {
            year: date.0,
            month: date.1,
            day: date.2,
            hour: 23,
            minute: 59,
            second: 59,
            microsecond: 999_999,
        },
    }
}

/// Reads a date written as year, month and day, joined by hyphens, and
/// returns the first or the last instant of that day in UTC.
pub fn parse_date(date: &str, date_type: DateType) -> (r: Result<CivilDateTime, DateTimeError>)
    ensures
        match calendar_date("[year]-[month]-[day]"@, date@) {
            Some(found) => r == Ok::<CivilDateTime, DateTimeError>(day_end(found, date_type)),
            None => r matches Err(DateTimeError::InvalidDateFormat(text, _)) && text@ == date@,
        },
{
    match parse_calendar_date(date, "[year]-[month]-[day]") {
        Ok((year, month, day)) => {
            let at = match date_type {
                DateType::Start => CivilDateTime {
                    year,
                    month,
                    day,
                    hour: 0,
                    minute: 0,
                    second: 0,
                    microsecond: 0,
                },
                DateType::End => CivilDateTime {
                    year,
                    month,
                    day,
                    hour: 23,
                    minute: 59,
                    second: 59,
                    microsecond: 999_999,
                },
            };
            Ok(at)
        },
        Err(reason) => Err(DateTimeError::InvalidDateFormat(date.to_owned(), reason)),
    }
}

/// The date and time of day in UTC of a Unix timestamp in seconds.
pub fn timestamp_to_datetime(timestamp: i64) -> (r: Result<CivilDateTime, DateTimeError>)
    ensures
        match utc_date(timestamp) {
            Some(date) => r == Ok::<CivilDateTime, DateTimeError>(
                CivilDateTime {
                    year: date.0,
                    month: date.1,
                    day: date.2,
                    hour: ((timestamp % 86400) / 3600) as u8,
                    minute: (((timestamp % 86400) % 3600) / 60) as u8,
                    second: ((timestamp % 86400) % 60) as u8,
                    microsecond: 0,
                },
            ),
            None => r matches Err(DateTimeError::InvalidTimestamp(t, _)) && t == timestamp,
        },
{
    match unix_to_civil(timestamp) {
        Ok(at) => Ok(at),
        Err(reason) => Err(DateTimeError::InvalidTimestamp(timestamp, reason)),
    }
}

/// Seconds by which local time is ahead of UTC: one hour.
pub const LOCAL_OFFSET_SECONDS: i64 = 3600;

/// A timestamp given without a sign, read as a signed one: values past the
/// largest signed timestamp wrap round to the negative ones.
pub open spec fn as_signed(timestamp: u64) -> i64 {
    if timestamp <= i64::MAX {
        timestamp as i64
    } else {
        (timestamp - 0x1_0000_0000_0000_0000) as i64
    }
}

/// Decides [`as_signed`].
pub fn to_signed(timestamp: u64) -> (r: i64)
    ensures
        r == as_signed(timestamp),
{
    if timestamp <= 0x7FFF_FFFF_FFFF_FFFF {
        timestamp as i64
    } else {
        let above: u64 = timestamp - 0x8000_0000_0000_0000;
        (above as i64) + i64::MIN
    }
}

/// What [`timestamp_to_localdt`] owes for a signed timestamp: the text of
/// the instant one hour later, provided both the instant itself and the
/// later one are supported.
pub open spec fn local_text(timestamp: i64) -> Option<Seq<char>> {
    if utc_date(timestamp) is None || timestamp + LOCAL_OFFSET_SECONDS > i64::MAX {
        None
    } else {
        utc_text(
            "[year]-[month]-[day] [hour]:[minute]:[second]"@,
            (timestamp + LOCAL_OFFSET_SECONDS) as i64,
        )
    }
}

/// The local date and time of a Unix timestamp, written as
/// `year-month-day hour:minute:second`. Local time is one hour ahead of
/// UTC.
pub fn timestamp_to_localdt(timestamp: u64) -> (r: Result<String, DateTimeError>)
    ensures
        match local_text(as_signed(timestamp)) {
            Some(text) => r matches Ok(written) && written@ == text,
            None => r matches Err(DateTimeError::InvalidTimestamp(t, _)) && t == as_signed(
                timestamp,
            ),
        },
{
    let signed = to_signed(timestamp);
    match timestamp_to_datetime(signed) {
        Err(e) => {
            return Err(e);
        },
        Ok(_) => {},
    }
    if signed > i64::MAX - LOCAL_OFFSET_SECONDS {
        return Err(
            DateTimeError::InvalidTimestamp(signed, "local datetime out of valid range".to_owned()),
        );
    }
    match format_utc(signed + LOCAL_OFFSET_SECONDS, "[year]-[month]-[day] [hour]:[minute]:[second]") {
        Ok(written) => Ok(written),
        Err(reason) => Err(DateTimeError::InvalidTimestamp(signed, reason)),
    }
}

} // verus!
