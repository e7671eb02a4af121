//! Calendar days. A date is held as its day number counted from
//! 0001-01-01 (day 1) in the proleptic Gregorian calendar, which is how chrono
//! numbers a `NaiveDate`; adding or subtracting days is then integer arithmetic.

use vstd::prelude::*;
use chrono::Datelike;
use crate::text::{compare_chars, opt_view, str_compare};

verus! {

/// Day number of chrono's earliest date, January 1 of year -262143.
pub const MIN_DAY: i32 = -95746129;

/// Day number of chrono's latest date, December 31 of year 262142.
pub const MAX_DAY: i32 = 95745399;

/// The day number that chrono reads from `text` in the `%Y-%m-%d` format,
/// if it reads one.
pub uninterp spec fn spec_parse_day(text: Seq<char>) -> Option<int>;

/// The text that chrono writes for the date with day number `day`.
pub uninterp spec fn spec_format_day(day: int) -> Seq<char>;

/// What chrono reads from an RFC 3339 timestamp, if it reads one: the day
/// number of its local date, its Unix time in seconds, and the nanoseconds
/// within that second.
pub uninterp spec fn spec_parse_rfc3339(text: Seq<char>) -> Option<(int, int, int)>;

/// `NaiveDate::parse_from_str(text, "%Y-%m-%d")`, with the date converted to
/// its day number. Claimed: the result is the named result of the text, and a
/// parsed date lies in chrono's date range.
#[verifier::external_body]
pub(crate) fn parse_day(text: &str) -> (day: Option<i32>)
    ensures
        day is None <==> spec_parse_day(text@) is None,
        day matches Some(d) ==> spec_parse_day(text@) == Some(d as int),
        day matches Some(d) ==> MIN_DAY <= d <= MAX_DAY,
{
    match chrono::NaiveDate::parse_from_str(text, "%Y-%m-%d") {
        Ok(date) => Some(date.num_days_from_ce()),
        Err(_) => None,
    }
}

/// `NaiveDate::from_num_days_from_ce_opt(day)` written with its `Display`
/// impl. Claimed: there is a date exactly for the day numbers of chrono's
/// range, and its text is the named text of the day.
#[verifier::external_body]
pub(crate) fn format_day(day: i32) -> (text: Option<String>)
    ensures
        text is Some <==> MIN_DAY <= day <= MAX_DAY,
        text matches Some(t) ==> t@ == spec_format_day(day as int),
{
    match chrono::NaiveDate::from_num_days_from_ce_opt(day) {
        Some(date) => Some(date.to_string()),
        None => None,
    }
}

/// `DateTime::parse_from_rfc3339(text)`, with the result converted to the day
/// number of `date_naive()`, `timestamp()` and `timestamp_subsec_nanos()`.
/// Claimed: the result is the named result of the text, and since the format
/// has a four-digit year the date lies in chrono's date range.
#[verifier::external_body]
pub(crate) fn parse_rfc3339(text: &str) -> (parsed: Option<(i32, i64, u32)>)
    ensures
        parsed matches Some(p) ==> spec_parse_rfc3339(text@) == Some(
            (p.0 as int, p.1 as int, p.2 as int),
        ),
        parsed is None <==> spec_parse_rfc3339(text@) is None,
        parsed matches Some(p) ==> MIN_DAY <= p.0 <= MAX_DAY,
{
    match chrono::DateTime::parse_from_rfc3339(text) {
        Ok(time) => Some(
            (time.date_naive().num_days_from_ce(), time.timestamp(), time.timestamp_subsec_nanos()),
        ),
        Err(_) => None,
    }
}

/// Why a date computation did not give a date.
#[derive(Clone, Copy, Debug, PartialEq, Eq, Structural)]
pub enum DateError {
    /// The text is not a date in the expected format.
    Unparsable,
    /// The day lies outside chrono's date range.
    OutOfRange,
}

/// Text of a day known to be in range.
pub fn day_text(day: i32) -> (text: String)
    requires
        MIN_DAY <= day <= MAX_DAY,
    ensures
        text@ == spec_format_day(day as int),
{
    match format_day(day) {
        Some(text) => text,
        None => {
            proof {
                assert(false);
            }
            String::new()
        },
    }
}

/// The local calendar day of an RFC 3339 timestamp, written `YYYY-MM-DD`.
pub fn day_from_timestamp(timestamp: &str) -> (day: Result<String, DateError>)
    ensures
        day is Err <==> spec_parse_rfc3339(timestamp@) is None,
        day matches Err(e) ==> e == DateError::Unparsable,
        day matches Ok(text) ==> text@ == spec_format_day(spec_parse_rfc3339(timestamp@).unwrap().0),
{
    match parse_rfc3339(timestamp) {
        Some((day, _, _)) => Ok(day_text(day)),
        None => Err(DateError::Unparsable),
    }
}

/// A parsed day number as a mathematical integer.
pub open spec fn day_int(day: Option<i32>) -> Option<int> {
    match day {
        Some(d) => Some(d as int),
        None => None,
    }
}

/// Whether a repository whose creation day is written `created` existed on
/// the day `as_of`: without a readable creation day it counts as having
/// existed; otherwise its creation day must not sort after `as_of`.
pub open spec fn spec_existed_on(created: Option<Seq<char>>, as_of: Seq<char>) -> bool {
    match created {
        None => true,
        Some(day) => compare_chars(day, as_of) <= 0,
    }
}

/// Whether a repository created on `created_at` existed on the day `as_of`,
/// judged by its creation date as chrono reads and writes it.
pub open spec fn spec_existed_as_of(created_at: Seq<char>, as_of: Seq<char>) -> bool {
    spec_existed_on(
        match spec_parse_day(created_at) {
            Some(day) => Some(spec_format_day(day)),
            None => None,
        },
        as_of,
    )
}

/// Decides whether a repository with the given creation day existed on a
/// given day.
pub fn existed_on(created: Option<&str>, as_of: &str) -> (existed: bool)
    ensures
        existed == spec_existed_on(opt_view(created), as_of@),
{
    match created {
        None => true,
        Some(day) => str_compare(day, as_of) <= 0,
    }
}

/// Decides whether a repository already existed on a given day.
pub fn existed_as_of(created_at: &str, as_of: &str) -> (existed: bool)
    ensures
        existed == spec_existed_as_of(created_at@, as_of@),
{
    match parse_day(created_at) {
        None => existed_on(None, as_of),
        Some(day) => {
            let text = day_text(day);
            existed_on(Some(text.as_str()), as_of)
        },
    }
}

/// The day number `days` days before the day `day`: an error where there is
/// no day, or where the result leaves chrono's range.
pub open spec fn spec_shift_back(day: Option<int>, days: int) -> Result<int, DateError> {
    match day {
        None => Err(DateError::Unparsable),
        Some(d) => if d - days < MIN_DAY || d - days > MAX_DAY {
            Err(DateError::OutOfRange)
        } else {
            Ok(d - days)
        },
    }
}

/// Steps a day number back by `days` days (forward when `days` is negative).
pub fn shift_back(day: Option<i32>, days: i32) -> (result: Result<i32, DateError>)
    ensures
        match result {
            Ok(d) => spec_shift_back(day_int(day), days as int) == Ok::<int, DateError>(d as int),
            Err(e) => spec_shift_back(day_int(day), days as int) == Err::<int, DateError>(e),
        },
{
    match day {
        None => Err(DateError::Unparsable),
        Some(d) => {
            let target: i64 = d as i64 - days as i64;
            if target < MIN_DAY as i64 || target > MAX_DAY as i64 {
                Err(DateError::OutOfRange)
            } else {
                Ok(target as i32)
            }
        },
    }
}

/// The date `days` days before the date `as_of`, written `YYYY-MM-DD`.
pub open spec fn spec_days_before(as_of: Seq<char>, days: int) -> Result<Seq<char>, DateError> {
    match spec_shift_back(spec_parse_day(as_of), days) {
        Ok(d) => Ok(spec_format_day(d)),
        Err(e) => Err(e),
    }
}

/// Computes the date `days` days before `as_of`; an error when `as_of` is not
/// a date or the result would leave chrono's range.
pub fn days_before(as_of: &str, days: i32) -> (result: Result<String, DateError>)
    ensures
        match result {
            Ok(text) => spec_days_before(as_of@, days as int) == Ok::<Seq<char>, DateError>(text@),
            Err(e) => spec_days_before(as_of@, days as int) == Err::<Seq<char>, DateError>(e),
        },
{
    match shift_back(parse_day(as_of), days) {
        Ok(target) => Ok(day_text(target)),
        Err(e) => Err(e),
    }
}

/// Whether a creation day number lies no earlier than a week before `today`;
/// false without a day.
pub open spec fn spec_recent_day(day: Option<int>, today: int) -> bool {
    match day {
        None => false,
        Some(d) => d >= today - 7,
    }
}

/// Decides whether a creation day number lies within the week before `today`.
pub fn recent_day(day: Option<i32>, today: i32) -> (recent: bool)
    ensures
        recent == spec_recent_day(day_int(day), today as int),
{
    match day {
        None => false,
        Some(d) => d as i64 >= today as i64 - 7,
    }
}

/// Whether `created_at` parses as a date no earlier than a week before `today`.
pub open spec fn spec_created_recently(created_at: Seq<char>, today: int) -> bool {
    spec_recent_day(spec_parse_day(created_at), today)
}

/// Decides whether a repository was created within the last week.
pub fn created_recently(created_at: &str, today: i32) -> (recent: bool)
    ensures
        recent == spec_created_recently(created_at@, today as int),
{
    recent_day(parse_day(created_at), today)
}

} // verus!
