//! Instants as text, in the form `2020/01/01 10:00`.

use vstd::prelude::*;
use chrono::{DateTime, NaiveDateTime};

verus! {

/// The instant that chrono reads from a text in the form `%Y/%m/%d %H:%M`,
/// in seconds since the Unix epoch; `None` where chrono rejects the text.
pub uninterp spec fn parsed_ymdhm(text: Seq<char>) -> Option<i64>;

/// The text that chrono writes for an instant in the form `%Y/%m/%d %H:%M`;
/// `None` where the instant is outside the dates that chrono can hold.
pub uninterp spec fn formatted_ymdhm(instant: i64) -> Option<Seq<char>>;

/// Reads a date and time with `NaiveDateTime::parse_from_str` and the
/// format `%Y/%m/%d %H:%M`, and takes the seconds since the Unix epoch of
/// what was read with `DateTime::timestamp`. Trusted of it: the result
/// depends on the text alone.
#[verifier::external_body]
fn parse_ymdhm(date: &str) -> (instant: Option<i64>)
    ensures
        instant == parsed_ymdhm(date@),
{
    match NaiveDateTime::parse_from_str(date, "%Y/%m/%d %H:%M") {
        Ok(parsed) => Some(parsed.and_utc().timestamp()),
        Err(_) => None,
    }
}

/// Takes the date and time at `instant` seconds since the Unix epoch with
/// `DateTime::from_timestamp`, and writes it with `NaiveDateTime::format`
/// and the format `%Y/%m/%d %H:%M`. Trusted of it: the result depends on
/// the instant alone.
#[verifier::external_body]
fn format_ymdhm(instant: i64) -> (text: Option<String>)
    ensures
        text is Some <==> formatted_ymdhm(instant) is Some,
        text matches Some(written) ==> Some(written@) == formatted_ymdhm(instant),
{
    match DateTime::from_timestamp(instant, 0) {
        Some(date) => Some(date.naive_utc().format("%Y/%m/%d %H:%M").to_string()),
        None => None,
    }
}

/// The instant that `date` names. `date` has to be a date and time in the
/// form `2020/01/01 10:00`.
pub fn to_naive_datetime(date: &str) -> (instant: i64)
    requires
        parsed_ymdhm(date@) is Some,
    ensures
        Some(instant) == parsed_ymdhm(date@),
{
    match parse_ymdhm(date) {
        Some(instant) => instant,
        None => unreached(),
    }
}

/// The instant that `date` names, or `None` where `date` is no date and
/// time in the form `2020/01/01 10:00`.
pub fn try_to_naive_datetime(date: &str) -> (instant: Option<i64>)
    ensures
        instant == parsed_ymdhm(date@),
{
    match parse_ymdhm(date) {
        Some(_) => Some(to_naive_datetime(date)),
        None => None,
    }
}

/// The instant as text, in the form `2020/01/01 10:00`. The instant has to
/// be one that chrono can hold.
pub fn to_ymdhm_str(date: &i64) -> (text: String)
    requires
        formatted_ymdhm(*date) is Some,
    ensures
        Some(text@) == formatted_ymdhm(*date),
{
    match format_ymdhm(*date) {
        Some(text) => text,
        None => unreached(),
    }
}

/// The instant as text, in the form `2020/01/01 10:00`, or `None` where
/// the instant is outside the dates that chrono can hold.
pub fn try_to_ymdhm_str(date: &i64) -> (text: Option<String>)
    ensures
        text is Some <==> formatted_ymdhm(*date) is Some,
        text matches Some(written) ==> Some(written@) == formatted_ymdhm(*date),
{
    match format_ymdhm(*date) {
        Some(_) => Some(to_ymdhm_str(date)),
        None => None,
    }
}

} // verus!
