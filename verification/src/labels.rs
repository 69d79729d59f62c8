//! Instants as text: RFC 3339 for configuration and reports, and the labels
//! `YYYY-MM-DD_HH:MM_UTC` that name the time bands of a results raster.
//! Formatting and parsing are chrono's; the layouts are given here.

use crate::calendar::instant_in_calendar;
use crate::types::ShadowError;
use vstd::prelude::*;

verus! {

/// The instant that `chrono::DateTime::parse_from_rfc3339` reads from `text`,
/// in microseconds since the epoch; `None` where it rejects the text.
pub uninterp spec fn rfc3339_instant(text: Seq<char>) -> Option<int>;

/// The text that `chrono::DateTime::to_rfc3339` writes for instant `t`;
/// `None` where chrono cannot represent the instant.
pub uninterp spec fn rfc3339_text(t: int) -> Option<Seq<char>>;

/// The text that chrono writes for instant `t` with the strftime format
/// `format`; `None` where chrono cannot represent the instant or does not
/// know the format.
pub uninterp spec fn formatted_instant(t: int, format: Seq<char>) -> Option<Seq<char>>;

/// `text` after `str::replace` has put `replacement` in place of every
/// `pattern`.
pub uninterp spec fn replaced_text(
    text: Seq<char>,
    pattern: Seq<char>,
    replacement: Seq<char>,
) -> Seq<char>;

/// The instant that `chrono::DateTime::parse_from_str` reads from `text`
/// with the strftime format `format`; `None` where it rejects the text.
pub uninterp spec fn zoned_instant(text: Seq<char>, format: Seq<char>) -> Option<int>;

/// The instant that `chrono::NaiveDateTime::parse_from_str` reads from
/// `text` with the strftime format `format`, taken as UTC; `None` where it
/// rejects the text.
pub uninterp spec fn naive_instant(text: Seq<char>, format: Seq<char>) -> Option<int>;

/// The label of the time band of instant `t`: date, hour and minute in the
/// layout `YYYY-MM-DD_HH:MM_UTC`.
pub open spec fn band_label_text(t: int) -> Option<Seq<char>> {
    formatted_instant(t, "%Y-%m-%d_%H:%M_UTC"@)
}

/// Wraps `chrono::DateTime::parse_from_rfc3339` and `timestamp_micros`.
/// Claimed: the result depends on the text alone.
#[verifier::external_body]
pub(crate) fn read_rfc3339(text: &str) -> (out: Option<i64>)
    ensures
        out.is_some() == rfc3339_instant(text@).is_some(),
        out matches Some(t) ==> rfc3339_instant(text@) == Some(t as int),
{
    match chrono::DateTime::parse_from_rfc3339(text) {
        Ok(d) => Some(d.timestamp_micros()),
        Err(_) => None,
    }
}

/// Wraps `chrono::DateTime::from_timestamp_micros` and `to_rfc3339`.
/// Claimed: the result depends on the instant alone, and every instant of
/// the calendar has a text.
#[verifier::external_body]
pub(crate) fn write_rfc3339(t: i64) -> (out: Option<String>)
    ensures
        out.is_some() == rfc3339_text(t as int).is_some(),
        out matches Some(s) ==> rfc3339_text(t as int) == Some(s@),
        instant_in_calendar(t as int) ==> out.is_some(),
{
    match chrono::DateTime::from_timestamp_micros(t) {
        Some(d) => Some(d.to_rfc3339()),
        None => None,
    }
}

/// Wraps `chrono::DateTime::from_timestamp_micros`, `format` and
/// `DelayedFormat::write_to`.  Claimed: the result depends on the instant
/// and the format alone.
#[verifier::external_body]
pub(crate) fn write_instant(t: i64, format: &str) -> (out: Option<String>)
    ensures
        out.is_some() == formatted_instant(t as int, format@).is_some(),
        out matches Some(s) ==> formatted_instant(t as int, format@) == Some(s@),
{
    match chrono::DateTime::from_timestamp_micros(t) {
        Some(d) => {
            let mut text = String::new();
            match d.format(format).write_to(&mut text) {
                Ok(()) => Some(text),
                Err(_) => None,
            }
        },
        None => None,
    }
}

/// Wraps `str::replace`.
#[verifier::external_body]
pub(crate) fn replace_text(text: &str, pattern: &str, replacement: &str) -> (out: String)
    ensures
        out@ == replaced_text(text@, pattern@, replacement@),
{
    text.replace(pattern, replacement)
}

/// Wraps `chrono::DateTime::parse_from_str` and `timestamp_micros`.
#[verifier::external_body]
pub(crate) fn read_zoned(text: &str, format: &str) -> (out: Option<i64>)
    ensures
        out.is_some() == zoned_instant(text@, format@).is_some(),
        out matches Some(t) ==> zoned_instant(text@, format@) == Some(t as int),
{
    match chrono::DateTime::parse_from_str(text, format) {
        Ok(d) => Some(d.timestamp_micros()),
        Err(_) => None,
    }
}

/// Wraps `chrono::NaiveDateTime::parse_from_str`, `and_utc` and
/// `timestamp_micros`.
#[verifier::external_body]
pub(crate) fn read_naive(text: &str, format: &str) -> (out: Option<i64>)
    ensures
        out.is_some() == naive_instant(text@, format@).is_some(),
        out matches Some(t) ==> naive_instant(text@, format@) == Some(t as int),
{
    match chrono::NaiveDateTime::parse_from_str(text, format) {
        Ok(n) => Some(n.and_utc().timestamp_micros()),
        Err(_) => None,
    }
}

/// The instant that a band label stands for: read in the layout
/// `YYYY-MM-DD_HH:MM` followed by a zone, after its suffix `_UTC` has been
/// put as the zone ` +0000`; or else in that layout without a zone, as UTC.
pub open spec fn spec_label_instant(text: Seq<char>) -> Option<int> {
    match zoned_instant(replaced_text(text, "_UTC"@, " +0000"@), "%Y-%m-%d_%H:%M %z"@) {
        Some(t) => Some(t),
        None => naive_instant(text, "%Y-%m-%d_%H:%M"@),
    }
}

/// Reads an RFC 3339 date and time; a text that is none is a configuration error.
pub fn parse_instant(text: &str) -> (out: Result<i64, ShadowError>)
    ensures
        out.is_ok() == rfc3339_instant(text@).is_some(),
        out matches Ok(t) ==> rfc3339_instant(text@) == Some(t as int),
        out matches Err(e) ==> e is Config,
{
    match read_rfc3339(text) {
        Some(t) => Ok(t),
        None => Err(ShadowError::Config("Invalid date".to_owned())),
    }
}

/// The RFC 3339 text of an instant.
pub fn instant_text(t: i64) -> (out: Option<String>)
    ensures
        out.is_some() == rfc3339_text(t as int).is_some(),
        out matches Some(s) ==> rfc3339_text(t as int) == Some(s@),
        instant_in_calendar(t as int) ==> out.is_some(),
{
    write_rfc3339(t)
}

/// The label of the time band of instant `t`, in the layout
/// `YYYY-MM-DD_HH:MM_UTC`.
pub fn band_label(t: i64) -> (out: Option<String>)
    ensures
        out.is_some() == formatted_instant(t as int, "%Y-%m-%d_%H:%M_UTC"@).is_some(),
        out matches Some(s) ==> formatted_instant(t as int, "%Y-%m-%d_%H:%M_UTC"@) == Some(s@),
{
    write_instant(t, "%Y-%m-%d_%H:%M_UTC")
}

/// The instant that a band label stands for, if it is a label.
pub fn parse_band_label(text: &str) -> (out: Option<i64>)
    ensures
        out.is_some() == spec_label_instant(text@).is_some(),
        out matches Some(t) ==> spec_label_instant(text@) == Some(t as int),
{
    let zoned: String = replace_text(text, "_UTC", " +0000");
    match read_zoned(zoned.as_str(), "%Y-%m-%d_%H:%M %z") {
        Some(t) => Some(t),
        None => read_naive(text, "%Y-%m-%d_%H:%M"),
    }
}

} // verus!
