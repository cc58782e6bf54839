//! Last-modified stamps in the two 16-bit DOS fields of the headers. The
//! packing is proved here; only reading the clock is chrono's.

use vstd::prelude::*;

use chrono::Datelike;
use chrono::Timelike;

verus! {

/// A calendar moment held as plain fields.
pub struct DateTimeParts {
    pub year: i32,
    pub month: u8,
    pub day: u8,
    pub hour: u8,
    pub minute: u8,
    pub second: u8,
}

/// The DOS time word: hours, minutes and two-second steps.
pub open spec fn dos_time_value(hour: u8, minute: u8, second: u8) -> u16
    recommends
        hour < 24,
        minute < 60,
        second < 60,
{
    (hour as int * 2048 + minute as int * 32 + second as int / 2) as u16
}

/// The DOS date word: years since 1980, month and day.
pub open spec fn dos_date_value(year: u16, month: u8, day: u8) -> u16
    recommends
        1980 <= year <= 2107,
        1 <= month <= 12,
        1 <= day <= 31,
{
    ((year as int - 1980) * 512 + month as int * 32 + day as int) as u16
}

/// Packs a time of day into the DOS time word.
pub fn dos_time(hour: u8, minute: u8, second: u8) -> (r: u16)
    requires
        hour < 24,
        minute < 60,
        second < 60,
    ensures
        r == dos_time_value(hour, minute, second),
{
    hour as u16 * 2048 + minute as u16 * 32 + second as u16 / 2
}

/// Packs a calendar day into the DOS date word.
pub fn dos_date(year: u16, month: u8, day: u8) -> (r: u16)
    requires
        1980 <= year <= 2107,
        1 <= month <= 12,
        1 <= day <= 31,
    ensures
        r == dos_date_value(year, month, day),
{
    (year - 1980) * 512 + month as u16 * 32 + day as u16
}

/// Relies on chrono::Utc::now and its Datelike and Timelike accessors:
/// month runs 1 to 12, day 1 to 31, hour below 24, minute and second below
/// 60; the year is whatever the clock says.
#[verifier::external_body]
fn now_parts() -> (r: DateTimeParts)
    ensures
        1 <= r.month <= 12,
        1 <= r.day <= 31,
        r.hour < 24,
        r.minute < 60,
        r.second < 60,
{
    let now = chrono::Utc::now();
    DateTimeParts {
        year: now.year(),
        month: now.month() as u8,
        day: now.day() as u8,
        hour: now.hour() as u8,
        minute: now.minute() as u8,
        second: now.second() as u8,
    }
}

/// The current moment as the two DOS words, the year clamped to the
/// representable range.
pub(crate) fn current_dos_datetime() -> (r: (u16, u16)) {
    let parts = now_parts();
    let year: u16 = if parts.year < 1980 {
        1980
    } else if parts.year > 2107 {
        2107
    } else {
        parts.year as u16
    };
    (dos_time(parts.hour, parts.minute, parts.second), dos_date(year, parts.month, parts.day))
}

} // verus!
