//! Time bar modules.

use vstd::prelude::*;
use crate::bar::{clock_modules, clock_modules_view, module_views, next_minute_delay, BarModule};
use crate::text::decimal;

verus! {

broadcast use vstd::string::group_string_axioms;

/// A local date and time as the clock reads it: a day of the proleptic
/// Gregorian calendar and a time of day to the second.
#[derive(Clone, Copy, Debug, PartialEq, Eq)]
pub struct ClockTime {
    pub year: i32,
    pub month: u32,
    pub day: u32,
    pub hour: u32,
    pub minute: u32,
    pub second: u32,
}

/// Whether `year` is a leap year of the Gregorian calendar.
pub open spec fn is_leap_year(year: int) -> bool {
    year % 4 == 0 && (year % 100 != 0 || year % 400 == 0)
}

/// The number of days of `month` (1 to 12) in `year`.
pub open spec fn days_in_month(year: int, month: int) -> int {
    if month == 2 {
        if is_leap_year(year) {
            29
        } else {
            28
        }
    } else if month == 4 || month == 6 || month == 9 || month == 11 {
        30
    } else {
        31
    }
}

/// A date and time that `chrono` can represent: a year from -262143 to
/// 262142, an existing day of that year, and a time of day without leap
/// second.
pub open spec fn valid_clock_time(t: ClockTime) -> bool {
    &&& -262143 <= t.year <= 262142
    &&& 1 <= t.month <= 12
    &&& 1 <= t.day <= days_in_month(t.year as int, t.month as int)
    &&& t.hour < 24
    &&& t.minute < 60
    &&& t.second < 60
}

/// `n` in decimal, with a leading zero below ten.
pub open spec fn two_digits(n: nat) -> Seq<char> {
    if n < 10 {
        seq!['0'] + decimal(n)
    } else {
        decimal(n)
    }
}

/// The day of the week of a date of the proleptic Gregorian calendar, from 0
/// for Sunday to 6 for Saturday.
pub open spec fn weekday(year: int, month: int, day: int) -> int {
    let y = if month < 3 {
        year - 1
    } else {
        year
    };
    let offset: int = if month == 1 {
        0
    } else if month == 2 {
        3
    } else if month == 3 {
        2
    } else if month == 4 {
        5
    } else if month == 5 {
        0
    } else if month == 6 {
        3
    } else if month == 7 {
        5
    } else if month == 8 {
        1
    } else if month == 9 {
        4
    } else if month == 10 {
        6
    } else if month == 11 {
        2
    } else {
        4
    };
    (y + y / 4 - y / 100 + y / 400 + offset + day) % 7
}

/// The English three-letter name of a day of the week, 0 being Sunday.
pub open spec fn weekday_abbrev(w: int) -> Seq<char> {
    if w == 0 {
        seq!['S', 'u', 'n']
    } else if w == 1 {
        seq!['M', 'o', 'n']
    } else if w == 2 {
        seq!['T', 'u', 'e']
    } else if w == 3 {
        seq!['W', 'e', 'd']
    } else if w == 4 {
        seq!['T', 'h', 'u']
    } else if w == 5 {
        seq!['F', 'r', 'i']
    } else {
        seq!['S', 'a', 't']
    }
}

/// The date text of the clock: `now` formatted with `%a. %-d`, the English
/// three-letter name of its weekday, a dot and a space, and the day without
/// padding.
pub open spec fn date_text(now: ClockTime) -> Seq<char> {
    weekday_abbrev(weekday(now.year as int, now.month as int, now.day as int)) + seq!['.', ' ']
        + decimal(now.day as nat)
}

/// The time text of the clock: `now` formatted with `%H:%M`, the two-digit
/// hour, a colon and the two-digit minute.
pub open spec fn time_text(now: ClockTime) -> Seq<char> {
    two_digits(now.hour as nat) + seq![':'] + two_digits(now.minute as nat)
}

/// Builds the `NaiveDateTime` of `now` with `NaiveDate::from_ymd_opt` and
/// `NaiveDate::and_hms_opt`, which `chrono` documents to succeed on every valid
/// date and time, and formats it with `NaiveDateTime::format` and the pattern,
/// rendered by `to_string`. As `chrono` documents the fields (in its default,
/// English locale): `%a` is the three-letter weekday name of the date, `%-d`
/// the day without padding, `%H` and `%M` the hour and the minute zero-padded
/// to two digits. `requires` admits the two patterns the bar uses, which
/// render without error.
#[verifier::external_body]
fn format_time(now: &ClockTime, pattern: &str) -> (r: String)
    requires
        valid_clock_time(*now),
        pattern@ == "%a. %-d"@ || pattern@ == "%H:%M"@,
    ensures
        pattern@ == "%a. %-d"@ ==> r@ == date_text(*now),
        pattern@ == "%H:%M"@ ==> r@ == time_text(*now),
{
    let date = chrono::NaiveDate::from_ymd_opt(now.year, now.month, now.day).unwrap();
    let time = date.and_hms_opt(now.hour, now.minute, now.second).unwrap();
    time.format(pattern).to_string()
}

impl ClockTime {
    /// Whether this is a date and time that `chrono` can represent.
    pub fn is_valid(&self) -> (r: bool)
        ensures
            r == valid_clock_time(*self),
    {
        if self.year < -262143 || self.year > 262142 || self.month < 1 || self.month > 12
            || self.day < 1 || self.hour >= 24 || self.minute >= 60 || self.second >= 60 {
            return false;
        }
        let days: u32 = if self.month == 2 {
            let y = self.year;
            if y % 4 == 0 && (y % 100 != 0 || y % 400 == 0) {
                29
            } else {
                28
            }
        } else if self.month == 4 || self.month == 6 || self.month == 9 || self.month == 11 {
            30
        } else {
            31
        };
        self.day <= days
    }
}

/// The clock's part of a bar update: the date and time modules, and after how
/// many seconds the next update is due.
#[derive(Debug, PartialEq, Eq)]
pub struct ClockUpdate {
    pub modules: Vec<BarModule>,
    pub delay_secs: u64,
}

/// Update time module configuration: the date (`%a. %-d`) and time (`%H:%M`)
/// modules of `now`, and a wait until the next minute change.
pub fn update_module(now: &ClockTime) -> (r: ClockUpdate)
    requires
        valid_clock_time(*now),
    ensures
        module_views(r.modules@) == clock_modules_view(date_text(*now), time_text(*now)),
        r.delay_secs == 61 - now.second,
{
    // Create date text layer.
    let date = format_time(now, "%a. %-d");
    // Create time text layer.
    let time = format_time(now, "%H:%M");
    let modules = clock_modules(date, time);
    // Wait until next minute change.
    let delay_secs = next_minute_delay(now.second);
    ClockUpdate { modules, delay_secs }
}

} // verus!
