//! The time on the clock and its notation.

use chrono::NaiveDate;
use vstd::prelude::*;

use crate::text::{decimal, padded};

verus! {

/// A date and a time of day. Within a leap second `nanosecond` goes on above one billion.
#[derive(Clone, Copy, Debug, PartialEq, Eq, Structural)]
pub struct LocalTime {
    pub year: i32,
    pub month: u32,
    pub day: u32,
    pub hour: u32,
    pub minute: u32,
    pub second: u32,
    pub nanosecond: u32,
}

/// The year has a 29th of February.
pub open spec fn is_leap_year(year: int) -> bool {
    year % 4 == 0 && (year % 100 != 0 || year % 400 == 0)
}

/// The number of days of a month.
pub open spec fn days_of(year: int, month: int) -> int {
    if month == 2 {
        if is_leap_year(year) {
            29
        } else {
            28
        }
    } else if month == 4 || month == 6 || month == 9 || month == 11 {
        30
    } else {
        31
    }
}

/// A number with at least two digits.
pub open spec fn two_digits(n: nat) -> Seq<char> {
    padded(decimal(n), '0', 2)
}

/// A year with at least four digits; with its sign outside of the years 0 to 9999.
pub open spec fn year_text(year: int) -> Seq<char> {
    if 0 <= year <= 9999 {
        padded(decimal(year as nat), '0', 4)
    } else if year < 0 {
        seq!['-'] + padded(decimal((-year) as nat), '0', 4)
    } else {
        seq!['+'] + padded(decimal(year as nat), '0', 4)
    }
}

impl LocalTime {
    /// The day is one of the calendar, in a year that can be written down.
    pub open spec fn has_date(self) -> bool {
        &&& -262143 <= self.year <= 262142
        &&& 1 <= self.month <= 12
        &&& 1 <= self.day <= days_of(self.year as int, self.month as int)
    }

    /// The time is one of the day. Only the last second of a minute can be a leap second.
    pub open spec fn has_time(self) -> bool {
        &&& self.hour < 24
        &&& self.minute < 60
        &&& self.second < 60
        &&& self.nanosecond < 1_000_000_000 || self.second == 59 && self.nanosecond < 2_000_000_000
    }

    /// There is such a moment.
    pub open spec fn occurs(self) -> bool {
        self.has_date() && self.has_time()
    }

    /// The second as it is shown, which is 60 within a leap second.
    pub open spec fn shown_second(self) -> nat {
        if self.nanosecond < 1_000_000_000 {
            self.second as nat
        } else {
            self.second as nat + 1
        }
    }

    /// HH:MM:SS format
    pub open spec fn clock_text(self) -> Seq<char> {
        two_digits(self.hour as nat) + seq![':'] + two_digits(self.minute as nat) + seq![':']
            + two_digits(self.shown_second())
    }

    /// YYYYMMDD_HHMMSS format
    pub open spec fn stamp_text(self) -> Seq<char> {
        year_text(self.year as int) + two_digits(self.month as nat) + two_digits(self.day as nat)
            + seq!['_'] + two_digits(self.hour as nat) + two_digits(self.minute as nat)
            + two_digits(self.shown_second())
    }

    /// Tells whether there is such a moment.
    pub fn is_valid(&self) -> (r: bool)
        ensures
            r == self.occurs(),
    {
        format_local(self, "%H:%M:%S").is_some()
    }

    /// The time of day.
    pub fn clock_time(&self) -> (text: String)
        requires
            self.occurs(),
        ensures
            text@ == self.clock_text(),
    {
        format_local(self, "%H:%M:%S").unwrap()
    }

    /// Date and time as part of a file name.
    pub fn stamp(&self) -> (text: String)
        requires
            self.occurs(),
        ensures
            text@ == self.stamp_text(),
    {
        proof {
            reveal_strlit("%H:%M:%S");
            reveal_strlit("%Y%m%d_%H%M%S");
            assert("%H:%M:%S"@.len() != "%Y%m%d_%H%M%S"@.len());
        }
        format_local(self, "%Y%m%d_%H%M%S").unwrap()
    }
}

/// Calls `NaiveDateTime::format` of chrono on the moment that `NaiveDate::from_ymd_opt` and
/// `NaiveDate::and_hms_nano_opt` make of the numbers. The contract claims that these two
/// accept exactly the moments that exist; that `%H`, `%M`, `%S`, `%m` and `%d` give two digits,
/// `%S` counting a leap second as 60; that `%Y` gives four digits for the years 0 to 9999 and
/// a sign with at least four digits for all others; and that the rest of the pattern is copied.
#[verifier::external_body]
fn format_local(time: &LocalTime, pattern: &str) -> (r: Option<String>)
    requires
        pattern@ == "%H:%M:%S"@ || pattern@ == "%Y%m%d_%H%M%S"@,
    ensures
        r is Some <==> time.occurs(),
        r matches Some(text) ==> text@ == if pattern@ == "%H:%M:%S"@ {
            time.clock_text()
        } else {
            time.stamp_text()
        },
{
    let date = NaiveDate::from_ymd_opt(time.year, time.month, time.day)?;
    let moment = date.and_hms_nano_opt(time.hour, time.minute, time.second, time.nanosecond)?;
    Some(moment.format(pattern).to_string())
}

proof fn lemma_two_digits(n: nat)
    requires
        n < 100,
    ensures
        two_digits(n).len() == 2,
{
    reveal_with_fuel(decimal, 2);
}

proof fn lemma_four_digits(n: nat)
    requires
        n < 10000,
    ensures
        padded(decimal(n), '0', 4).len() == 4,
{
    reveal_with_fuel(decimal, 4);
}

/// The time of day always has the form HH:MM:SS.
pub proof fn lemma_clock_text_shape(time: LocalTime)
    requires
        time.occurs(),
    ensures
        time.clock_text().len() == 8,
        time.clock_text()[2] == ':',
        time.clock_text()[5] == ':',
{
    lemma_two_digits(time.hour as nat);
    lemma_two_digits(time.minute as nat);
    lemma_two_digits(time.shown_second());
}

/// From the year 0 to the year 9999 the time stamp always has the form YYYYMMDD_HHMMSS.
pub proof fn lemma_stamp_text_shape(time: LocalTime)
    requires
        time.occurs(),
        0 <= time.year <= 9999,
    ensures
        time.stamp_text().len() == 15,
        time.stamp_text()[8] == '_',
{
    lemma_four_digits(time.year as nat);
    lemma_two_digits(time.month as nat);
    lemma_two_digits(time.day as nat);
    lemma_two_digits(time.hour as nat);
    lemma_two_digits(time.minute as nat);
    lemma_two_digits(time.shown_second());
}

} // verus!
