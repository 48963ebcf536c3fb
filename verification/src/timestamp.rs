//! Capture times: a calendar date and a time of day, held as plain numbers.

use chrono::{Datelike, NaiveDate, NaiveDateTime, Timelike};
use vstd::prelude::*;

use crate::text::{decimal_text, zero_padded};

verus! {

/// A date and a time of day in the proleptic Gregorian calendar, without a
/// time zone. The fields are ordered from the most to the least significant.
#[derive(Clone, Copy, Debug, PartialEq, Eq, Structural)]
pub struct Timestamp {
    pub year: i32,
    pub month: u32,
    pub day: u32,
    pub hour: u32,
    pub minute: u32,
    pub second: u32,
    /// Nanoseconds past the second; a thousand million or more during a leap
    /// second, which is counted to second 59.
    pub nanosecond: u32,
}

/// The first year a date may lie in.
pub const MIN_YEAR: i32 = -262143;

/// The last year a date may lie in.
pub const MAX_YEAR: i32 = 262142;

/// Whether February has 29 days in `year`.
pub open spec fn is_leap_year(year: int) -> bool {
    year % 4 == 0 && (year % 100 != 0 || year % 400 == 0)
}

/// The number of days of `month` in `year`; 0 where `month` is no month.
pub open spec fn days_in_month(year: int, month: int) -> int {
    if month == 2 {
        if is_leap_year(year) {
            29
        } else {
            28
        }
    } else if month == 4 || month == 6 || month == 9 || month == 11 {
        30
    } else if 1 <= month <= 12 {
        31
    } else {
        0
    }
}

/// The year as a date is written: four digits from year 0 to 9999, else a
/// sign and at least four digits.
pub open spec fn year_text(year: int) -> Seq<char> {
    if 0 <= year <= 9999 {
        zero_padded(year as nat, 4)
    } else if year < 0 {
        seq!['-'] + zero_padded((-year) as nat, 4)
    } else {
        seq!['+'] + decimal_text(year as nat)
    }
}

/// A date as the gallery shows it: month, day and year, the first two in two
/// digits, with a stroke between them.
pub open spec fn date_text(year: int, month: int, day: int) -> Seq<char> {
    zero_padded(month as nat, 2) + seq!['/'] + zero_padded(day as nat, 2) + seq!['/'] + year_text(
        year,
    )
}

/// What `NaiveDateTime::parse_from_str` of chrono makes of `text` under
/// `format`: the time it reads, or `None` where it reports an error.
pub uninterp spec fn parsed_datetime(text: Seq<char>, format: Seq<char>) -> Option<Timestamp>;

impl Timestamp {
    /// Whether the fields name a day that exists and a time on it.
    pub open spec fn wf(&self) -> bool {
        &&& MIN_YEAR <= self.year <= MAX_YEAR
        &&& 1 <= self.month <= 12
        &&& 1 <= self.day <= days_in_month(self.year as int, self.month as int)
        &&& self.hour < 24
        &&& self.minute < 60
        &&& self.second < 60
        &&& self.nanosecond < 2_000_000_000
        &&& self.nanosecond >= 1_000_000_000 ==> self.second == 59
    }

    /// Whether the fields name a day that exists and a time on it.
    pub fn is_valid(&self) -> (r: bool)
        ensures
            r == self.wf(),
    {
        if self.year < MIN_YEAR || self.year > MAX_YEAR || self.month < 1 || self.month > 12 {
            return false;
        }
        let leap = self.year % 4 == 0 && (self.year % 100 != 0 || self.year % 400 == 0);
        let days: u32 = if self.month == 2 {
            if leap {
                29
            } else {
                28
            }
        } else if self.month == 4 || self.month == 6 || self.month == 9 || self.month == 11 {
            30
        } else {
            31
        };
        self.day >= 1 && self.day <= days && self.hour < 24 && self.minute < 60 && self.second
            < 60 && self.nanosecond < 2_000_000_000 && (self.nanosecond < 1_000_000_000
            || self.second == 59)
    }

    /// Midnight at the start of 1970, which stands for "not resolved yet".
    pub open spec fn spec_epoch() -> Timestamp {
        Timestamp { year: 1970, month: 1, day: 1, hour: 0, minute: 0, second: 0, nanosecond: 0 }
    }

    /// The sentinel for a time that is not resolved yet.
    #[verifier::when_used_as_spec(spec_epoch)]
    pub fn epoch() -> (t: Timestamp)
        ensures
            t == Timestamp::spec_epoch(),
            t.wf(),
    {
        Timestamp { year: 1970, month: 1, day: 1, hour: 0, minute: 0, second: 0, nanosecond: 0 }
    }

    /// Whether this is a real capture time rather than the sentinel.
    pub open spec fn spec_is_resolved(&self) -> bool {
        *self != Timestamp::spec_epoch()
    }

    /// Whether this is a real capture time rather than the sentinel.
    #[verifier::when_used_as_spec(spec_is_resolved)]
    pub fn is_resolved(&self) -> (r: bool)
        ensures
            r == self.spec_is_resolved(),
    {
        !(self.year == 1970 && self.month == 1 && self.day == 1 && self.hour == 0 && self.minute
            == 0 && self.second == 0 && self.nanosecond == 0)
    }

    /// Whether `self` is strictly earlier than `other`: the fields compared
    /// from the year down.
    pub open spec fn spec_before(&self, other: &Timestamp) -> bool {
        if self.year != other.year {
            self.year < other.year
        } else if self.month != other.month {
            self.month < other.month
        } else if self.day != other.day {
            self.day < other.day
        } else if self.hour != other.hour {
            self.hour < other.hour
        } else if self.minute != other.minute {
            self.minute < other.minute
        } else if self.second != other.second {
            self.second < other.second
        } else {
            self.nanosecond < other.nanosecond
        }
    }

    /// Whether `self` is strictly earlier than `other`.
    #[verifier::when_used_as_spec(spec_before)]
    pub fn before(&self, other: &Timestamp) -> (r: bool)
        ensures
            r == self.spec_before(other),
    {
        if self.year != other.year {
            self.year < other.year
        } else if self.month != other.month {
            self.month < other.month
        } else if self.day != other.day {
            self.day < other.day
        } else if self.hour != other.hour {
            self.hour < other.hour
        } else if self.minute != other.minute {
            self.minute < other.minute
        } else if self.second != other.second {
            self.second < other.second
        } else {
            self.nanosecond < other.nanosecond
        }
    }
}

/// `NaiveDateTime::parse_from_str` of chrono, with the fields of the time it
/// returns read out through `Datelike` and `Timelike`. Claimed: the outcome
/// depends on the two texts alone, and the fields of a time that chrono hands
/// out always name an existing day and a time on it.
#[verifier::external_body]
pub(crate) fn parse_datetime(text: &str, format: &str) -> (r: Option<Timestamp>)
    ensures
        r == parsed_datetime(text@, format@),
        r matches Some(t) ==> t.wf(),
{
    match NaiveDateTime::parse_from_str(text, format) {
        Ok(dt) => Some(
            Timestamp {
                year: dt.year(),
                month: dt.month(),
                day: dt.day(),
                hour: dt.hour(),
                minute: dt.minute(),
                second: dt.second(),
                nanosecond: dt.nanosecond(),
            },
        ),
        Err(_) => None,
    }
}

/// `NaiveDateTime::format` of chrono with the pattern `%m/%d/%Y`, on the time
/// that `NaiveDate::from_ymd_opt` and `and_hms_nano_opt` build from the fields.
/// Claimed: both constructors accept every well-formed time, and the pattern
/// writes month and day in two digits and the year in four, or with a sign
/// where four digits do not hold it.
#[verifier::external_body]
pub(crate) fn format_date(t: &Timestamp) -> (s: String)
    requires
        t.wf(),
    ensures
        s@ == date_text(t.year as int, t.month as int, t.day as int),
{
    let date = NaiveDate::from_ymd_opt(t.year, t.month, t.day).unwrap();
    let time = date.and_hms_nano_opt(t.hour, t.minute, t.second, t.nanosecond).unwrap();
    time.format("%m/%d/%Y").to_string()
}

} // verus!
