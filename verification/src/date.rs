use crate::text::{decimal, push_decimal, push_str};
use chrono::Datelike;
use vstd::prelude::*;

verus! {

/// A calendar date of the proleptic Gregorian calendar.
#[derive(Debug, Clone, Copy, PartialEq, Eq, PartialOrd, Ord, Hash, Structural)]
pub struct Date {
    pub year: i32,
    pub month: u32,
    pub day: u32,
}

/// The first year that a date can lie in.
pub open spec fn min_year() -> int {
    -262143
}

/// The last year that a date can lie in.
pub open spec fn max_year() -> int {
    262142
}

pub open spec fn is_leap_year(year: int) -> bool {
    year % 4 == 0 && (year % 100 != 0 || year % 400 == 0)
}

pub open spec fn days_in_month(year: int, month: int) -> int {
    if month == 2 {
        if is_leap_year(year) {
            29
        } else {
            28
        }
    } else if month == 4 || month == 6 || month == 9 || month == 11 {
        30
    } else {
        31
    }
}

impl Date {
    /// Whether the date exists in the calendar, within the years that can be
    /// held.
    pub open spec fn is_valid(self) -> bool {
        &&& min_year() <= self.year <= max_year()
        &&& 1 <= self.month <= 12
        &&& 1 <= self.day <= days_in_month(self.year as int, self.month as int)
    }

    /// Whether `self` is an earlier day than `other`.
    pub open spec fn before(self, other: Date) -> bool {
        self.year < other.year || (self.year == other.year && (self.month < other.month || (
        self.month == other.month && self.day < other.day)))
    }

    /// The day before `self`, where `self` exists and is not the first day
    /// that can be held.
    pub open spec fn day_before(self) -> Option<Date> {
        if !self.is_valid() {
            None
        } else if self.day > 1 {
            Some(Date { year: self.year, month: self.month, day: (self.day - 1) as u32 })
        } else if self.month > 1 {
            Some(
                Date {
                    year: self.year,
                    month: (self.month - 1) as u32,
                    day: days_in_month(self.year as int, self.month - 1) as u32,
                },
            )
        } else if self.year > min_year() {
            Some(Date { year: (self.year - 1) as i32, month: 12, day: 31 })
        } else {
            None
        }
    }

    /// The day after `self`, where `self` exists and is not the last day that
    /// can be held.
    pub open spec fn day_after(self) -> Option<Date> {
        if !self.is_valid() {
            None
        } else if self.day < days_in_month(self.year as int, self.month as int) {
            Some(Date { year: self.year, month: self.month, day: (self.day + 1) as u32 })
        } else if self.month < 12 {
            Some(Date { year: self.year, month: (self.month + 1) as u32, day: 1 })
        } else if self.year < max_year() {
            Some(Date { year: (self.year + 1) as i32, month: 1, day: 1 })
        } else {
            None
        }
    }

    /// The day before `self`.
    ///
    /// Rests on `chrono::NaiveDate::pred_opt`, which gives the previous
    /// calendar date, and none before the first date that chrono can hold.
    #[verifier::external_body]
    pub(crate) fn previous_day(self) -> (r: Option<Date>)
        ensures
            r == self.day_before(),
    {
        chrono::NaiveDate::from_ymd_opt(self.year, self.month, self.day)?.pred_opt().map(
            |d| Date { year: d.year(), month: d.month(), day: d.day() },
        )
    }

    /// The day after `self`.
    ///
    /// Rests on `chrono::NaiveDate::succ_opt`, which gives the next calendar
    /// date, and none after the last date that chrono can hold.
    #[verifier::external_body]
    pub(crate) fn next_day(self) -> (r: Option<Date>)
        ensures
            r == self.day_after(),
    {
        chrono::NaiveDate::from_ymd_opt(self.year, self.month, self.day)?.succ_opt().map(
            |d| Date { year: d.year(), month: d.month(), day: d.day() },
        )
    }

    /// Whether `self` is an earlier day than `other`.
    pub fn is_before(&self, other: &Date) -> (r: bool)
        ensures
            r == self.before(*other),
    {
        self.year < other.year || (self.year == other.year && (self.month < other.month || (
        self.month == other.month && self.day < other.day)))
    }
}

/// English name of a month; empty for a number that is no month.
pub open spec fn month_name(month: int) -> Seq<char> {
    if month == 1 {
        "January"@
    } else if month == 2 {
        "February"@
    } else if month == 3 {
        "March"@
    } else if month == 4 {
        "April"@
    } else if month == 5 {
        "May"@
    } else if month == 6 {
        "June"@
    } else if month == 7 {
        "July"@
    } else if month == 8 {
        "August"@
    } else if month == 9 {
        "September"@
    } else if month == 10 {
        "October"@
    } else if month == 11 {
        "November"@
    } else if month == 12 {
        "December"@
    } else {
        ""@
    }
}

/// The ending that makes a day of the month an ordinal: 1st, 2nd, 3rd, 4th.
pub open spec fn day_suffix(day: int) -> Seq<char> {
    if day == 1 || day == 21 || day == 31 {
        "st"@
    } else if day == 2 || day == 22 {
        "nd"@
    } else if day == 3 || day == 23 {
        "rd"@
    } else {
        "th"@
    }
}

/// A year in decimal digits, with a minus sign before a negative one.
pub open spec fn year_text(year: int) -> Seq<char> {
    if year < 0 {
        seq!['-'] + decimal((-year) as nat)
    } else {
        decimal(year as nat)
    }
}

/// The title of the page of a day, such as `February 21st, 2026`.
pub open spec fn daily_title(date: Date) -> Seq<char> {
    month_name(date.month as int) + seq![' '] + decimal(date.day as nat) + day_suffix(
        date.day as int,
    ) + ", "@ + year_text(date.year as int)
}

/// Appends `year` as [`year_text`] writes it.
pub fn push_year(s: &mut String, year: i32)
    ensures
        final(s)@ == old(s)@ + year_text(year as int),
{
    if year < 0 {
        crate::text::push_char(s, '-');
        let magnitude: u64 = (-(year as i64)) as u64;
        push_decimal(s, magnitude);
        assert(final(s)@ =~= old(s)@ + (seq!['-'] + decimal((-year) as nat)));
    } else {
        push_decimal(s, year as u64);
    }
}

/// The title that the page of the day `date` carries.
pub fn format_roam_daily_title(date: Date) -> (title: String)
    ensures
        title@ == daily_title(date),
{
    let month = if date.month == 1 {
        "January"
    } else if date.month == 2 {
        "February"
    } else if date.month == 3 {
        "March"
    } else if date.month == 4 {
        "April"
    } else if date.month == 5 {
        "May"
    } else if date.month == 6 {
        "June"
    } else if date.month == 7 {
        "July"
    } else if date.month == 8 {
        "August"
    } else if date.month == 9 {
        "September"
    } else if date.month == 10 {
        "October"
    } else if date.month == 11 {
        "November"
    } else if date.month == 12 {
        "December"
    } else {
        ""
    };
    let day = date.day;
    let suffix = if day == 1 || day == 21 || day == 31 {
        "st"
    } else if day == 2 || day == 22 {
        "nd"
    } else if day == 3 || day == 23 {
        "rd"
    } else {
        "th"
    };
    let mut title = month.to_owned();
    crate::text::push_char(&mut title, ' ');
    push_decimal(&mut title, day as u64);
    push_str(&mut title, suffix);
    push_str(&mut title, ", ");
    push_year(&mut title, date.year);
    assert(title@ =~= daily_title(date));
    title
}

/// A day, to stand where the day does not matter.
pub open spec fn some_day() -> Date {
    Date { year: 2000, month: 1, day: 1 }
}

/// A day, to stand where the day does not matter.
pub(crate) fn spare_day() -> (day: Date)
    ensures
        day == some_day(),
        day.is_valid(),
{
    Date { year: 2000, month: 1, day: 1 }
}

/// A number in decimal digits, with zeros before it where it has fewer than
/// `width` digits.
pub open spec fn zero_padded(n: nat, width: nat) -> Seq<char> {
    if decimal(n).len() >= width {
        decimal(n)
    } else {
        Seq::new((width - decimal(n).len()) as nat, |i: int| '0') + decimal(n)
    }
}

/// A year as it stands at the head of the outline: in four digits from the
/// year 0 to the year 9999, and else with its sign before at least four
/// digits.
pub open spec fn header_year(year: int) -> Seq<char> {
    if 0 <= year < 10000 {
        zero_padded(year as nat, 4)
    } else if year >= 10000 {
        seq!['+'] + zero_padded(year as nat, 4)
    } else {
        seq!['-'] + zero_padded((-year) as nat, 4)
    }
}

/// How a day is shown at the head of the outline, such as `Feb 21, 2026`:
/// the first three letters of the month, the day in two digits, and the
/// year.
pub open spec fn header_text(date: Date) -> Seq<char> {
    month_name(date.month as int).take(3) + seq![' '] + zero_padded(date.day as nat, 2) + ", "@
        + header_year(date.year as int)
}

} // verus!
