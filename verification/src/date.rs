//! Calendar dates, held as year, month and day.

use chrono::Datelike;
use vstd::prelude::*;

verus! {

/// The earliest year a date may lie in: the first year of chrono's dates.
pub const MIN_YEAR: i32 = -262143;

/// The latest year a date may lie in: the last year of chrono's dates.
pub const MAX_YEAR: i32 = 262142;

/// Leap years of the proleptic Gregorian calendar. Year 0 is 1 BCE.
pub open spec fn is_leap_year(year: int) -> bool {
    year % 4 == 0 && (year % 100 != 0 || year % 400 == 0)
}

/// The number of days of a month, for `month` from 1 to 12.
pub open spec fn days_in_month(year: int, month: int) -> int {
    if month == 2 {
        if is_leap_year(year) {
            29
        } else {
            28
        }
    } else if month == 4 || month == 6 || month == 9 || month == 11 {
        30
    } else {
        31
    }
}

/// A date as three numbers.
pub ghost struct DateView {
    pub year: int,
    pub month: int,
    pub day: int,
}

impl DateView {
    /// The day exists in the calendar and its year is in range.
    pub open spec fn is_valid(self) -> bool {
        &&& MIN_YEAR <= self.year <= MAX_YEAR
        &&& 1 <= self.month <= 12
        &&& 1 <= self.day <= days_in_month(self.year, self.month)
    }

    /// 1 January 1970, the date a field has before one is picked.
    pub open spec fn epoch() -> DateView {
        DateView { year: 1970, month: 1, day: 1 }
    }
}

/// A day of the proleptic Gregorian calendar, without a time of day.
#[derive(Clone, Copy, Debug, PartialEq, Eq, Structural)]
pub struct Date {
    year: i32,
    month: u32,
    day: u32,
}

impl View for Date {
    type V = DateView;

    closed spec fn view(&self) -> DateView {
        DateView { year: self.year as int, month: self.month as int, day: self.day as int }
    }
}

/// The text that chrono writes for the day `year`-`month`-`day`, where chrono
/// has such a day.
pub uninterp spec fn chrono_date_text(year: int, month: int, day: int) -> Option<Seq<char>>;

/// `chrono::NaiveDate::default()`, read off as year, month and day. chrono
/// documents the default date as 1 January 1970.
#[verifier::external_body]
fn chrono_default_ymd() -> (ymd: (i32, u32, u32))
    ensures
        ymd == (1970i32, 1u32, 1u32),
{
    let date = chrono::NaiveDate::default();
    (date.year(), date.month(), date.day())
}

/// `chrono::NaiveDate::from_ymd_opt` followed by the date's `to_string()`.
/// The text depends on the three numbers alone; nothing is claimed of which
/// numbers chrono takes for a date.
#[verifier::external_body]
fn chrono_text(year: i32, month: u32, day: u32) -> (text: Option<String>)
    ensures
        match text {
            Some(s) => chrono_date_text(year as int, month as int, day as int) == Some(s@),
            None => chrono_date_text(year as int, month as int, day as int) is None,
        },
{
    match chrono::NaiveDate::from_ymd_opt(year, month, day) {
        Some(date) => Some(date.to_string()),
        None => None,
    }
}

fn leap_year(year: i32) -> (leap: bool)
    requires
        MIN_YEAR <= year <= MAX_YEAR,
    ensures
        leap == is_leap_year(year as int),
{
    // 400_000 is a multiple of 400, so the shifted year is leap exactly when `year` is.
    let shifted: i32 = year + 400_000;
    shifted % 4 == 0 && (shifted % 100 != 0 || shifted % 400 == 0)
}

fn month_length(year: i32, month: u32) -> (days: u32)
    requires
        MIN_YEAR <= year <= MAX_YEAR,
        1 <= month <= 12,
    ensures
        days == days_in_month(year as int, month as int),
{
    if month == 2 {
        if leap_year(year) {
            29
        } else {
            28
        }
    } else if month == 4 || month == 6 || month == 9 || month == 11 {
        30
    } else {
        31
    }
}

impl Date {
    /// Every `Date` is a day that exists.
    pub open spec fn wf(&self) -> bool {
        self@.is_valid()
    }

    /// The date of the given year, month and day, if there is such a day.
    pub fn from_ymd_opt(year: i32, month: u32, day: u32) -> (date: Option<Date>)
        ensures
            date is Some <==> (DateView {
                year: year as int,
                month: month as int,
                day: day as int,
            }).is_valid(),
            date matches Some(d) ==> d.wf() && d@ == (DateView {
                year: year as int,
                month: month as int,
                day: day as int,
            }),
    {
        if year < MIN_YEAR || year > MAX_YEAR || month < 1 || month > 12 || day < 1 {
            return None;
        }
        if day > month_length(year, month) {
            return None;
        }
        Some(Date { year, month, day })
    }

    /// The year; 0 is 1 BCE.
    pub fn year(&self) -> (year: i32)
        ensures
            year == self@.year,
    {
        self.year
    }

    /// The month, from 1 to 12.
    pub fn month(&self) -> (month: u32)
        ensures
            month == self@.month,
    {
        self.month
    }

    /// The day of the month, from 1.
    pub fn day(&self) -> (day: u32)
        ensures
            day == self@.day,
    {
        self.day
    }

    /// The date as a label: chrono's text for it, and the empty text where
    /// chrono has none.
    pub fn to_string(&self) -> (text: String)
        ensures
            text@ == match chrono_date_text(self@.year, self@.month, self@.day) {
                Some(t) => t,
                None => Seq::<char>::empty(),
            },
    {
        text_or_empty(chrono_text(self.year, self.month, self.day))
    }
}

/// The label made of what chrono wrote: that text, and the empty text where
/// it wrote none.
pub fn text_or_empty(written: Option<String>) -> (text: String)
    ensures
        text@ == match written {
            Some(t) => t@,
            None => Seq::<char>::empty(),
        },
{
    match written {
        Some(text) => text,
        None => String::new(),
    }
}

impl Default for Date {
    /// 1 January 1970.
    fn default() -> (date: Date)
        ensures
            date.wf(),
            date@ == DateView::epoch(),
    {
        let (year, month, day) = chrono_default_ymd();
        Date { year, month, day }
    }
}

} // verus!
