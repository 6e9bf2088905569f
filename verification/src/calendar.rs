//! The calendar, as the `time` crate keeps it.
use vstd::prelude::*;

use crate::ast::{ChangelogDate, Month, Weekday};
use crate::text::decimal;

verus! {

/// Whether `year` is a leap year of the Gregorian calendar.
pub open spec fn is_leap(year: int) -> bool {
    year % 4 == 0 && (year % 100 != 0 || year % 400 == 0)
}

/// The number of days of a month, counted from 1.
pub open spec fn month_days(year: int, month: int) -> int {
    if month == 2 {
        if is_leap(year) {
            29
        } else {
            28
        }
    } else if month == 4 || month == 6 || month == 9 || month == 11 {
        30
    } else {
        31
    }
}

/// Whether there is such a day, in a year of at most four digits.
pub open spec fn is_date(year: int, month: int, day: int) -> bool {
    -9999 <= year <= 9999 && 1 <= month <= 12 && 1 <= day <= month_days(year, month)
}

/// The number of days of a year before a month.
pub open spec fn days_before_month(year: int, month: int) -> int
    decreases month,
{
    if month <= 1 {
        0
    } else {
        days_before_month(year, month - 1) + month_days(year, month - 1)
    }
}

/// The number of days from the last day of the year 0 on.
pub open spec fn day_number(year: int, month: int, day: int) -> int {
    let y = year - 1;
    365 * y + y / 4 - y / 100 + y / 400 + days_before_month(year, month) + day
}

/// The days since the last Monday. The year 1 began on a Monday.
pub open spec fn weekday_number(year: int, month: int, day: int) -> int {
    (day_number(year, month, day) - 1) % 7
}

/// `n` in decimal, with zeros before it up to a width.
pub open spec fn padded(n: nat, width: nat) -> Seq<char> {
    if decimal(n).len() >= width {
        decimal(n)
    } else {
        Seq::new((width - decimal(n).len()) as nat, |i: int| '0') + decimal(n)
    }
}

/// A date as `2024-01-31`.
pub open spec fn iso_date(year: nat, month: nat, day: nat) -> Seq<char> {
    padded(year, 4) + "-"@ + padded(month, 2) + "-"@ + padded(day, 2)
}

/// `time::Date::from_calendar_date` and `time::Date::weekday`: there is a date
/// exactly for the days of the proleptic Gregorian calendar in years of up to
/// four digits, and its weekday is counted on from Monday.
#[verifier::external_body]
fn calendar_weekday(year: i32, month: u8, day: u8) -> (r: Option<u8>)
    ensures
        r is Some <==> is_date(year as int, month as int, day as int),
        r matches Some(w) ==> w == weekday_number(year as int, month as int, day as int),
{
    let month = time::Month::try_from(month).ok()?;
    let date = time::Date::from_calendar_date(year, month, day).ok()?;
    Some(date.weekday().number_days_from_monday())
}

/// The `Display` of `time::Date`: year, month and day in decimal, the year to
/// four and the others to two digits, with hyphens between.
#[verifier::external_body]
fn date_text(year: u16, month: u8, day: u8) -> (r: String)
    requires
        is_date(year as int, month as int, day as int),
    ensures
        r@ == iso_date(year as nat, month as nat, day as nat),
{
    let month = time::Month::try_from(month).unwrap();
    time::Date::from_calendar_date(i32::from(year), month, day).unwrap().to_string()
}

/// The day that it is.
#[derive(Clone, Copy, Debug, PartialEq, Eq, Structural)]
pub struct Today {
    pub year: i32,
    /// The month, counted from 1.
    pub month: u8,
    pub day: u8,
}

impl Today {
    /// Whether there is such a day.
    pub open spec fn wf(self) -> bool {
        is_date(self.year as int, self.month as int, self.day as int)
    }
}

/// `time::OffsetDateTime::now_utc` and its `year`, `month` and `day`: a day of
/// the calendar, in a year of up to four digits. Which one depends on when the
/// call is made.
#[verifier::external_body]
pub(crate) fn today_utc() -> (r: Today)
    ensures
        r.wf(),
{
    let now = time::OffsetDateTime::now_utc();
    Today { year: now.year(), month: u8::from(now.month()), day: now.day() }
}

impl Month {
    /// The month, counted from 1.
    pub open spec fn ordinal(self) -> int {
        match self {
            Month::Jan => 1,
            Month::Feb => 2,
            Month::Mar => 3,
            Month::Apr => 4,
            Month::May => 5,
            Month::Jun => 6,
            Month::Jul => 7,
            Month::Aug => 8,
            Month::Sep => 9,
            Month::Oct => 10,
            Month::Nov => 11,
            Month::Dec => 12,
        }
    }

    pub fn number(self) -> (r: u8)
        ensures
            r == self.ordinal(),
    {
        match self {
            Month::Jan => 1,
            Month::Feb => 2,
            Month::Mar => 3,
            Month::Apr => 4,
            Month::May => 5,
            Month::Jun => 6,
            Month::Jul => 7,
            Month::Aug => 8,
            Month::Sep => 9,
            Month::Oct => 10,
            Month::Nov => 11,
            Month::Dec => 12,
        }
    }
}

impl Weekday {
    /// The weekday that many days after Monday.
    pub open spec fn after_monday(n: int) -> Weekday {
        if n == 0 {
            Weekday::Mon
        } else if n == 1 {
            Weekday::Tue
        } else if n == 2 {
            Weekday::Wed
        } else if n == 3 {
            Weekday::Thu
        } else if n == 4 {
            Weekday::Fri
        } else if n == 5 {
            Weekday::Sat
        } else {
            Weekday::Sun
        }
    }

    pub open spec fn label(self) -> Seq<char> {
        match self {
            Weekday::Mon => "Mon"@,
            Weekday::Tue => "Tue"@,
            Weekday::Wed => "Wed"@,
            Weekday::Thu => "Thu"@,
            Weekday::Fri => "Fri"@,
            Weekday::Sat => "Sat"@,
            Weekday::Sun => "Sun"@,
        }
    }

    pub fn name(self) -> (r: &'static str)
        ensures
            r@ == self.label(),
    {
        match self {
            Weekday::Mon => "Mon",
            Weekday::Tue => "Tue",
            Weekday::Wed => "Wed",
            Weekday::Thu => "Thu",
            Weekday::Fri => "Fri",
            Weekday::Sat => "Sat",
            Weekday::Sun => "Sun",
        }
    }
}

/// Whether the day of a changelog entry exists.
pub open spec fn exists_on_calendar(d: ChangelogDate) -> bool {
    is_date(d.year as int, d.month.ordinal(), d.day as int)
}

/// The weekday of a changelog entry by the calendar.
pub open spec fn true_weekday(d: ChangelogDate) -> Weekday {
    Weekday::after_monday(weekday_number(d.year as int, d.month.ordinal(), d.day as int))
}

/// The date of a changelog entry as text.
pub open spec fn date_of(d: ChangelogDate) -> Seq<char> {
    iso_date(d.year as nat, d.month.ordinal() as nat, d.day as nat)
}

/// Whether `a` is a later day than `b`.
pub open spec fn is_later(a: ChangelogDate, b: ChangelogDate) -> bool {
    day_number(a.year as int, a.month.ordinal(), a.day as int) > day_number(
        b.year as int,
        b.month.ordinal(),
        b.day as int,
    )
}

/// Whether the date of a changelog entry comes after a day, by year, then
/// month, then day of the month.
pub open spec fn later_than(d: ChangelogDate, today: Today) -> bool {
    comes_after(
        d.year as int,
        d.month.ordinal(),
        d.day as int,
        today.year as int,
        today.month as int,
        today.day as int,
    )
}

/// The weekday of a changelog entry by the calendar, if the day exists.
pub fn weekday_of(d: &ChangelogDate) -> (r: Option<Weekday>)
    ensures
        r is Some <==> exists_on_calendar(*d),
        r matches Some(w) ==> w == true_weekday(*d),
{
    match calendar_weekday(d.year as i32, d.month.number(), d.day) {
        None => None,
        Some(n) => Some(
            if n == 0 {
                Weekday::Mon
            } else if n == 1 {
                Weekday::Tue
            } else if n == 2 {
                Weekday::Wed
            } else if n == 3 {
                Weekday::Thu
            } else if n == 4 {
                Weekday::Fri
            } else if n == 5 {
                Weekday::Sat
            } else {
                Weekday::Sun
            },
        ),
    }
}

/// The date of a changelog entry as text.
pub fn text_of_date(d: &ChangelogDate) -> (r: String)
    requires
        exists_on_calendar(*d),
    ensures
        r@ == date_of(*d),
{
    date_text(d.year, d.month.number(), d.day)
}

proof fn lemma_days_before_month(year: int, month: int)
    requires
        1 <= month <= 13,
    ensures
        28 * (month - 1) <= days_before_month(year, month),
        month == 13 ==> days_before_month(year, month) == (if is_leap(year) {
            366int
        } else {
            365int
        }),
    decreases month,
{
    reveal_with_fuel(days_before_month, 14);
}

proof fn lemma_month_monotone(year: int, a: int, b: int)
    requires
        1 <= a < b <= 13,
    ensures
        days_before_month(year, a) + month_days(year, a) <= days_before_month(year, b),
    decreases b,
{
    if b > a + 1 {
        lemma_month_monotone(year, a, b - 1);
    }
}

proof fn lemma_year_step(y: int)
    ensures
        365 * y + y / 4 - y / 100 + y / 400 == 365 * (y - 1) + (y - 1) / 4 - (y - 1) / 100 + (y - 1)
            / 400 + (if is_leap(y) {
            366int
        } else {
            365int
        }),
{
}

proof fn lemma_years_monotone(a: int, b: int)
    requires
        a <= b,
    ensures
        365 * a + a / 4 - a / 100 + a / 400 <= 365 * b + b / 4 - b / 100 + b / 400,
    decreases b - a,
{
    if a < b {
        lemma_years_monotone(a, b - 1);
        lemma_year_step(b);
    }
}

proof fn lemma_earlier_year(x: int, m: int, d: int, y: int, n: int, e: int)
    requires
        is_date(x, m, d),
        is_date(y, n, e),
        x < y,
    ensures
        day_number(x, m, d) < day_number(y, n, e),
{
    lemma_days_before_month(x, 13);
    lemma_days_before_month(y, n);
    lemma_month_monotone(x, m, 13);
    lemma_year_step(x);
    lemma_years_monotone(x, y - 1);
}

/// The first of two days is the later one, by year, then month, then day of
/// the month.
pub open spec fn comes_after(x: int, m: int, d: int, y: int, n: int, e: int) -> bool {
    ||| x > y
    ||| x == y && m > n
    ||| x == y && m == n && d > e
}

/// Days are counted by year, then month, then day of the month.
pub proof fn day_number_is_lexicographic(x: int, m: int, d: int, y: int, n: int, e: int)
    requires
        is_date(x, m, d),
        is_date(y, n, e),
    ensures
        day_number(x, m, d) > day_number(y, n, e) <==> comes_after(x, m, d, y, n, e),
{
    if x < y {
        lemma_earlier_year(x, m, d, y, n, e);
    } else if y < x {
        lemma_earlier_year(y, n, e, x, m, d);
    } else if m < n {
        lemma_month_monotone(x, m, n);
    } else if n < m {
        lemma_month_monotone(x, n, m);
    }
}

/// Days are ordered by year, then month, then day of the month.
pub proof fn later_is_lexicographic(a: ChangelogDate, b: ChangelogDate)
    requires
        exists_on_calendar(a),
        exists_on_calendar(b),
    ensures
        is_later(a, b) <==> comes_after(
            a.year as int,
            a.month.ordinal(),
            a.day as int,
            b.year as int,
            b.month.ordinal(),
            b.day as int,
        ),
{
    day_number_is_lexicographic(
        a.year as int,
        a.month.ordinal(),
        a.day as int,
        b.year as int,
        b.month.ordinal(),
        b.day as int,
    );
}

/// Whether `a` is a later day than `b`.
pub fn later(a: &ChangelogDate, b: &ChangelogDate) -> (r: bool)
    requires
        exists_on_calendar(*a),
        exists_on_calendar(*b),
    ensures
        r == is_later(*a, *b),
{
    proof {
        later_is_lexicographic(*a, *b);
    }
    let m: u8 = a.month.number();
    let n: u8 = b.month.number();
    a.year > b.year || (a.year == b.year && m > n) || (a.year == b.year && m == n && a.day > b.day)
}

/// Whether the date of a changelog entry comes after a day.
pub fn after_day(d: &ChangelogDate, today: Today) -> (r: bool)
    ensures
        r == later_than(*d, today),
{
    let year: i32 = d.year as i32;
    let month: u8 = d.month.number();
    year > today.year || (year == today.year && month > today.month) || (year == today.year
        && month == today.month && d.day > today.day)
}

} // verus!
