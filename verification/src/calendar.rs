//! The proleptic Gregorian calendar over the years 1 to 9999: civil dates,
//! their position on the day line, and the weekday of a day.

use vstd::prelude::*;

verus! {

/// First year the calendar covers.
pub const MIN_YEAR: u16 = 1;

/// Last year the calendar covers.
pub const MAX_YEAR: u16 = 9999;

/// Number of days from 0001-01-01 through 9999-12-31.
pub const DAY_COUNT: u32 = 3_652_059;

/// Whether `year` has a 29th of February.
pub open spec fn is_leap_year(year: int) -> bool {
    year % 4 == 0 && (year % 100 != 0 || year % 400 == 0)
}

/// Number of days of `year`.
pub open spec fn year_length(year: int) -> int {
    if is_leap_year(year) {
        366
    } else {
        365
    }
}

/// Number of days of month `month` (1 to 12) of `year`.
pub open spec fn days_in_month(year: int, month: int) -> int {
    if month == 2 {
        if is_leap_year(year) {
            29
        } else {
            28
        }
    } else if month == 4 || month == 6 || month == 9 || month == 11 {
        30
    } else {
        31
    }
}

/// Number of days in the years 1 to `year - 1`.
pub open spec fn days_before_year(year: int) -> int
    decreases year,
{
    if year <= 1 {
        0
    } else {
        days_before_year(year - 1) + year_length(year - 1)
    }
}

/// Number of days in the months 1 to `month - 1` of `year`.
pub open spec fn days_before_month(year: int, month: int) -> int
    decreases month,
{
    if month <= 1 {
        0
    } else {
        days_before_month(year, month - 1) + days_in_month(year, month - 1)
    }
}

/// The usual closed form of [`days_before_year`].
pub proof fn lemma_days_before_year_closed(year: int)
    requires
        year >= 1,
    ensures
        days_before_year(year) == 365 * (year - 1) + (year - 1) / 4 - (year - 1) / 100 + (year - 1)
            / 400,
    decreases year,
{
    if year > 1 {
        lemma_days_before_year_closed(year - 1);
    }
}

/// Whole years take whole days: a later year starts later, by at least 365
/// days for each year between.
pub proof fn lemma_days_before_year_monotone(a: int, b: int)
    requires
        1 <= a <= b,
    ensures
        days_before_year(b) - days_before_year(a) >= 365 * (b - a),
    decreases b - a,
{
    if a < b {
        lemma_days_before_year_monotone(a, b - 1);
    }
}

/// The cumulated month lengths, month by month.
pub proof fn lemma_days_before_month_table(year: int)
    ensures
        days_before_month(year, 1) == 0,
        days_before_month(year, 2) == 31,
        days_before_month(year, 3) == 31 + days_in_month(year, 2),
        days_before_month(year, 4) == 62 + days_in_month(year, 2),
        days_before_month(year, 5) == 92 + days_in_month(year, 2),
        days_before_month(year, 6) == 123 + days_in_month(year, 2),
        days_before_month(year, 7) == 153 + days_in_month(year, 2),
        days_before_month(year, 8) == 184 + days_in_month(year, 2),
        days_before_month(year, 9) == 215 + days_in_month(year, 2),
        days_before_month(year, 10) == 245 + days_in_month(year, 2),
        days_before_month(year, 11) == 276 + days_in_month(year, 2),
        days_before_month(year, 12) == 306 + days_in_month(year, 2),
        days_before_month(year, 13) == year_length(year),
{
    reveal_with_fuel(days_before_month, 14);
}

/// Months of one year follow each other on the day line.
pub proof fn lemma_days_before_month_monotone(year: int, a: int, b: int)
    requires
        1 <= a <= b <= 13,
    ensures
        days_before_month(year, b) - days_before_month(year, a) >= 28 * (b - a),
    decreases b - a,
{
    if a < b {
        lemma_days_before_month_monotone(year, a, b - 1);
    }
}

/// A civil date. Any three numbers can be held; [`Date::is_valid`] says
/// which of them name a day of the calendar.
#[derive(Clone, Copy, Debug, PartialEq, Eq, Structural)]
pub struct Date {
    pub year: u16,
    pub month: u8,
    pub day: u8,
}

impl Date {
    /// The date names a day of the calendar.
    pub open spec fn is_valid(self) -> bool {
        &&& MIN_YEAR <= self.year <= MAX_YEAR
        &&& 1 <= self.month <= 12
        &&& 1 <= self.day <= days_in_month(self.year as int, self.month as int)
    }

    /// Position on the day line: 0 for 0001-01-01, one more for each day after.
    pub open spec fn day_number(self) -> int {
        days_before_year(self.year as int) + days_before_month(self.year as int, self.month as int)
            + (self.day - 1)
    }

    /// Months since January of year 0, counted from the date's own month.
    pub open spec fn month_index(self) -> int {
        self.year * 12 + (self.month - 1)
    }
}

/// The valid date at position `n` of the day line.
pub open spec fn date_of_day(n: int) -> Date {
    choose|d: Date| d.is_valid() && d.day_number() == n
}

/// Weekday of the day at position `n`, 0 for Monday to 6 for Sunday.
/// Day 0, 0001-01-01, is a Monday.
pub open spec fn weekday_index_of_day(n: int) -> int {
    n % 7
}

/// The week of the day at position `n`, weeks running from Monday to
/// Sunday and counted from the week of day 0.
pub open spec fn week_of_day(n: int) -> int {
    n / 7
}

/// Every valid date lies on the covered part of the day line.
pub proof fn lemma_day_number_bounds(d: Date)
    requires
        d.is_valid(),
    ensures
        0 <= d.day_number() < DAY_COUNT,
{
    let y = d.year as int;
    lemma_days_before_year_monotone(1, y);
    lemma_days_before_year_monotone(y + 1, 10000);
    lemma_days_before_year_closed(10000);
    lemma_days_before_month_table(y);
    lemma_days_before_month_monotone(y, d.month as int, 12);
    lemma_days_before_month_monotone(y, 1, d.month as int);
    assert(days_before_year(y + 1) == days_before_year(y) + year_length(y));
    assert(days_before_month(y, d.month as int + 1) == days_before_month(y, d.month as int)
        + days_in_month(y, d.month as int));
    lemma_days_before_month_monotone(y, d.month as int + 1, 13);
}

/// The day line orders valid dates as year, month and day do.
pub proof fn lemma_day_number_order(a: Date, b: Date)
    requires
        a.is_valid(),
        b.is_valid(),
    ensures
        a.day_number() < b.day_number() <==> (a.year < b.year || (a.year == b.year && (a.month
            < b.month || (a.month == b.month && a.day < b.day)))),
        a.day_number() == b.day_number() <==> a == b,
{
    let a_first = a.year < b.year || (a.year == b.year && (a.month < b.month || (a.month == b.month
        && a.day < b.day)));
    let b_first = b.year < a.year || (b.year == a.year && (b.month < a.month || (b.month == a.month
        && b.day < a.day)));
    if a_first {
        lemma_day_number_less(a, b);
    }
    if b_first {
        lemma_day_number_less(b, a);
    }
}

/// A date that comes first by year, month and day comes first on the day
/// line.
proof fn lemma_day_number_less(a: Date, b: Date)
    requires
        a.is_valid(),
        b.is_valid(),
        a.year < b.year || (a.year == b.year && (a.month < b.month || (a.month == b.month && a.day
            < b.day))),
    ensures
        a.day_number() < b.day_number(),
{
    let ya = a.year as int;
    let yb = b.year as int;
    let ma = a.month as int;
    lemma_days_before_month_table(ya);
    assert(days_before_month(ya, ma + 1) == days_before_month(ya, ma) + days_in_month(ya, ma));
    if ya < yb {
        lemma_days_before_year_monotone(ya + 1, yb);
        assert(days_before_year(ya + 1) == days_before_year(ya) + year_length(ya));
        lemma_days_before_month_monotone(ya, ma + 1, 13);
        lemma_days_before_month_monotone(yb, 1, b.month as int);
    } else if a.month < b.month {
        lemma_days_before_month_monotone(ya, ma + 1, b.month as int);
    }
}

/// [`date_of_day`] is the inverse of [`Date::day_number`].
pub proof fn lemma_date_of_day(d: Date)
    requires
        d.is_valid(),
    ensures
        date_of_day(d.day_number()) == d,
{
    let e = date_of_day(d.day_number());
    assert(e.is_valid() && e.day_number() == d.day_number());
    lemma_day_number_order(e, d);
}

/// The day after `d`.
pub open spec fn next_date(d: Date) -> Date {
    if d.day < days_in_month(d.year as int, d.month as int) {
        Date { day: (d.day + 1) as u8, ..d }
    } else if d.month < 12 {
        Date { month: (d.month + 1) as u8, day: 1, ..d }
    } else {
        Date { year: (d.year + 1) as u16, month: 1, day: 1 }
    }
}

/// The last day of the calendar.
pub open spec fn last_date() -> Date {
    Date { year: MAX_YEAR, month: 12, day: 31 }
}

/// The day after a date is the next position of the day line.
pub proof fn lemma_next_date(d: Date)
    requires
        d.is_valid(),
        d != last_date(),
    ensures
        next_date(d).is_valid(),
        next_date(d).day_number() == d.day_number() + 1,
{
    let y = d.year as int;
    let m = d.month as int;
    lemma_days_before_month_table(y);
    lemma_days_before_month_table(y + 1);
    assert(days_before_month(y, m + 1) == days_before_month(y, m) + days_in_month(y, m));
    assert(days_before_year(y + 1) == days_before_year(y) + year_length(y));
}

/// The calendar begins at position 0 and ends at position `DAY_COUNT - 1`.
pub proof fn lemma_calendar_ends()
    ensures
        (Date { year: 1, month: 1, day: 1 }).day_number() == 0,
        last_date().day_number() == DAY_COUNT - 1,
{
    lemma_days_before_year_closed(1);
    lemma_days_before_year_closed(9999);
    lemma_days_before_month_table(1);
    lemma_days_before_month_table(9999);
}

/// Every position of the covered day line is the day number of one valid
/// date, and [`date_of_day`] names it.
pub proof fn lemma_day_has_date(n: int)
    requires
        0 <= n < DAY_COUNT,
    ensures
        date_of_day(n).is_valid(),
        date_of_day(n).day_number() == n,
    decreases n,
{
    lemma_calendar_ends();
    if n == 0 {
        let first = Date { year: 1, month: 1, day: 1 };
        assert(first.is_valid() && first.day_number() == n);
    } else {
        lemma_day_has_date(n - 1);
        let before = date_of_day(n - 1);
        lemma_next_date(before);
        let d = next_date(before);
        assert(d.is_valid() && d.day_number() == n);
    }
}

/// Executable form of [`is_leap_year`].
pub fn leap_year(year: u16) -> (r: bool)
    ensures
        r == is_leap_year(year as int),
{
    year % 4 == 0 && (year % 100 != 0 || year % 400 == 0)
}

/// Executable form of [`days_in_month`].
pub fn month_length(year: u16, month: u8) -> (r: u8)
    ensures
        r == days_in_month(year as int, month as int),
{
    if month == 2 {
        if leap_year(year) {
            29
        } else {
            28
        }
    } else if month == 4 || month == 6 || month == 9 || month == 11 {
        30
    } else {
        31
    }
}

/// Executable form of [`days_before_year`], up to the year after the last.
pub fn year_start(year: u16) -> (r: u32)
    requires
        1 <= year <= MAX_YEAR + 1,
    ensures
        r == days_before_year(year as int),
        r <= DAY_COUNT,
{
    proof {
        lemma_days_before_year_closed(year as int);
    }
    let y: u32 = (year - 1) as u32;
    365 * y + y / 4 - y / 100 + y / 400
}

/// Executable form of [`days_before_month`], up to the month after December.
pub fn month_start(year: u16, month: u8) -> (r: u32)
    requires
        1 <= month <= 13,
    ensures
        r == days_before_month(year as int, month as int),
        r <= 366,
{
    let mut total: u32 = 0;
    let mut m: u8 = 1;
    while m < month
        invariant
            1 <= m <= month <= 13,
            total == days_before_month(year as int, m as int),
            total <= 31 * (m - 1),
        decreases month - m,
    {
        total = total + month_length(year, m) as u32;
        m = m + 1;
    }
    proof {
        lemma_days_before_month_table(year as int);
        lemma_days_before_month_monotone(year as int, month as int, 13);
    }
    total
}

impl Date {
    /// The date `year`-`month`-`day`, where the calendar has that day.
    pub fn new(year: u16, month: u8, day: u8) -> (r: Option<Date>)
        ensures
            r == (if (Date { year, month, day }).is_valid() {
                Some(Date { year, month, day })
            } else {
                None
            }),
    {
        let d = Date { year, month, day };
        if d.valid() {
            Some(d)
        } else {
            None
        }
    }

    /// Executable form of [`Date::is_valid`].
    pub fn valid(&self) -> (r: bool)
        ensures
            r == self.is_valid(),
    {
        MIN_YEAR <= self.year && self.year <= MAX_YEAR && 1 <= self.month && self.month <= 12 && 1
            <= self.day && self.day <= month_length(self.year, self.month)
    }

    /// Executable form of [`Date::day_number`].
    pub fn to_day_number(&self) -> (r: u32)
        requires
            self.is_valid(),
        ensures
            r == self.day_number(),
            r < DAY_COUNT,
    {
        proof {
            lemma_day_number_bounds(*self);
        }
        year_start(self.year) + month_start(self.year, self.month) + (self.day - 1) as u32
    }

    /// The date at position `n` of the day line.
    pub fn from_day_number(n: u32) -> (r: Date)
        requires
            n < DAY_COUNT,
        ensures
            r.is_valid(),
            r.day_number() == n,
            r == date_of_day(n as int),
    {
        let mut year: u16 = (n / 366 + 1) as u16;
        proof {
            lemma_days_before_year_closed(year as int);
            lemma_days_before_year_closed(10000);
        }
        while year_start(year + 1) <= n
            invariant
                1 <= year <= MAX_YEAR,
                days_before_year(year as int) <= n < DAY_COUNT,
                days_before_year(10000) == DAY_COUNT,
            decreases MAX_YEAR - year,
        {
            proof {
                if year == MAX_YEAR {
                    assert(false);
                }
            }
            year = year + 1;
        }
        let rest: u32 = n - year_start(year);
        assert(days_before_year(year as int + 1) == days_before_year(year as int) + year_length(
            year as int,
        ));
        let mut month: u8 = 1;
        proof {
            lemma_days_before_month_table(year as int);
        }
        while month_start(year, month + 1) <= rest
            invariant
                1 <= month <= 12,
                days_before_month(year as int, month as int) <= rest < year_length(year as int),
                days_before_month(year as int, 13) == year_length(year as int),
            decreases 12 - month,
        {
            proof {
                if month == 12 {
                    assert(false);
                }
            }
            month = month + 1;
        }
        assert(days_before_month(year as int, month as int + 1) == days_before_month(
            year as int,
            month as int,
        ) + days_in_month(year as int, month as int));
        let day: u8 = (rest - month_start(year, month) + 1) as u8;
        let r = Date { year, month, day };
        proof {
            lemma_date_of_day(r);
        }
        r
    }

    /// Weekday of the date, 0 for Monday to 6 for Sunday.
    pub fn weekday_index(&self) -> (r: u8)
        requires
            self.is_valid(),
        ensures
            r == weekday_index_of_day(self.day_number()),
            r < 7,
    {
        (self.to_day_number() % 7) as u8
    }
}

} // verus!
