//! Civil dates in the proleptic Gregorian calendar, as plain values.
use vstd::prelude::*;

verus! {

/// Smallest and largest year a civil date can carry.
pub const MIN_YEAR: i16 = -9999;
pub const MAX_YEAR: i16 = 9999;

/// A civil date: a year (year 0 is 1 BCE), a month `1..=12` and a day of the
/// month. Only dates for which `wf` holds are meaningful.
#[derive(Clone, Copy, Debug, PartialEq, Eq, Structural, PartialOrd, Ord, Hash)]
pub struct Date {
    pub year: i16,
    pub month: i8,
    pub day: i8,
}

/// Era of a date: the common era starts with year 1.
#[derive(Clone, Copy, Debug, PartialEq, Eq, Structural)]
pub enum Era {
    CE,
    BCE,
}

pub open spec fn is_leap_year(y: int) -> bool {
    y % 4 == 0 && (y % 100 != 0 || y % 400 == 0)
}

pub open spec fn days_in_year(y: int) -> int {
    if is_leap_year(y) {
        366
    } else {
        365
    }
}

pub open spec fn days_in_month(y: int, m: int) -> int {
    if m == 2 {
        if is_leap_year(y) {
            29
        } else {
            28
        }
    } else if m == 4 || m == 6 || m == 9 || m == 11 {
        30
    } else {
        31
    }
}

/// Days of year `y` that precede the first of month `m`.
pub open spec fn days_before_month(y: int, m: int) -> int {
    let l: int = if is_leap_year(y) {
        1
    } else {
        0
    };
    if m <= 1 {
        0
    } else if m == 2 {
        31
    } else if m == 3 {
        59 + l
    } else if m == 4 {
        90 + l
    } else if m == 5 {
        120 + l
    } else if m == 6 {
        151 + l
    } else if m == 7 {
        181 + l
    } else if m == 8 {
        212 + l
    } else if m == 9 {
        243 + l
    } else if m == 10 {
        273 + l
    } else if m == 11 {
        304 + l
    } else {
        334 + l
    }
}

/// Month of year `y` in which its `ord`-th day (1-based) falls.
pub open spec fn month_at_ordinal(y: int, ord: int) -> int {
    if ord <= days_before_month(y, 2) {
        1
    } else if ord <= days_before_month(y, 3) {
        2
    } else if ord <= days_before_month(y, 4) {
        3
    } else if ord <= days_before_month(y, 5) {
        4
    } else if ord <= days_before_month(y, 6) {
        5
    } else if ord <= days_before_month(y, 7) {
        6
    } else if ord <= days_before_month(y, 8) {
        7
    } else if ord <= days_before_month(y, 9) {
        8
    } else if ord <= days_before_month(y, 10) {
        9
    } else if ord <= days_before_month(y, 11) {
        10
    } else if ord <= days_before_month(y, 12) {
        11
    } else {
        12
    }
}

/// The `ord`-th day (1-based) of year `y`.
pub open spec fn date_at_ordinal(y: int, ord: int) -> Date {
    let m = month_at_ordinal(y, ord);
    Date { year: y as i16, month: m as i8, day: (ord - days_before_month(y, m)) as i8 }
}

/// The date `k` days after 1 January of year `y`, for `0 <= k <= 365`.
pub open spec fn days_after_new_year(y: int, k: int) -> Date {
    if k < days_in_year(y) {
        date_at_ordinal(y, k + 1)
    } else {
        Date { year: (y + 1) as i16, month: 1, day: 1 }
    }
}

/// Strict chronological order of two dates.
pub open spec fn precedes(a: Date, b: Date) -> bool {
    a.year < b.year || (a.year == b.year && (a.month < b.month || (a.month == b.month && a.day
        < b.day)))
}

impl Date {
    /// The date is a real day of the proleptic Gregorian calendar within the
    /// supported years.
    pub open spec fn wf(self) -> bool {
        MIN_YEAR <= self.year <= MAX_YEAR && 1 <= self.month <= 12 && 1 <= self.day
            <= days_in_month(self.year as int, self.month as int)
    }

    /// Day of the year, 1-based.
    pub open spec fn ordinal(self) -> int {
        days_before_month(self.year as int, self.month as int) + self.day
    }

    pub open spec fn era_of(self) -> Era {
        if self.year >= 1 {
            Era::CE
        } else {
            Era::BCE
        }
    }

    /// Builds the date `year-month-day`, or `None` where that day does not
    /// exist or the year is out of range.
    pub fn new(year: i16, month: i8, day: i8) -> (r: Option<Date>)
        ensures
            r matches Some(d) ==> d == (Date { year, month, day }),
            r is Some <==> (Date { year, month, day }).wf(),
    {
        if year < MIN_YEAR || year > MAX_YEAR || month < 1 || month > 12 || day < 1 {
            return None;
        }
        let leap = year % 4 == 0 && (year % 100 != 0 || year % 400 == 0);
        let len: i8 = if month == 2 {
            if leap {
                29
            } else {
                28
            }
        } else if month == 4 || month == 6 || month == 9 || month == 11 {
            30
        } else {
            31
        };
        if day > len {
            None
        } else {
            Some(Date { year, month, day })
        }
    }

    /// Era of the date.
    pub fn era(&self) -> (r: Era)
        ensures
            r == self.era_of(),
    {
        if self.year >= 1 {
            Era::CE
        } else {
            Era::BCE
        }
    }

    /// Whether `self` comes strictly before `other`.
    pub fn is_before(&self, other: &Date) -> (r: bool)
        ensures
            r == precedes(*self, *other),
    {
        self.year < other.year || (self.year == other.year && (self.month < other.month || (
        self.month == other.month && self.day < other.day)))
    }

    /// Day of the year, 1-based.
    pub fn day_of_year(&self) -> (r: i16)
        requires
            self.wf(),
        ensures
            r == self.ordinal(),
    {
        ordinal_day(self.year, self.month, self.day)
    }
}

/// Relies on `jiff::civil::Date::new` and `jiff::civil::Date::day_of_year`:
/// the 1-based day of the year of a valid Gregorian date.
#[verifier::external_body]
fn ordinal_day(year: i16, month: i8, day: i8) -> (r: i16)
    requires
        (Date { year, month, day }).wf(),
    ensures
        r == (Date { year, month, day }).ordinal(),
{
    jiff::civil::Date::new(year, month, day).unwrap().day_of_year()
}

/// Relies on `jiff::civil::Date::new` and `Add<Span>` for `jiff::civil::Date`:
/// 1 January of `year` moved forward by `offset` days.
#[verifier::external_body]
pub(crate) fn new_year_plus_days(year: i16, offset: i16) -> (r: Date)
    requires
        MIN_YEAR <= year <= MAX_YEAR,
        0 <= offset <= 365,
        year < MAX_YEAR || offset < days_in_year(year as int),
    ensures
        r == days_after_new_year(year as int, offset as int),
{
    let d = jiff::civil::Date::new(year, 1, 1).unwrap() + jiff::ToSpan::days(offset);
    Date { year: d.year(), month: d.month(), day: d.day() }
}

/// A valid date is the day of its year that its ordinal names.
pub proof fn lemma_date_at_own_ordinal(d: Date)
    requires
        d.wf(),
    ensures
        1 <= d.ordinal() <= days_in_year(d.year as int),
        date_at_ordinal(d.year as int, d.ordinal()) == d,
{
}

} // verus!
