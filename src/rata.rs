//! Rata Die day numbers and the conversions between them and civil dates.
use vstd::prelude::*;
use crate::date::{Date, Era, days_after_new_year, days_in_year, new_year_plus_days, precedes};

verus! {

/// Day number of 1 September 1752, the last day counted in the Julian
/// calendar; higher numbers are read in the Gregorian calendar.
pub const LAST_JULIAN_DAY: u64 = 639795;

/// Day number of 31 December 9999, the last representable date.
pub const MAX_DAY: u64 = 3652059;

/// First and last day of the switch-over interval: these days never existed.
pub open spec fn gap_first() -> Date {
    Date { year: 1752, month: 9, day: 2 }
}

pub open spec fn gap_last() -> Date {
    Date { year: 1752, month: 9, day: 14 }
}

/// The date lies in the interval removed by the calendar reform, both ends
/// included.
pub open spec fn in_gap(d: Date) -> bool {
    !precedes(d, gap_first()) && !precedes(gap_last(), d)
}

/// The date is counted in the Gregorian calendar.
pub open spec fn is_gregorian(d: Date) -> bool {
    precedes(gap_first(), d)
}

/// The date can be converted to a day number.
pub open spec fn convertible(d: Date) -> bool {
    d.wf() && d.year >= 1 && !in_gap(d) && !(d.year == 1 && d.month == 1 && d.day == 1)
}

/// Day number of a date: every earlier year contributes 365 days and its
/// leap day, with the Gregorian rule after the reform, and the Julian count
/// shifted back by two days before it.
pub open spec fn day_count(d: Date) -> int {
    let py = d.year - 1;
    365 * py + py / 4 + d.ordinal() + if is_gregorian(d) {
        py / 400 - py / 100
    } else {
        -2
    }
}

/// Year and zero-based day within that year found by splitting the zero-based
/// day `l0` into blocks of 400, 100, 4 and 1 years, with `c400` and `c100`
/// the lengths of the 400-year and 100-year blocks.
pub open spec fn split_years(l0: int, c400: int, c100: int) -> (int, int) {
    let n400 = l0 / c400;
    let d1 = l0 % c400;
    let n100 = d1 / c100;
    let d2 = d1 % c100;
    let n4 = d2 / 1461;
    let d3 = d2 % 1461;
    let n1 = d3 / 365;
    let years = 400 * n400 + 100 * n100 + 4 * n4 + n1;
    if n100 == 4 || n1 == 4 {
        // the last day of a leap year
        (years, 365)
    } else {
        (years + 1, d3 % 365)
    }
}

/// Year and zero-based day within that year of day number `n`.
pub open spec fn year_and_offset(n: int) -> (int, int) {
    if n > LAST_JULIAN_DAY {
        split_years(n - 1, 146097, 36524)
    } else {
        split_years(n + 1, 146100, 36525)
    }
}

/// The date of day number `n`.
pub open spec fn date_of_count(n: int) -> Date {
    days_after_new_year(year_and_offset(n).0, year_and_offset(n).1)
}

/// A Rata Die day number: day 1 is 1 January of year 1 in the Gregorian
/// calendar.
#[derive(Clone, Copy, Debug, PartialEq, Eq, Structural, PartialOrd, Ord)]
pub struct RataDie(u64);

/// Why a date has no day number.
#[derive(Clone, Copy, Debug, PartialEq, Eq, Structural)]
pub enum Error {
    /// The date is not in the common era.
    Era,
    /// The date lies within the days removed by the calendar reform.
    Adj,
}

impl RataDie {
    /// The day number as a mathematical integer.
    pub closed spec fn value(self) -> int {
        self.0 as int
    }

    /// The number denotes a representable date.
    pub open spec fn wf(self) -> bool {
        self.value() <= MAX_DAY
    }

    /// The day number `n`, if it is at most `MAX_DAY`.
    pub fn new(n: u64) -> (r: Option<RataDie>)
        ensures
            r matches Some(x) ==> x.value() == n,
            r is Some <==> n <= MAX_DAY,
    {
        if n <= MAX_DAY {
            Some(RataDie(n))
        } else {
            None
        }
    }

    /// The day number as an integer.
    pub fn get(&self) -> (r: u64)
        ensures
            r == self.value(),
    {
        self.0
    }

    /// Day number of a date.
    pub fn try_from(greg: Date) -> (r: Result<RataDie, Error>)
        requires
            greg.wf(),
            // day 0 is 2 January of year 1, the first day with a number
            !(greg.year == 1 && greg.month == 1 && greg.day == 1),
        ensures
            greg.year < 1 ==> r == Err::<RataDie, Error>(Error::Era),
            greg.year >= 1 && in_gap(greg) ==> r == Err::<RataDie, Error>(Error::Adj),
            convertible(greg) ==> (r matches Ok(x) && x.value() == day_count(greg) && x.wf()),
    {
        if greg.era() != Era::CE {
            return Err(Error::Era);
        }
        let first = Date { year: 1752, month: 9, day: 2 };
        let last = Date { year: 1752, month: 9, day: 14 };
        if !greg.is_before(&first) && !last.is_before(&greg) {
            return Err(Error::Adj);
        }
        let py: u64 = (greg.year - 1) as u64;
        let prev: u64 = 365 * py;
        let leap: u64 = py / 4;
        let this: u64 = greg.day_of_year() as u64;
        let mut rata: u64 = prev + leap + this;
        if first.is_before(&greg) {
            rata = rata - py / 100;
            rata = rata + py / 400;
        } else {
            rata = rata - 2;
        }
        proof {
            lemma_day_count_bounds(greg);
        }
        Ok(RataDie(rata))
    }
}

impl Date {
    /// The date of a day number.
    pub fn from(rata: RataDie) -> (r: Date)
        requires
            rata.wf(),
        ensures
            r == date_of_count(rata.value()),
            r.wf(),
    {
        let n = rata.0;
        // Zero-based day counted from 1 January of year 1: in the Gregorian
        // count day 1 is that day; in the Julian count it is two days later.
        let (c400, c100, l0): (u64, u64, u64) = if n > LAST_JULIAN_DAY {
            (146097, 36524, n - 1)
        } else {
            (146100, 36525, n + 1)
        };
        let n400 = l0 / c400;
        let d1 = l0 % c400;
        let n100 = d1 / c100;
        let d2 = d1 % c100;
        let n4 = d2 / 1461;
        let d3 = d2 % 1461;
        let n1 = d3 / 365;
        proof {
            lemma_split_bounds(l0 as int, c400 as int, c100 as int);
        }
        let years: u64 = 400 * n400 + 100 * n100 + 4 * n4 + n1;
        let (year, offset): (u64, u64) = if n100 == 4 || n1 == 4 {
            // the last day of a leap year, which is year 1 BCE for `years == 0`
            (years, 365)
        } else {
            (years + 1, d3 % 365)
        };
        let r = new_year_plus_days(year as i16, offset as i16);
        proof {
            lemma_days_after_new_year_wf(year as int, offset as int);
        }
        r
    }
}

proof fn lemma_day_count_bounds(d: Date)
    requires
        convertible(d),
    ensures
        0 <= day_count(d) <= MAX_DAY,
{
}

proof fn lemma_split_bounds(l0: int, c400: int, c100: int)
    requires
        (c400 == 146097 && c100 == 36524 && 0 <= l0 < MAX_DAY) || (c400 == 146100 && c100
            == 36525 && 0 <= l0 <= LAST_JULIAN_DAY + 1),
    ensures
        ({
            let (y, k) = split_years(l0, c400, c100);
            0 <= y <= 9999 && 0 <= k <= 365 && (y < 9999 || k < days_in_year(y))
        }),
{
}

proof fn lemma_days_after_new_year_wf(y: int, k: int)
    requires
        0 <= y <= 9999,
        0 <= k <= 365,
        y < 9999 || k < days_in_year(y),
    ensures
        days_after_new_year(y, k).wf(),
{
}

} // verus!
