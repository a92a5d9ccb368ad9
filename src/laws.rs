//! Properties that relate the two directions of the conversion.
use vstd::prelude::*;
use vstd::arithmetic::div_mod::lemma_fundamental_div_mod_converse;
use crate::date::{Date, MAX_YEAR, days_in_year, lemma_date_at_own_ordinal, precedes};
use crate::rata::{convertible, date_of_count, day_count, is_gregorian, split_years, year_and_offset};

verus! {

/// Splitting the day that lies `k` days into Gregorian year `y` finds `y` and `k`.
proof fn lemma_split_gregorian(y: int, k: int)
    requires
        y >= 1,
        0 <= k < days_in_year(y),
    ensures
        ({
            let py = y - 1;
            split_years(365 * py + py / 4 - py / 100 + py / 400 + k, 146097, 36524) == (y, k)
        }),
{
    let py = y - 1;
    let a = py / 400;
    let b = (py % 400) / 100;
    let c = (py % 100) / 4;
    let e = py % 4;
    assert(py == 400 * a + 100 * b + 4 * c + e);
    lemma_fundamental_div_mod_converse(py, 4, 100 * a + 25 * b + c, e);
    lemma_fundamental_div_mod_converse(py, 100, 4 * a + b, 4 * c + e);
    let l0 = 365 * py + py / 4 - py / 100 + py / 400 + k;
    assert(l0 == 146097 * a + 36524 * b + 1461 * c + 365 * e + k);
    let r1 = 36524 * b + 1461 * c + 365 * e + k;
    lemma_fundamental_div_mod_converse(l0, 146097, a, r1);
    if 1461 * c + 365 * e + k < 36524 {
        lemma_fundamental_div_mod_converse(r1, 36524, b, 1461 * c + 365 * e + k);
        lemma_fundamental_div_mod_converse(1461 * c + 365 * e + k, 1461, c, 365 * e + k);
        if k < 365 {
            lemma_fundamental_div_mod_converse(365 * e + k, 365, e, k);
        } else {
            lemma_fundamental_div_mod_converse(365 * e + k, 365, e + 1, 0);
        }
    } else {
        lemma_fundamental_div_mod_converse(r1, 36524, b + 1, 0);
    }
}

/// Splitting the day that lies `k` days into Julian year `y` finds `y` and `k`.
proof fn lemma_split_julian(y: int, k: int)
    requires
        y >= 1,
        0 <= k < if (y % 4 == 0) {
            366int
        } else {
            365int
        },
    ensures
        ({
            let py = y - 1;
            split_years(365 * py + py / 4 + k, 146100, 36525) == (y, k)
        }),
{
    let py = y - 1;
    let a = py / 400;
    let b = (py % 400) / 100;
    let c = (py % 100) / 4;
    let e = py % 4;
    assert(py == 400 * a + 100 * b + 4 * c + e);
    lemma_fundamental_div_mod_converse(py, 4, 100 * a + 25 * b + c, e);
    let l0 = 365 * py + py / 4 + k;
    assert(l0 == 146100 * a + 36525 * b + 1461 * c + 365 * e + k);
    let r1 = 36525 * b + 1461 * c + 365 * e + k;
    lemma_fundamental_div_mod_converse(l0, 146100, a, r1);
    lemma_fundamental_div_mod_converse(r1, 36525, b, 1461 * c + 365 * e + k);
    lemma_fundamental_div_mod_converse(1461 * c + 365 * e + k, 1461, c, 365 * e + k);
    if k < 365 {
        lemma_fundamental_div_mod_converse(365 * e + k, 365, e, k);
    } else {
        lemma_fundamental_div_mod_converse(365 * e + k, 365, e + 1, 0);
    }
}

/// The day number of a date falls in the date's year, on its day of the year.
proof fn lemma_count_splits_back(d: Date)
    requires
        convertible(d),
    ensures
        year_and_offset(day_count(d)) == (d.year as int, d.ordinal() - 1),
{
    lemma_date_at_own_ordinal(d);
    let y = d.year as int;
    let py = y - 1;
    let k = d.ordinal() - 1;
    if is_gregorian(d) {
        lemma_split_gregorian(y, k);
        assert(day_count(d) - 1 == 365 * py + py / 4 - py / 100 + py / 400 + k);
    } else {
        lemma_split_julian(y, k);
        assert(day_count(d) + 1 == 365 * py + py / 4 + k);
    }
}

/// Converting a date to its day number and back gives the same date.
pub proof fn lemma_round_trip(d: Date)
    requires
        convertible(d),
    ensures
        date_of_count(day_count(d)) == d,
{
    lemma_count_splits_back(d);
    lemma_date_at_own_ordinal(d);
}

/// The day number of 31 December of any year is read back as the last day of
/// that year (day 366 in a leap year), not as 1 January of the next one.
pub proof fn lemma_year_end(y: int)
    requires
        1 <= y <= MAX_YEAR,
    ensures
        ({
            let end = Date { year: y as i16, month: 12, day: 31 };
            &&& convertible(end)
            &&& year_and_offset(day_count(end)) == (y, days_in_year(y) - 1)
            &&& date_of_count(day_count(end)) == end
        }),
{
    let end = Date { year: y as i16, month: 12, day: 31 };
    lemma_count_splits_back(end);
    lemma_round_trip(end);
}

/// Day number of the day before 1 January of year `y` in the Gregorian count.
spec fn gregorian_base(y: int) -> int {
    let py = y - 1;
    365 * py + py / 4 - py / 100 + py / 400
}

/// Day number of the day before 1 January of year `y` in the Julian count,
/// without the shift of two days.
spec fn julian_base(y: int) -> int {
    let py = y - 1;
    365 * py + py / 4
}

proof fn lemma_gregorian_years_ordered(y1: int, y2: int)
    requires
        1 <= y1 < y2,
    ensures
        gregorian_base(y1) + days_in_year(y1) <= gregorian_base(y2),
    decreases y2 - y1,
{
    assert(gregorian_base(y1 + 1) == gregorian_base(y1) + days_in_year(y1));
    if y1 + 1 < y2 {
        lemma_gregorian_years_ordered(y1 + 1, y2);
    }
}

proof fn lemma_julian_years_ordered(y1: int, y2: int)
    requires
        1 <= y1 < y2,
    ensures
        julian_base(y1) + days_in_year(y1) <= julian_base(y2),
    decreases y2 - y1,
{
    assert(julian_base(y1 + 1) >= julian_base(y1) + days_in_year(y1));
    if y1 + 1 < y2 {
        lemma_julian_years_ordered(y1 + 1, y2);
    }
}

/// Day numbers follow the order of the dates.
pub proof fn lemma_monotonic(d1: Date, d2: Date)
    requires
        convertible(d1),
        convertible(d2),
        precedes(d1, d2),
    ensures
        day_count(d1) < day_count(d2),
{
    lemma_date_at_own_ordinal(d1);
    lemma_date_at_own_ordinal(d2);
    let y1 = d1.year as int;
    let y2 = d2.year as int;
    if is_gregorian(d1) == is_gregorian(d2) {
        if y1 < y2 {
            if is_gregorian(d1) {
                lemma_gregorian_years_ordered(y1, y2);
            } else {
                lemma_julian_years_ordered(y1, y2);
            }
        }
    } else {
        let last_julian = Date { year: 1752, month: 9, day: 1 };
        let first_gregorian = Date { year: 1752, month: 9, day: 15 };
        assert(day_count(last_julian) == 639795);
        assert(day_count(first_gregorian) == 639798);
        if y1 < 1752 {
            lemma_julian_years_ordered(y1, 1752);
        }
        if 1752 < y2 {
            lemma_gregorian_years_ordered(1752, y2);
        }
    }
}

} // verus!
