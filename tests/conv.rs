use rata_die::{Date, Era, Error, Month, RataDie};

fn date(y: i16, m: i8, d: i8) -> Date {
    Date::new(y, m, d).unwrap()
}

fn count(d: Date) -> u64 {
    RataDie::try_from(d).unwrap().get()
}

#[test]
fn conv_it_works() {
    // Declare date
    let greg = date(2025, 10, 26);

    // Calculate Rata Die
    let rata = RataDie::try_from(greg).unwrap();

    // Ensure matches expectation
    assert_eq!(rata, RataDie::new(739550).unwrap());
    assert_eq!(greg, Date::from(rata));
}

#[test]
fn first_gregorian_day_is_day_one() {
    assert_eq!(count(date(1, 1, 3)), 1);
    assert_eq!(count(date(1, 1, 2)), 0);
    assert_eq!(Date::from(RataDie::new(0).unwrap()), date(1, 1, 2));
    assert_eq!(Date::from(RataDie::new(1).unwrap()), date(1, 1, 3));
}

#[test]
fn reform_boundary() {
    assert_eq!(count(date(1752, 9, 1)), 639795);
    for day in 2..=14 {
        assert_eq!(RataDie::try_from(date(1752, 9, day)), Err(Error::Adj));
    }
    assert_eq!(count(date(1752, 9, 15)), 639798);
    assert_eq!(Date::from(RataDie::new(639795).unwrap()), date(1752, 9, 1));
    assert_eq!(Date::from(RataDie::new(639798).unwrap()), date(1752, 9, 15));
}

#[test]
fn bce_dates_are_rejected() {
    assert_eq!(date(0, 12, 31).era(), Era::BCE);
    assert_eq!(RataDie::try_from(date(0, 12, 31)), Err(Error::Era));
    assert_eq!(RataDie::try_from(date(-44, 3, 15)), Err(Error::Era));
    assert_eq!(RataDie::try_from(date(-9999, 1, 1)), Err(Error::Era));
    assert_eq!(date(1, 1, 1).era(), Era::CE);
}

#[test]
fn leap_year_ends_read_back() {
    // Gregorian regime, a 4-year block ending in a leap year
    let n = count(date(2024, 12, 31));
    assert_eq!(n, 739251);
    assert_eq!(Date::from(RataDie::new(n).unwrap()), date(2024, 12, 31));
    assert_eq!(Date::from(RataDie::new(n + 1).unwrap()), date(2025, 1, 1));
    // Gregorian regime, the end of a 400-year block
    let n = count(date(2000, 12, 31));
    assert_eq!(n, 730485);
    assert_eq!(Date::from(RataDie::new(n).unwrap()), date(2000, 12, 31));
    // Julian regime
    let n = count(date(1600, 12, 31));
    assert_eq!(Date::from(RataDie::new(n).unwrap()), date(1600, 12, 31));
    let n = count(date(4, 12, 31));
    assert_eq!(Date::from(RataDie::new(n).unwrap()), date(4, 12, 31));
    let n = count(date(1700, 12, 31));
    assert_eq!(Date::from(RataDie::new(n).unwrap()), date(1700, 12, 31));
}

#[test]
fn round_trip_samples() {
    let samples = [
        date(1, 1, 2),
        date(1, 12, 31),
        date(100, 3, 1),
        date(1066, 10, 14),
        date(1752, 8, 31),
        date(1752, 12, 31),
        date(1900, 2, 28),
        date(2000, 2, 29),
        date(2025, 10, 26),
        date(9999, 12, 31),
    ];
    for d in samples {
        let rata = RataDie::try_from(d).unwrap();
        assert_eq!(Date::from(rata), d);
    }
}

#[test]
fn day_numbers_are_ordered() {
    let a = count(date(1752, 9, 1));
    let b = count(date(1752, 9, 15));
    let c = count(date(1800, 1, 1));
    let e = count(date(1799, 12, 31));
    assert!(a < b);
    assert!(e < c);
    assert_eq!(e + 1, c);
    assert!(count(date(1, 1, 2)) < count(date(9999, 12, 31)));
}

#[test]
fn largest_day_number() {
    assert_eq!(count(date(9999, 12, 31)), 3652059);
    assert!(RataDie::new(3652059).is_some());
    assert!(RataDie::new(3652060).is_none());
    assert_eq!(Date::from(RataDie::new(3652059).unwrap()), date(9999, 12, 31));
}

#[test]
fn invalid_dates_are_refused() {
    assert!(Date::new(2023, 2, 29).is_none());
    assert!(Date::new(2024, 2, 29).is_some());
    assert!(Date::new(1900, 2, 29).is_none());
    assert!(Date::new(2025, 13, 1).is_none());
    assert!(Date::new(10000, 1, 1).is_none());
    assert!(Date::new(2025, 4, 31).is_none());
}

#[test]
fn day_of_year_counts_from_one() {
    assert_eq!(date(2025, 1, 1).day_of_year(), 1);
    assert_eq!(date(2025, 10, 26).day_of_year(), 299);
    assert_eq!(date(2024, 12, 31).day_of_year(), 366);
    assert_eq!(date(2023, 12, 31).day_of_year(), 365);
}

#[test]
fn month_numbers() {
    assert_eq!(Month::Nisan.number(), 1);
    assert_eq!(Month::Tishrei.number(), 7);
    assert_eq!(Month::Adar2.number(), 13);
}
