//! Months of the Hebrew calendar.
use vstd::prelude::*;

verus! {

/// Hebrew months, numbered from Nisan.
#[derive(Clone, Copy, Debug, PartialEq, Eq, Structural)]
pub enum Month {
    Nisan,
    Iyyar,
    Sivan,
    Tamuz,
    Av,
    Elul,
    Tishrei,
    Cheshvan,
    Kislev,
    Tevet,
    Shvat,
    Adar1,
    Adar2,
}

/// Position of a month in the year, Nisan being 1.
pub open spec fn month_number(m: Month) -> int {
    match m {
        Month::Nisan => 1,
        Month::Iyyar => 2,
        Month::Sivan => 3,
        Month::Tamuz => 4,
        Month::Av => 5,
        Month::Elul => 6,
        Month::Tishrei => 7,
        Month::Cheshvan => 8,
        Month::Kislev => 9,
        Month::Tevet => 10,
        Month::Shvat => 11,
        Month::Adar1 => 12,
        Month::Adar2 => 13,
    }
}

impl Month {
    /// Position of the month in the year, Nisan being 1.
    pub fn number(&self) -> (r: u8)
        ensures
            r == month_number(*self),
    {
        match self {
            Month::Nisan => 1,
            Month::Iyyar => 2,
            Month::Sivan => 3,
            Month::Tamuz => 4,
            Month::Av => 5,
            Month::Elul => 6,
            Month::Tishrei => 7,
            Month::Cheshvan => 8,
            Month::Kislev => 9,
            Month::Tevet => 10,
            Month::Shvat => 11,
            Month::Adar1 => 12,
            Month::Adar2 => 13,
        }
    }
}

} // verus!
