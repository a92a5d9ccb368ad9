//! Conversion between civil dates and Rata Die day numbers across the
//! Julian-to-Gregorian switch of September 1752.

pub mod date;
pub mod laws;
pub mod month;
pub mod rata;
pub mod zman;

pub use date::{Date, Era};
pub use month::Month;
pub use rata::{Error, RataDie};
pub use zman::{Anchor, Zman};
