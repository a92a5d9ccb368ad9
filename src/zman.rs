//! Named daily times of halakhic practice.
use vstd::prelude::*;

verus! {

/// Point of the day from which an angular offset of the sun is measured.
#[derive(Clone, Copy, Debug, PartialEq, Eq, Structural)]
pub enum Anchor {
    Sunrise,
    Sundown,
}

/// Halakhic times.
#[derive(Clone, Copy, Debug, PartialEq, Eq, Structural)]
pub enum Zman {
    /// _Alot Hashachar_: daybreak, when the first rays of light are visible
    /// in the morning.
    Alot,
    /// _Netz Hachama_: sunrise, when the ball of the sun rises above the
    /// horizon.
    Netz,
    /// _Sof Zman Kriyat Shema_: end of the time to say the morning Shema,
    /// three halakhic hours into the day.
    Shema,
    /// _Sof Zman Tefilla_: end of the time to say the Shacharit Amidah, four
    /// halakhic hours into the day.
    Tefilla,
    /// _Chatzot Hayom_: midday, the midpoint between sunrise and sunset.
    Chatzot,
    /// _Mincha Gedola_: one-half variable hour after midday, the earliest time
    /// to recite Mincha.
    MinchaGedola,
    /// _Mincha Ketana_: two and one-half variable hours before sunset.
    MinchaKetana,
    /// _Plag HaMincha_: one and one-quarter variable hours before sunset.
    PlagHaMincha,
    /// _Shkiyat Hachama_: sundown, when the ball of the sun falls below the
    /// horizon.
    Shekiah,
    /// _Tzet Hakochavim_: nightfall, after which it is definitely the
    /// following day.
    Tzet,
}

} // verus!
