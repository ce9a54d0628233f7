//! Wall-clock access for the dispatcher's timestamps.
use vstd::prelude::*;
use chrono::Timelike;

verus! {

/// Relies on `chrono::DateTime::<Local>::from` over
/// `std::time::SystemTime::now()` — which, unlike `Local::now`, takes
/// the branch that handles a system clock set before the Unix epoch
/// instead of aborting — and on `chrono::Timelike`: `hour()` is 0 to
/// 23, `minute()` and `second()` are 0 to 59. Nothing more is assumed
/// of the clock: the dispatcher is verified for every time of day.
#[verifier::external_body]
pub fn local_hms() -> (r: (u8, u8, u8))
    ensures
        r.0 < 24,
        r.1 < 60,
        r.2 < 60,
{
    let now = chrono::DateTime::<chrono::Local>::from(std::time::SystemTime::now());
    (now.hour() as u8, now.minute() as u8, now.second() as u8)
}

} // verus!
