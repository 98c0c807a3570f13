//! The time between two events of a generated user, in seconds.

use vstd::prelude::*;

verus! {

pub const SECONDS_PER_MINUTE: u64 = 60;

pub const SECONDS_PER_HOUR: u64 = 3600;

pub const SECONDS_PER_DAY: u64 = 86400;

/// The seconds in a span of days, hours, minutes and seconds.
pub open spec fn span(days: int, hours: int, minutes: int, seconds: int) -> int {
    days * 86400 + hours * 3600 + minutes * 60 + seconds
}

/// The seconds in a span of days, hours, minutes and seconds, if they fit
/// in 64 bits.
pub fn seconds_in(days: u64, hours: u64, minutes: u64, seconds: u64) -> (total: Option<u64>)
    ensures
        total is Some <==> span(days as int, hours as int, minutes as int, seconds as int)
            <= u64::MAX,
        total matches Some(t) ==> t == span(
            days as int,
            hours as int,
            minutes as int,
            seconds as int,
        ),
{
    let d = match days.checked_mul(SECONDS_PER_DAY) {
        Some(v) => v,
        None => {
            return None;
        },
    };
    let h = match hours.checked_mul(SECONDS_PER_HOUR) {
        Some(v) => v,
        None => {
            return None;
        },
    };
    let m = match minutes.checked_mul(SECONDS_PER_MINUTE) {
        Some(v) => v,
        None => {
            return None;
        },
    };
    let dh = match d.checked_add(h) {
        Some(v) => v,
        None => {
            return None;
        },
    };
    let dhm = match dh.checked_add(m) {
        Some(v) => v,
        None => {
            return None;
        },
    };
    dhm.checked_add(seconds)
}

} // verus!
