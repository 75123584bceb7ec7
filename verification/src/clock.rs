//! The system clock.

use vstd::prelude::*;

verus! {

/// The current time as reported by the system clock: `Ok(n)` with `n`
/// nanoseconds after the UNIX epoch, or `Err(n)` with `n` nanoseconds before
/// it. Calls `SystemTime::now` and `SystemTime::duration_since`.
///
/// Trusted, with nothing stated of the value: it is whatever the clock reads.
#[verifier::external_body]
pub(crate) fn clock_since_epoch() -> (r: Result<u128, u128>) {
    match std::time::SystemTime::now().duration_since(std::time::UNIX_EPOCH) {
        Ok(d) => Ok(d.as_nanos()),
        Err(e) => Err(e.duration().as_nanos()),
    }
}

/// The whole seconds of a clock reading as a signed timestamp (`0` for a
/// reading before the UNIX epoch).
pub open spec fn stamp_of_reading(r: Result<u128, u128>) -> i64 {
    match secs_of_reading(r) {
        Some(s) => s as i64,
        None => 0,
    }
}

/// Whole seconds of a clock reading (see [`clock_since_epoch`]): `None`
/// before the UNIX epoch, else the seconds after it, saturating at
/// `u64::MAX`.
pub open spec fn secs_of_reading(r: Result<u128, u128>) -> Option<u64> {
    match r {
        Ok(n) => Some(if n / 1_000_000_000 > u64::MAX { u64::MAX } else { (n / 1_000_000_000) as u64 }),
        Err(_) => None,
    }
}

/// Nanoseconds relative to the UNIX epoch of a clock reading, negative
/// before it, saturating at `i128::MAX` and `-i128::MAX`.
pub open spec fn nanos_of_reading(r: Result<u128, u128>) -> int {
    match r {
        Ok(n) => if n > i128::MAX { i128::MAX as int } else { n as int },
        Err(n) => if n > i128::MAX { -(i128::MAX as int) } else { -(n as int) },
    }
}

/// Whole seconds since the UNIX epoch of a clock reading, or `None` when it
/// lies before the epoch.
pub fn secs_from_reading(r: Result<u128, u128>) -> (s: Option<u64>)
    ensures
        s == secs_of_reading(r),
{
    match r {
        Ok(n) => {
            let secs = n / 1_000_000_000;
            Some(if secs > u64::MAX as u128 { u64::MAX } else { secs as u64 })
        },
        Err(_) => None,
    }
}

/// Nanoseconds relative to the UNIX epoch of a clock reading (saturating at
/// the bounds of `i128`).
pub fn nanos_from_reading(r: Result<u128, u128>) -> (t: i128)
    ensures
        t == nanos_of_reading(r),
{
    match r {
        Ok(n) => if n > i128::MAX as u128 { i128::MAX } else { n as i128 },
        Err(n) => if n > i128::MAX as u128 { -i128::MAX } else { -(n as i128) },
    }
}

/// Whole seconds since the UNIX epoch on the system clock, or `None` when
/// the clock reads earlier than the epoch.
pub fn unix_time_secs() -> (r: Option<u64>)
    ensures
        exists|reading: Result<u128, u128>| r == secs_of_reading(reading),
{
    let reading = clock_since_epoch();
    secs_from_reading(reading)
}

} // verus!
