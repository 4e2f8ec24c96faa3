//! The system clock.

use vstd::prelude::*;
use std::time::{Duration, SystemTime, SystemTimeError, UNIX_EPOCH};

verus! {

/// A point in time, as std represents it.
#[verifier::external_type_specification]
#[verifier::external_body]
pub struct ExSystemTime(SystemTime);

/// The error of `SystemTime::duration_since`.
#[verifier::external_type_specification]
#[verifier::external_body]
pub struct ExSystemTimeError(SystemTimeError);

/// The constant `UNIX_EPOCH`, a fixed point in time; nothing is claimed of it.
#[verifier::external_body]
fn epoch() -> (t: SystemTime) {
    UNIX_EPOCH
}

/// `SystemTime::now` reads the system clock; nothing is claimed of what it
/// reads.
pub assume_specification[ SystemTime::now ]() -> (t: SystemTime);

/// `SystemTime::duration_since` returns the time from `earlier` to `t`, or an
/// error if `earlier` is the later one. Both come from the clock, so nothing
/// is claimed of the result.
pub assume_specification[ SystemTime::duration_since ](
    t: &SystemTime,
    earlier: SystemTime,
) -> (r: Result<Duration, SystemTimeError>);

/// The whole seconds of a span of time, as `Duration::as_secs` returns them.
pub assume_specification[ Duration::as_secs ](d: &Duration) -> (n: u64);

/// The whole milliseconds of a span of time, as `Duration::as_millis` returns
/// them.
pub assume_specification[ Duration::as_millis ](d: &Duration) -> (n: u128);

/// The seconds that the clock reads, zero where it reads none.
pub fn secs_or_zero(reading: Option<u64>) -> (n: u64)
    ensures
        n == (match reading {
            Some(n) => n,
            None => 0,
        }),
{
    match reading {
        Some(n) => n,
        None => 0,
    }
}

/// The milliseconds that the clock reads, zero where it reads none.
pub fn millis_or_zero(reading: Option<u128>) -> (n: u128)
    ensures
        n == (match reading {
            Some(n) => n,
            None => 0,
        }),
{
    match reading {
        Some(n) => n,
        None => 0,
    }
}

/// Whether `r` is what a reading of the clock can come to: what
/// `SystemTime::duration_since` returns of the time that `SystemTime::now` gives,
/// since the epoch.
pub closed spec fn is_reading(r: Result<Duration, SystemTimeError>) -> bool {
    exists|now: SystemTime, start: SystemTime|
        #![trigger call_ensures(SystemTime::duration_since, (&now, start), r)]
        call_ensures(SystemTime::now, (), now) && call_ensures(epoch, (), start) && call_ensures(
            SystemTime::duration_since,
            (&now, start),
            r,
        )
}

/// Whether `n` is the number of whole seconds that a reading of the clock
/// gives: what `Duration::as_secs` returns of it, or zero where the clock stands
/// before the epoch.
pub open spec fn secs_read(r: Result<Duration, SystemTimeError>, n: u64) -> bool {
    is_reading(r) && match r {
        Ok(d) => call_ensures(Duration::as_secs, (&d,), n),
        Err(_) => n == 0,
    }
}

/// Whether `n` is the number of whole milliseconds that a reading of the clock
/// gives: what `Duration::as_millis` returns of it, or zero where the clock
/// stands before the epoch.
pub open spec fn millis_read(r: Result<Duration, SystemTimeError>, n: u128) -> bool {
    is_reading(r) && match r {
        Ok(d) => call_ensures(Duration::as_millis, (&d,), n),
        Err(_) => n == 0,
    }
}

/// Reads the clock. The calls go through function values, so that what they
/// return is known to come from them.
fn read_clock() -> (r: Result<Duration, SystemTimeError>)
    ensures
        is_reading(r),
{
    let read_now = SystemTime::now;
    let read_epoch = epoch;
    let span = SystemTime::duration_since;
    let now = read_now();
    let start = read_epoch();
    span(&now, start)
}

/// The seconds since the Unix epoch, zero if the clock stands before it.
pub fn now_secs() -> (n: u64)
    ensures
        exists|r: Result<Duration, SystemTimeError>| #[trigger] secs_read(r, n),
{
    let whole_secs = Duration::as_secs;
    let r = read_clock();
    let reading: Option<u64> = match &r {
        Ok(d) => Some(whole_secs(d)),
        Err(_) => None,
    };
    let n: u64 = secs_or_zero(reading);
    assert(secs_read(r, n));
    n
}

/// The milliseconds since the Unix epoch, zero if the clock stands before it.
pub fn now_millis() -> (n: u128)
    ensures
        exists|r: Result<Duration, SystemTimeError>| #[trigger] millis_read(r, n),
{
    let whole_millis = Duration::as_millis;
    let r = read_clock();
    let reading: Option<u128> = match &r {
        Ok(d) => Some(whole_millis(d)),
        Err(_) => None,
    };
    let n: u128 = millis_or_zero(reading);
    assert(millis_read(r, n));
    n
}

} // verus!
