use vstd::prelude::*;

use std::time::{Duration, SystemTime, SystemTimeError, UNIX_EPOCH};

verus! {

#[verifier::external_type_specification]
#[verifier::external_body]
pub struct ExSystemTime(SystemTime);

#[verifier::external_type_specification]
#[verifier::external_body]
pub struct ExSystemTimeError(SystemTimeError);

/// The current time.
///
/// Trusted: `SystemTime::now`. Nothing is claimed of the result: it is the
/// machine's clock.
#[verifier::external_body]
fn system_now() -> SystemTime {
    SystemTime::now()
}

/// The time elapsed from the Unix epoch to `t`.
///
/// Trusted: `SystemTime::duration_since` with `UNIX_EPOCH`. Nothing is claimed
/// of the result, which fails when `t` lies before the epoch.
#[verifier::external_body]
fn since_unix_epoch(t: &SystemTime) -> Result<Duration, SystemTimeError> {
    t.duration_since(UNIX_EPOCH)
}

/// Whole milliseconds in `d`.
///
/// Trusted: `Duration::as_millis`. Nothing is claimed of the result.
#[verifier::external_body]
fn whole_millis(d: &Duration) -> u128 {
    d.as_millis()
}

/// The clock reading the service keeps: the whole milliseconds elapsed since the
/// Unix epoch, or 0 for a clock that lies before the epoch (`None`).
pub fn millis_or_zero(elapsed: Option<u128>) -> (m: u128)
    ensures
        m == match elapsed {
            Some(ms) => ms,
            None => 0,
        },
{
    match elapsed {
        Some(ms) => ms,
        None => 0,
    }
}

/// Milliseconds since the Unix epoch, or 0 when the clock lies before it. What the
/// clock reads is not stated; `millis_or_zero` states what is made of it.
pub fn now_ms() -> u128 {
    let now = system_now();
    let elapsed = match since_unix_epoch(&now) {
        Ok(d) => Some(whole_millis(&d)),
        Err(_) => None,
    };
    millis_or_zero(elapsed)
}

} // verus!
