use std::time::{Duration, Instant, SystemTime, UNIX_EPOCH};
use vstd::prelude::*;

verus! {

#[verifier::external_type_specification]
#[verifier::external_body]
pub struct ExInstant(Instant);

#[verifier::external_type_specification]
#[verifier::external_body]
pub struct ExSystemTime(SystemTime);

/// `Instant::now`: the current time. What it holds depends on the clock, so nothing is
/// stated of it.
#[verifier::external_body]
pub(crate) fn instant_now() -> Instant {
    Instant::now()
}

/// `Instant::elapsed`: the time passed since `t`. It depends on the clock, so nothing is
/// stated of it.
#[verifier::external_body]
pub(crate) fn instant_elapsed(t: &Instant) -> Duration {
    t.elapsed()
}

/// `Duration::as_secs`: the whole seconds of `d`. A `Duration` is opaque here, so nothing
/// is stated of the result.
#[verifier::external_body]
pub(crate) fn duration_secs(d: &Duration) -> u64 {
    d.as_secs()
}

/// `SystemTime::now`: the wall-clock time. It depends on the clock, so nothing is stated
/// of it.
#[verifier::external_body]
fn system_now() -> SystemTime {
    SystemTime::now()
}

/// `SystemTime::duration_since(UNIX_EPOCH)`: the time since the UNIX epoch, nothing when
/// `t` lies before it. A `SystemTime` is opaque here, so nothing is stated of the result.
#[verifier::external_body]
fn since_unix_epoch(t: &SystemTime) -> Option<Duration> {
    t.duration_since(UNIX_EPOCH).ok()
}

/// The UNIX time in whole seconds, truncated to 32 bits (0 for a clock set before 1970).
pub(crate) fn unix_time_secs() -> u32 {
    match since_unix_epoch(&system_now()) {
        Some(d) => {
            let secs = duration_secs(&d);
            (secs & 0xFFFF_FFFF) as u32
        },
        None => 0,
    }
}

} // verus!
