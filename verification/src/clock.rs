//! The two clocks of the library: wall time for the records, monotonic time
//! for rates and throttling. Nothing is promised of what a clock shows.

use std::time::{Duration, Instant, SystemTime, UNIX_EPOCH};

use vstd::prelude::*;

verus! {

/// A reading of the monotonic clock. Nothing is known of a reading but
/// what the functions of this module measure between two of them.
#[verifier::external_type_specification]
#[verifier::external_body]
pub struct ExInstant(Instant);

/// A reading of the wall clock.
#[verifier::external_type_specification]
#[verifier::external_body]
pub struct ExSystemTime(SystemTime);

/// Reads the wall clock with `SystemTime::now`.
#[verifier::external_body]
fn wall_now() -> (now: SystemTime) {
    SystemTime::now()
}

/// Calls `SystemTime::duration_since` with the Unix epoch: the time since
/// the epoch, or nothing when the clock stands before the epoch.
#[verifier::external_body]
fn since_epoch(now: &SystemTime) -> (elapsed: Option<Duration>) {
    now.duration_since(UNIX_EPOCH).ok()
}

/// Calls `Duration::as_millis`: the whole duration in milliseconds.
#[verifier::external_body]
fn whole_millis(elapsed: &Duration) -> (millis: u128) {
    elapsed.as_millis()
}

/// The wall time in milliseconds since the Unix epoch, or zero when the
/// clock stands before the epoch.
pub(crate) fn current_timestamp() -> (millis: i64) {
    let now = wall_now();
    match since_epoch(&now) {
        Some(elapsed) => {
            let millis = whole_millis(&elapsed);
            #[verifier::truncate]
            (millis as i64)
        },
        None => 0,
    }
}

/// Reads the monotonic clock with `Instant::now`.
#[verifier::external_body]
pub(crate) fn monotonic_now() -> (now: Instant) {
    Instant::now()
}

/// Calls `Instant::duration_since`: the time from `earlier` to `later`, or
/// zero when `earlier` is the later one.
#[verifier::external_body]
pub(crate) fn elapsed_between(later: &Instant, earlier: &Instant) -> (elapsed: Duration) {
    later.duration_since(*earlier)
}

/// Calls `Duration::as_nanos`: the whole duration in nanoseconds.
#[verifier::external_body]
pub(crate) fn whole_nanos(elapsed: &Duration) -> (nanos: u128) {
    elapsed.as_nanos()
}

/// The nanoseconds that passed from `earlier` to `later`.
pub(crate) fn nanos_between(later: &Instant, earlier: &Instant) -> (nanos: u128) {
    let elapsed = elapsed_between(later, earlier);
    whole_nanos(&elapsed)
}

/// The nanoseconds that the monotonic clock has counted since `epoch`.
pub(crate) fn nanos_since(epoch: &Instant) -> (nanos: u128) {
    let now = monotonic_now();
    nanos_between(&now, epoch)
}

} // verus!
