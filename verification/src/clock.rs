//! The wall clock, read as nanoseconds since the Unix epoch.
//!
//! Nothing is known of what the clock says except the range a [`Duration`] can
//! express; the protocol's logic takes the reading as an argument, so that it is
//! verified for every value the clock could give.

use std::time::{Duration, SystemTime, UNIX_EPOCH};
use vstd::prelude::*;

verus! {

#[verifier::external_type_specification]
#[verifier::external_body]
pub struct ExSystemTime(SystemTime);

/// One more than the largest number of nanoseconds a `Duration` can hold
/// (`u64::MAX` seconds and 999,999,999 nanoseconds).
pub open spec fn clock_limit() -> u128 {
    18_446_744_073_709_551_616_000_000_000
}

/// Calls `SystemTime::now`. Nothing is claimed of the instant it returns.
#[verifier::external_body]
fn system_time_now() -> SystemTime {
    SystemTime::now()
}

/// Calls `SystemTime::duration_since` with the Unix epoch, giving a zero duration
/// when the instant lies before the epoch (the error case). Nothing is claimed of
/// the duration.
#[verifier::external_body]
fn since_unix_epoch(t: &SystemTime) -> Duration {
    t.duration_since(UNIX_EPOCH).unwrap_or_default()
}

/// Calls `Duration::as_nanos`. Claimed: the count is below [`clock_limit`], as the
/// documented range of `Duration` (whole seconds in a `u64`, fewer than a billion
/// nanoseconds beside them) implies.
#[verifier::external_body]
fn duration_as_nanos(d: &Duration) -> (r: u128)
    ensures
        r < clock_limit(),
{
    d.as_nanos()
}

/// The current time in nanoseconds since the Unix epoch (0 if the clock reads earlier).
pub fn now_nanos() -> (r: u128)
    ensures
        r < clock_limit(),
{
    let t = system_time_now();
    let d = since_unix_epoch(&t);
    duration_as_nanos(&d)
}

} // verus!
