//! Wall-clock readings and durations from `std::time`.

use vstd::prelude::*;
use std::time::{Duration, SystemTime};

verus! {

#[verifier::external_type_specification]
#[verifier::external_body]
pub struct ExSystemTime(std::time::SystemTime);

/// `SystemTime::now`: the current wall-clock time, of which nothing is
/// promised.
#[verifier::external_body]
pub(crate) fn system_now() -> (r: SystemTime) {
    SystemTime::now()
}

/// `std::time::UNIX_EPOCH`.
#[verifier::external_body]
pub(crate) fn unix_epoch() -> (r: SystemTime) {
    std::time::UNIX_EPOCH
}

/// The time from `earlier` to `later` (`SystemTime::duration_since`),
/// `None` when `earlier` is in fact later: a function of the two times.
pub uninterp spec fn elapsed_since(later: SystemTime, earlier: SystemTime) -> Option<Duration>;

/// `SystemTime::duration_since`, its error (the earlier time is in fact
/// later) read as `None`.
#[verifier::external_body]
pub(crate) fn duration_since(later: SystemTime, earlier: SystemTime) -> (r: Option<Duration>)
    ensures
        r == elapsed_since(later, earlier),
{
    later.duration_since(earlier).ok()
}

/// The largest `Duration::as_nanos`: `u64::MAX` seconds and 999,999,999
/// nanoseconds.
pub open spec fn max_nanos() -> u128 {
    18_446_744_073_709_551_615_999_999_999u128
}

/// The whole nanoseconds of a duration (`Duration::as_nanos`).
pub uninterp spec fn duration_nanos(d: Duration) -> u128;

/// `Duration::as_nanos`, which never exceeds that of `Duration::MAX`.
#[verifier::external_body]
pub(crate) fn nanos_of(d: Duration) -> (r: u128)
    ensures
        r == duration_nanos(d),
        r <= max_nanos(),
{
    d.as_nanos()
}

} // verus!
