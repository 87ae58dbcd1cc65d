//! The clocks the library reads. Each reading depends on when it is taken, so nothing is
//! promised of the values returned here.
use vstd::prelude::*;
use std::time::{Duration, Instant, SystemTime};

verus! {

#[verifier::external_type_specification]
#[verifier::external_body]
pub struct ExInstant(Instant);

#[verifier::external_type_specification]
#[verifier::external_body]
pub struct ExSystemTime(SystemTime);

/// `Instant::now`: the current reading of the monotonic clock.
#[verifier::external_body]
pub(crate) fn instant_now() -> (t: Instant) {
    Instant::now()
}

/// `Instant::saturating_duration_since`: the time from `earlier` to `later`, or zero when
/// `earlier` is the later of the two.
#[verifier::external_body]
pub(crate) fn saturating_elapsed(later: &Instant, earlier: &Instant) -> (d: Duration) {
    later.saturating_duration_since(*earlier)
}

/// `Duration::as_secs`: the whole seconds of a duration.
#[verifier::external_body]
pub(crate) fn whole_secs(d: &Duration) -> (secs: u64) {
    d.as_secs()
}

/// `SystemTime::now`: the current wall-clock time.
#[verifier::external_body]
pub(crate) fn system_now() -> (t: SystemTime) {
    SystemTime::now()
}

/// `SystemTime::duration_since(UNIX_EPOCH)`: the time since the Unix epoch, or `None` when
/// the clock reads earlier than the epoch.
#[verifier::external_body]
pub(crate) fn since_unix_epoch(t: &SystemTime) -> (d: Option<Duration>) {
    t.duration_since(std::time::UNIX_EPOCH).ok()
}

/// `Duration::as_millis`: the whole milliseconds of a duration.
#[verifier::external_body]
pub(crate) fn whole_millis(d: &Duration) -> (ms: u128) {
    d.as_millis()
}

} // verus!
