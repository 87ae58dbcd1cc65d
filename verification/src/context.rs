//! The application context shared by the control surfaces.
use vstd::prelude::*;
use std::time::Instant;
use crate::clock::{instant_now, saturating_elapsed, whole_secs};

verus! {

/// What the running application knows about itself: when it started.
pub struct AppContext {
    start: Instant,
}

impl AppContext {
    /// A context that starts now.
    pub fn new() -> (ctx: AppContext) {
        AppContext { start: instant_now() }
    }

    /// Whole seconds since the context was created (zero if the clock reads earlier).
    pub fn uptime_seconds(&self) -> (secs: u64) {
        let d = saturating_elapsed(&instant_now(), &self.start);
        whole_secs(&d)
    }
}

} // verus!
