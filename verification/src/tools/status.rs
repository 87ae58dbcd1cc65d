//! The status report.
use vstd::prelude::*;
use vstd::string::StringExecFns;
use crate::context::AppContext;
use crate::text::{decimal, push_decimal};

verus! {

/// The status line for an uptime in seconds: `OK uptime=<seconds>s`.
pub open spec fn status_line(uptime: u64) -> Seq<char> {
    "OK uptime="@ + decimal(uptime as nat) + "s"@
}

/// The status line for the given uptime.
pub fn status_text(uptime: u64) -> (s: String)
    ensures
        s@ == status_line(uptime),
{
    let mut s = String::from_str("OK uptime=");
    push_decimal(&mut s, uptime);
    s.append("s");
    s
}

/// Status computation: reports the uptime of the context. It reads the clock, so the
/// caller should run it where blocking is acceptable.
pub fn compute_status_blocking(ctx: &AppContext) -> (s: String)
    ensures
        exists|uptime: u64| s@ == status_line(uptime),
{
    let uptime = ctx.uptime_seconds();
    status_text(uptime)
}

} // verus!
