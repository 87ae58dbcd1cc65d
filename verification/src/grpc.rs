//! The state behind the gRPC status service.
use vstd::prelude::*;
use std::sync::Arc;
use crate::context::AppContext;
use crate::tools::status::{compute_status_blocking, status_line};

verus! {

/// The status service: holds the shared application context.
pub struct MyAura {
    ctx: Arc<AppContext>,
}

impl MyAura {
    /// A service answering for the given context.
    pub fn new(ctx: Arc<AppContext>) -> (svc: MyAura)
        ensures
            svc.context() == ctx,
    {
        MyAura { ctx }
    }

    /// The context the service answers for.
    pub closed spec fn context(&self) -> Arc<AppContext> {
        self.ctx
    }

    /// The reply to a status request: the status line of the context.
    pub fn status_reply(&self) -> (s: String)
        ensures
            exists|uptime: u64| s@ == status_line(uptime),
    {
        compute_status_blocking(&self.ctx)
    }
}

} // verus!
