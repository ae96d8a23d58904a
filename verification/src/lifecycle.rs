//! The single-shot lifecycle: a service variant that answers exactly
//! one request and then ends the process. The decision lives here —
//! whether, and after what delay, an exit should be scheduled once a
//! response has been handed back. The caller performs the scheduling
//! and the exit; the deferred delay gives the transport a window to
//! flush the response before the process dies. Off by default:
//! termination is scheduled only when the controller was built
//! enabled, and never more than once.

use vstd::prelude::*;

verus! {

/// Milliseconds an enabled controller waits before exiting, so the
/// response can reach the client first.
pub const EXIT_DELAY_MS: u64 = 100;

pub struct LifecycleController {
    pub enabled: bool,
    pub exit_scheduled: bool,
}

impl LifecycleController {
    /// A fresh controller; nothing is scheduled yet.
    pub fn new(enabled: bool) -> (r: LifecycleController)
        ensures
            r.enabled == enabled,
            !r.exit_scheduled,
    {
        LifecycleController { enabled, exit_scheduled: false }
    }

    /// Observe that a response has been fully handed to the transport.
    /// Exactly on the first observation of an enabled controller this
    /// asks the caller to schedule process exit after `EXIT_DELAY_MS`
    /// milliseconds; disabled controllers never ask, and no controller
    /// asks twice.
    pub fn on_response_complete(&mut self) -> (r: Option<u64>)
        ensures
            final(self).enabled == old(self).enabled,
            !old(self).enabled ==> r is None && final(self).exit_scheduled == old(
                self,
            ).exit_scheduled,
            old(self).enabled && old(self).exit_scheduled ==> r is None
                && final(self).exit_scheduled,
            old(self).enabled && !old(self).exit_scheduled ==> r == Some(EXIT_DELAY_MS)
                && final(self).exit_scheduled,
    {
        if self.enabled && !self.exit_scheduled {
            self.exit_scheduled = true;
            Some(EXIT_DELAY_MS)
        } else {
            None
        }
    }
}

} // verus!
