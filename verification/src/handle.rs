//! A handle on the running flag of the server, shared between the server
//! loop and whoever may stop it (such as a Ctrl-C handler on another thread).

use vstd::prelude::*;
use std::sync::Arc;
use std::sync::atomic::{AtomicBool, Ordering};

verus! {

/// `Arc::clone` on the shared flag: another pointer to the same flag.
#[verifier::external_body]
fn share_flag(flag: &Arc<AtomicBool>) -> (r: Arc<AtomicBool>)
    ensures
        r == *flag,
{
    Arc::clone(flag)
}

/// A handle on the server's running flag. All handles made from one another
/// share one flag; stopping through any of them stops the server for all.
pub struct ServerHandle {
    running: Arc<AtomicBool>,
}

impl ServerHandle {
    /// Whether two handles share their flag.
    pub closed spec fn shares_flag_with(&self, other: &ServerHandle) -> bool {
        self.running == other.running
    }

    /// A handle on a new flag, set to running.
    pub fn new() -> (h: Self) {
        ServerHandle { running: Arc::new(AtomicBool::new(true)) }
    }

    /// Another handle on the same flag.
    pub fn get_new_handle(&self) -> (h: ServerHandle)
        ensures
            h.shares_flag_with(self),
    {
        ServerHandle { running: share_flag(&self.running) }
    }

    /// Another handle on the same flag.
    pub fn get_handle(&self) -> (h: ServerHandle)
        ensures
            h.shares_flag_with(self),
    {
        self.get_new_handle()
    }

    /// Asks the server to stop.
    pub fn stop(&self) {
        self.running.store(false, Ordering::Relaxed);
    }

    /// Whether the server has not been asked to stop. Another thread may
    /// stop it at any moment, so the answer is only a reading of the flag.
    pub fn is_running(&self) -> (running: bool) {
        self.running.load(Ordering::Relaxed)
    }
}

} // verus!
