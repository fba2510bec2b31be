use std::sync::atomic::{AtomicBool, Ordering};
use std::sync::Arc;

use vstd::prelude::*;

verus! {

/// Tells a loop whether it is to stop.
#[derive(Clone, Debug)]
pub struct StopToken {
    /// Shared with the handle; `None` where there is no handle.
    flag: Option<Arc<AtomicBool>>,
}

impl StopToken {
    /// The flag that the token watches, if anyone can raise it.
    pub closed spec fn flag_spec(&self) -> Option<Arc<AtomicBool>> {
        self.flag
    }

    /// A token, and the handle that stops its holders.
    pub fn new() -> (r: (Self, StopHandle))
        ensures
            r.0.flag_spec() == Some(r.1.flag_spec()),
    {
        let flag = Arc::new(AtomicBool::new(false));
        (StopToken { flag: Some(Arc::clone(&flag)) }, StopHandle { flag })
    }

    /// Whether the loop is to stop; never without a handle.  When a handle's
    /// flag is up is not stated: other threads raise it.
    pub fn is_stopped(&self) -> (r: bool)
        ensures
            r ==> self.flag_spec() is Some,
    {
        match &self.flag {
            Some(flag) => flag.load(Ordering::Acquire),
            None => false,
        }
    }
}

impl Default for StopToken {
    /// A token that is never stopped.
    fn default() -> (r: Self)
        ensures
            r.flag_spec() is None,
    {
        StopToken { flag: None }
    }
}

/// Stops the holders of a token.
#[derive(Debug)]
pub struct StopHandle {
    flag: Arc<AtomicBool>,
}

impl StopHandle {
    pub closed spec fn flag_spec(&self) -> Arc<AtomicBool> {
        self.flag
    }

    pub fn stop(&self) {
        self.flag.store(true, Ordering::Release);
    }
}

} // verus!
