//! Heartbeats: the liveness records that every instance appends to the store.

use vstd::prelude::*;

verus! {

/// One liveness record. Heartbeats are appended, never updated.
#[derive(Debug, PartialEq, Eq)]
pub struct Heartbeat {
    /// The identity of the instance that sent it.
    pub server: String,
    /// When it was sent, in seconds since the epoch.
    pub timestamp: i64,
}

impl Clone for Heartbeat {
    fn clone(&self) -> (copy: Heartbeat)
        ensures
            copy == *self,
    {
        Heartbeat { server: self.server.clone(), timestamp: self.timestamp }
    }
}

} // verus!
