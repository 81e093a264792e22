//! How long a request waits for a key that another request holds.

use vstd::prelude::*;

verus! {

/// The bounded backoff of a request that found its key in flight.
#[derive(Debug, Clone, Copy, PartialEq, Eq, Structural)]
pub struct RetryPolicy {
    /// How often the request asks again before it gives up.
    pub max_retries: u32,
    /// Milliseconds to wait before asking again.
    pub backoff_millis: u64,
}

impl Default for RetryPolicy {
    fn default() -> (policy: RetryPolicy)
        ensures
            policy == (RetryPolicy { max_retries: 10, backoff_millis: 100 }),
    {
        RetryPolicy { max_retries: 10, backoff_millis: 100 }
    }
}

impl RetryPolicy {
    /// The milliseconds to wait before asking again, for a request that
    /// has asked again `retries` times already; nothing once it has to
    /// give up.
    pub fn next_backoff(&self, retries: u32) -> (wait: Option<u64>)
        ensures
            wait == (if retries < self.max_retries {
                Some(self.backoff_millis)
            } else {
                None
            }),
    {
        if retries < self.max_retries {
            Some(self.backoff_millis)
        } else {
            None
        }
    }
}

} // verus!
