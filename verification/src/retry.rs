//! The bounded-retry pattern used by delegated acquisition work: a fixed
//! attempt ceiling with a fixed inter-attempt delay, decided here as plain
//! data so the surrounding loop can be driven from outside.

use vstd::prelude::*;

verus! {

/// A retry budget: how many attempts one work item gets, and how long to
/// wait between attempts.
#[derive(Clone, Copy)]
pub struct RetryPolicy {
    pub max_attempts: u32,
    pub delay_ms: u64,
}

/// What to do after a failed attempt: wait and try again, or give the item
/// up.
#[derive(Clone, Copy, PartialEq, Eq, Structural, Debug)]
pub enum RetryDecision {
    Retry { delay_ms: u64 },
    GiveUp,
}

impl RetryPolicy {
    /// Plain constructor; both fields are kept as given.
    pub fn new(max_attempts: u32, delay_ms: u64) -> (r: Self)
        ensures
            r.max_attempts == max_attempts,
            r.delay_ms == delay_ms,
    {
        Self { max_attempts, delay_ms }
    }

    /// Decides after the failed attempt numbered `attempt` (counting from
    /// one): retry with the fixed delay while the ceiling is not reached,
    /// give up at the ceiling.
    pub fn after_failure(&self, attempt: u32) -> (r: RetryDecision)
        ensures
            attempt < self.max_attempts ==> r == (RetryDecision::Retry {
                delay_ms: self.delay_ms,
            }),
            attempt >= self.max_attempts ==> r == RetryDecision::GiveUp,
    {
        if attempt < self.max_attempts {
            RetryDecision::Retry { delay_ms: self.delay_ms }
        } else {
            RetryDecision::GiveUp
        }
    }
}

} // verus!
