//! The retry policy of the resilient fetch.
//!
//! A GET is attempted up to a fixed number of times; every transport-level
//! failure is followed by a fixed back-off pause, and once the ceiling is
//! reached the last error is surfaced. The driver performs the actual network
//! I/O; this state machine decides whether another attempt may be made and
//! how long to pause, and is verified never to allow a seventh attempt.
use vstd::prelude::*;

verus! {

/// Total attempts allowed per fetch: five retries after the first attempt.
pub const MAX_ATTEMPTS: u32 = 6;

/// Fixed pause between attempts, in milliseconds.
pub const BACKOFF_MS: u32 = 500;

/// Attempt accounting for one resilient fetch.
pub struct RetryPolicy {
    attempts_made: u32,
}

impl RetryPolicy {
    pub closed spec fn wf(&self) -> bool {
        self.attempts_made <= MAX_ATTEMPTS
    }

    pub closed spec fn attempts_made(&self) -> u32 {
        self.attempts_made
    }

    pub fn new() -> (r: RetryPolicy)
        ensures
            r.wf(),
            r.attempts_made() == 0,
    {
        RetryPolicy { attempts_made: 0 }
    }

    /// May one more attempt be made? If so, it is counted against the
    /// ceiling; if not, the caller must surface the last observed error.
    pub fn try_attempt(&mut self) -> (allowed: bool)
        requires
            old(self).wf(),
        ensures
            final(self).wf(),
            allowed == (old(self).attempts_made() < MAX_ATTEMPTS),
            allowed ==> final(self).attempts_made() == old(self).attempts_made() + 1,
            !allowed ==> *final(self) == *old(self),
    {
        if self.attempts_made < MAX_ATTEMPTS {
            self.attempts_made = self.attempts_made + 1;
            true
        } else {
            false
        }
    }

    /// How long to pause after a failed attempt before the next one.
    pub fn backoff_ms(&self) -> (r: u32)
        ensures
            r == BACKOFF_MS,
    {
        BACKOFF_MS
    }
}

/// Law: the retry policy never admits more than `MAX_ATTEMPTS` attempts in
/// total — in every well-formed state the count of attempts already admitted
/// is at most the ceiling, and once it reaches the ceiling `try_attempt`
/// admits no further attempt.
pub proof fn lemma_retry_ceiling(p: RetryPolicy)
    requires
        p.wf(),
    ensures
        p.attempts_made() <= MAX_ATTEMPTS,
{
}

} // verus!
