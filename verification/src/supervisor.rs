use vstd::prelude::*;

verus! {

// The update supervisor's retry policy.
//
// One logical update request is retried without bound: every failed
// attempt is followed by a wait that doubles each time, capped at
// sixteen seconds. The unverified edge runs the loop and sleeps; the
// policy — when to stop, how long to wait, how the state advances — is
// decided here.

/// The smallest wait between retry attempts, in milliseconds.
pub const INITIAL_WAIT_MS: u64 = 125;

/// The largest wait between retry attempts, in milliseconds.
pub const MAX_WAIT_MS: u64 = 16000;

/// A wait the policy can produce.
pub open spec fn wait_in_range(w: u64) -> bool {
    INITIAL_WAIT_MS <= w <= MAX_WAIT_MS
}

/// The wait after one more failure: doubled, capped at `MAX_WAIT_MS`.
pub open spec fn next_wait(w: u64) -> u64 {
    if 2 * w <= MAX_WAIT_MS {
        (2 * w) as u64
    } else {
        MAX_WAIT_MS
    }
}

/// The retry state of one update request.
pub struct RetryState {
    pub wait_ms: u64,
    pub retries: u64,
}

impl RetryState {
    /// The state is one the policy can reach.
    pub open spec fn wf(&self) -> bool {
        wait_in_range(self.wait_ms)
    }

    /// The state before the first attempt.
    pub fn start() -> (r: RetryState)
        ensures
            r.wait_ms == INITIAL_WAIT_MS,
            r.retries == 0,
            r.wf(),
    {
        RetryState { wait_ms: INITIAL_WAIT_MS, retries: 0 }
    }

    /// The policy after a failed attempt: wait the current wait, then
    /// try again with the wait doubled (capped) and the attempt counted.
    /// The returned wait never leaves the documented range, so the retry
    /// loop never stalls longer than the cap.
    pub fn after_failure(&self) -> (r: (u64, RetryState))
        requires
            self.wf(),
        ensures
            r.0 == self.wait_ms,
            r.1.wait_ms == next_wait(self.wait_ms),
            r.1.retries == if self.retries < u64::MAX { self.retries + 1 } else { self.retries as int },
            r.1.wf(),
            r.0 <= MAX_WAIT_MS,
            r.1.wait_ms >= self.wait_ms,
    {
        let sleep_ms = self.wait_ms;
        let doubled = if self.wait_ms <= MAX_WAIT_MS / 2 {
            self.wait_ms * 2
        } else {
            MAX_WAIT_MS
        };
        let retries = if self.retries < u64::MAX {
            self.retries + 1
        } else {
            self.retries
        };
        (sleep_ms, RetryState { wait_ms: doubled, retries })
    }
}

/// Unbounded retry: the supervisor stops only on success. A failed
/// attempt always yields a next state, whatever the error was.
pub proof fn lemma_retry_never_gives_up(st: RetryState)
    requires
        st.wf(),
    ensures
        wait_in_range(next_wait(st.wait_ms)),
        next_wait(st.wait_ms) >= st.wait_ms,
{
}

} // verus!
