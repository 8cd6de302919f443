//! The retry policy for transient storage contention: a bounded number of
//! attempts with exponential backoff, and no retry for any other failure.

use vstd::prelude::*;

verus! {

/// How many times a write that hit a transient lock is retried.
pub const MAX_DB_RETRIES: u32 = 10;

/// The backoff before the first retry, in milliseconds.
pub const RETRY_BASE_DELAY_MS: u64 = 10;

/// What to do after a failed attempt.
#[derive(Clone, Copy, PartialEq, Eq, Structural, Debug)]
pub enum RetryDecision {
    /// Sleep this long, then try again.
    Retry { delay_ms: u64 },
    /// Surface the error to the caller.
    GiveUp,
}

pub open spec fn spec_pow2(n: nat) -> nat
    decreases n,
{
    if n == 0 {
        1
    } else {
        2 * spec_pow2((n - 1) as nat)
    }
}

/// The backoff before retry number `attempt` (counting from zero):
/// the base delay doubled once per earlier attempt.
pub open spec fn spec_retry_delay(attempt: u32) -> u64
    recommends
        attempt < MAX_DB_RETRIES,
{
    (RETRY_BASE_DELAY_MS * spec_pow2(attempt as nat)) as u64
}

proof fn lemma_pow2_positive(n: nat)
    ensures
        spec_pow2(n) >= 1,
    decreases n,
{
    if n > 0 {
        lemma_pow2_positive((n - 1) as nat);
    }
}

proof fn lemma_pow2_mono(m: nat, n: nat)
    requires
        m <= n,
    ensures
        spec_pow2(m) <= spec_pow2(n),
    decreases n,
{
    if m < n {
        lemma_pow2_mono(m, (n - 1) as nat);
        lemma_pow2_positive((n - 1) as nat);
    }
}

/// Doubling powers stay small for the attempts the policy allows.
proof fn lemma_pow2_bound(n: nat)
    requires
        n < 10,
    ensures
        spec_pow2(n) <= 512,
{
    lemma_pow2_mono(n, 9);
    reveal_with_fuel(spec_pow2, 11);
    assert(spec_pow2(9) == 512);
}

/// Decides what a failed attempt leads to: a transient lock failure is
/// retried with exponential backoff until the attempts are used up; any
/// other failure, and any failure after the last attempt, is surfaced.
pub fn retry_decision(attempt: u32, lock_error: bool) -> (r: RetryDecision)
    ensures
        r == (if lock_error && attempt < MAX_DB_RETRIES {
            RetryDecision::Retry { delay_ms: spec_retry_delay(attempt) }
        } else {
            RetryDecision::GiveUp
        }),
{
    if lock_error && attempt < MAX_DB_RETRIES {
        let mut factor: u64 = 1;
        let mut i: u32 = 0;
        proof {
            lemma_pow2_bound(attempt as nat);
        }
        while i < attempt
            invariant
                0 <= i <= attempt,
                attempt < MAX_DB_RETRIES,
                factor == spec_pow2(i as nat),
                factor <= 512,
            decreases attempt - i,
        {
            proof {
                lemma_pow2_bound((i + 1) as nat);
            }
            factor = factor * 2;
            i = i + 1;
        }
        RetryDecision::Retry { delay_ms: RETRY_BASE_DELAY_MS * factor }
    } else {
        RetryDecision::GiveUp
    }
}

/// The backoff strictly grows from one retry to the next: each delay is
/// twice the one before it.
pub proof fn lemma_backoff_increases(attempt: u32)
    requires
        attempt + 1 < MAX_DB_RETRIES,
    ensures
        spec_retry_delay((attempt + 1) as u32) == 2 * spec_retry_delay(attempt),
        spec_retry_delay((attempt + 1) as u32) > spec_retry_delay(attempt),
{
    lemma_pow2_bound(attempt as nat);
    lemma_pow2_bound((attempt + 1) as nat);
    assert(spec_pow2(((attempt + 1) as u32) as nat) == 2 * spec_pow2(attempt as nat));
    assert(spec_pow2(attempt as nat) >= 1) by {
        lemma_pow2_positive(attempt as nat);
    }
}

} // verus!
