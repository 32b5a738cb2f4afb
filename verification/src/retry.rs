//! Retry policy of the optimistic-concurrency loops.
//!
//! A version conflict is transient: the loser re-reads and tries again after
//! a short randomized delay, which de-correlates retry storms under
//! contention. The budget is bounded so a request cannot hang: after
//! `MAX_ATTEMPTS` conflicting attempts the engine surfaces the conflict to
//! the caller instead of retrying further.

use rand::Rng;
use vstd::prelude::*;

verus! {

/// How many times an allocator attempts its version-gated update before
/// giving up on the request.
pub const MAX_ATTEMPTS: u32 = 3;

/// The smallest backoff delay, in milliseconds.
pub const BACKOFF_MIN_MILLIS: u64 = 1;

/// The largest backoff delay, in milliseconds.
pub const BACKOFF_MAX_MILLIS: u64 = 50;

/// Draws the jittered delay to wait before the next attempt.
///
/// Relies on `rand::Rng::gen_range` over the thread-local generator: the
/// draw is uniform over the inclusive range it is given and nothing else is
/// promised of it.
#[verifier::external_body]
pub fn backoff_millis() -> (d: u64)
    ensures
        BACKOFF_MIN_MILLIS <= d <= BACKOFF_MAX_MILLIS,
{
    rand::thread_rng().gen_range(BACKOFF_MIN_MILLIS..=BACKOFF_MAX_MILLIS)
}

} // verus!
