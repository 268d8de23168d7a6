//! When to try again to reach a plugin that does not answer yet.
//!
//! The handler of a plugin connects, waits and connects again; what it does after
//! a failed attempt is decided here.

use vstd::arithmetic::power::{lemma_pow0, pow};
use vstd::prelude::*;

verus! {

/// The number of repeated attempts to connect after which a failure is final.
pub const MAX_RETRIES: u32 = 5;

/// The time in seconds that a plugin is given to answer a request to shut down.
pub const SHUTDOWN_TIMEOUT_SECS: u64 = 30;

/// What to do after an attempt to connect has failed.
#[derive(Clone, Copy, Debug, PartialEq, Eq, Structural)]
pub enum RetryDecision {
    /// Wait for `secs` seconds and try again; `retries` attempts will then have
    /// been made again.
    RetryAfter {
        /// The seconds to wait.
        secs: u64,
        /// The number of attempts made again once this one is made.
        retries: u32,
    },
    /// Try no more, and report the failure.
    GiveUp,
}

/// The seconds to wait before the attempt that follows `retries` repeated ones:
/// five to the power of `retries`.
pub open spec fn retry_delay(retries: u32) -> int {
    pow(5, retries as nat)
}

/// What follows a failed attempt after `retries` repeated ones.
pub open spec fn retry_decision(retries: u32) -> RetryDecision {
    if retries >= MAX_RETRIES {
        RetryDecision::GiveUp
    } else {
        RetryDecision::RetryAfter { secs: retry_delay(retries) as u64, retries: (retries + 1) as u32 }
    }
}

/// The waits grow from one second to 625, and fit the type of the seconds.
pub proof fn lemma_retry_delays()
    ensures
        retry_delay(0) == 1,
        retry_delay(1) == 5,
        retry_delay(2) == 25,
        retry_delay(3) == 125,
        retry_delay(4) == 625,
{
    reveal(pow);
    assert(pow(5, 0) == 1) by {
        lemma_pow0(5);
    }
    assert(pow(5, 1) == 5 * pow(5, 0));
    assert(pow(5, 2) == 5 * pow(5, 1));
    assert(pow(5, 3) == 5 * pow(5, 2));
    assert(pow(5, 4) == 5 * pow(5, 3));
}

/// Decides what follows a failed attempt to connect after `retries` repeated
/// ones.
pub fn after_failed_connect(retries: u32) -> (decision: RetryDecision)
    ensures
        decision == retry_decision(retries),
{
    if retries >= MAX_RETRIES {
        return RetryDecision::GiveUp;
    }
    proof {
        lemma_retry_delays();
    }
    let mut secs: u64 = 1;
    let mut i: u32 = 0;
    while i < retries
        invariant
            i <= retries < 5,
            secs == retry_delay(i),
            secs <= 625,
            retry_delay(0) == 1,
            retry_delay(1) == 5,
            retry_delay(2) == 25,
            retry_delay(3) == 125,
            retry_delay(4) == 625,
        decreases retries - i,
    {
        secs = secs * 5;
        i += 1;
    }
    RetryDecision::RetryAfter { secs, retries: retries + 1 }
}

/// After five repeated attempts the next failure is final; until then each
/// failure is followed by a wait five times as long as the one before.
pub proof fn lemma_retry_schedule(retries: u32)
    ensures
        retry_decision(retries) is GiveUp <==> retries >= 5,
        retries < 4 ==> retry_delay((retries + 1) as u32) == 5 * retry_delay(retries),
{
    lemma_retry_delays();
}

} // verus!
