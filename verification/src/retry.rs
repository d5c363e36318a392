//! The bounded retry policy for window discovery.
//!
//! Process creation and window creation are not atomic: a freshly spawned
//! application's main window may take a while to appear.  The policy polls
//! for it with a fixed sleep between attempts, up to a bounded attempt
//! count — an explicit, observable timeout instead of an unbounded wait.
//! The polling and sleeping happen outside; this module decides, after
//! each poll, whether to accept, retry or give up, and states what a whole
//! run returns for any sequence of poll results.

use vstd::prelude::*;

use crate::windowing::DiscoveryError;

verus! {

/// What to do after one poll: accept the window it found, sleep for the
/// configured interval and poll again, or give up.
#[derive(Clone, Copy, Debug, PartialEq, Eq, Structural)]
pub enum RetryDecision {
    /// The poll found a window; discovery is over.
    Found(u64),
    /// Nothing yet, but attempts remain: sleep, then poll again.
    RetryAfterDelay,
    /// Nothing, and the attempt budget is spent: report a timeout.
    GiveUp,
}

/// Decides what follows one poll.  `attempts_made` counts the polls
/// completed before this one, so the poll just performed is attempt
/// `attempts_made + 1`; a successful poll always wins, and a failed one
/// retries exactly while attempts remain.
pub fn retry_step(attempts_made: usize, max_attempts: usize, poll: Option<u64>) -> (d:
    RetryDecision)
    requires
        attempts_made < max_attempts,
    ensures
        match poll {
            Some(h) => d == RetryDecision::Found(h),
            None => if attempts_made + 1 < max_attempts {
                d == RetryDecision::RetryAfterDelay
            } else {
                d == RetryDecision::GiveUp
            },
        },
{
    match poll {
        Some(h) => RetryDecision::Found(h),
        None => {
            if attempts_made + 1 < max_attempts {
                RetryDecision::RetryAfterDelay
            } else {
                RetryDecision::GiveUp
            }
        },
    }
}

/// Poll `k` is the first to find a window.
pub open spec fn first_success_at(polls: Seq<Option<u64>>, k: int) -> bool {
    &&& 0 <= k < polls.len()
    &&& polls[k] is Some
    &&& forall|j: int| 0 <= j < k ==> polls[j] is None
}

/// Runs the whole retry policy against a sequence of poll results —
/// `polls[k]` is what the k-th poll would observe; a poll past the end of
/// the sequence observes nothing.  Returns how many polls were performed
/// and the outcome: the first window found within the attempt budget,
/// after exactly as many attempts as it took, or a timeout after exactly
/// `max_attempts` attempts.
pub fn await_window_from_polls(polls: &Vec<Option<u64>>, max_attempts: usize) -> (r: (
    usize,
    Result<u64, DiscoveryError>,
))
    ensures
        match r.1 {
            Ok(h) => exists|k: int|
                #[trigger] first_success_at(polls@, k) && k < max_attempts && polls@[k] == Some(h)
                    && r.0 == k + 1,
            Err(e) => {
                &&& e == DiscoveryError::WindowDiscoveryTimeout
                &&& r.0 == max_attempts
                &&& forall|k: int| 0 <= k < max_attempts && k < polls@.len() ==> polls@[k] is None
            },
        },
{
    let mut attempts: usize = 0;
    while attempts < max_attempts
        invariant
            attempts <= max_attempts,
            forall|k: int| 0 <= k < attempts && k < polls@.len() ==> polls@[k] is None,
        decreases max_attempts - attempts,
    {
        let poll: Option<u64> = if attempts < polls.len() {
            polls[attempts]
        } else {
            None
        };
        let d = retry_step(attempts, max_attempts, poll);
        attempts = attempts + 1;
        match d {
            RetryDecision::Found(h) => {
                proof {
                    assert(first_success_at(polls@, attempts - 1));
                }
                return (attempts, Ok(h));
            },
            RetryDecision::RetryAfterDelay => {},
            RetryDecision::GiveUp => {
                return (attempts, Err(DiscoveryError::WindowDiscoveryTimeout));
            },
        }
    }
    (attempts, Err(DiscoveryError::WindowDiscoveryTimeout))
}

} // verus!
