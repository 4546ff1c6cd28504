//! Whether a failed attempt is made again, and after what pause.

use vstd::prelude::*;
use crate::error::Error;

verus! {

/// What follows a failed attempt.
#[derive(Debug)]
pub enum RetryPolicy {
    /// Try again after so many milliseconds.
    WaitRetry(u64),
    /// Give up, with the failure.
    ForwardError(Error),
}

/// Counts the attempts at one piece of work.
pub struct IoHandler<D> {
    pub max_attempts: usize,
    pub current_attempt: usize,
    pub display_name: D,
}

/// The pause after a failure of the transport or of a check.
pub const RETRY_WAIT_MSEC: u64 = 1000;

/// The pause after the server asked for fewer requests.
pub const TOO_MANY_REQUESTS_WAIT_MSEC: u64 = 30000;

/// The pause after the server failed.
pub const SERVER_ERROR_WAIT_MSEC: u64 = 60000;

/// A failure that may pass with another attempt: the transport failed, or
/// what arrived was not what was expected.
pub open spec fn is_transient(e: Error) -> bool {
    e is Network || e is ChecksumError || e is LengthMismatch
}

/// What follows the failure `e` of the attempt `current_attempt` where
/// `max_attempts` are allowed: a transient failure is tried again until the
/// attempts are used up, a status 429 or 5xx is always tried again, and
/// everything else is given up.
pub open spec fn retry_decision(
    max_attempts: usize,
    current_attempt: usize,
    e: Error,
) -> RetryPolicy {
    if is_transient(e) {
        if current_attempt > max_attempts {
            RetryPolicy::ForwardError(e)
        } else {
            RetryPolicy::WaitRetry(RETRY_WAIT_MSEC)
        }
    } else if e matches Error::HTTPError(status) && status == 429 {
        RetryPolicy::WaitRetry(TOO_MANY_REQUESTS_WAIT_MSEC)
    } else if e matches Error::HTTPError(status) && 500 <= status <= 599 {
        RetryPolicy::WaitRetry(SERVER_ERROR_WAIT_MSEC)
    } else {
        RetryPolicy::ForwardError(e)
    }
}

impl<D> IoHandler<D> {
    pub fn new(max_attempts: usize, display_name: D) -> (handler: Self)
        ensures
            handler.max_attempts == max_attempts,
            handler.current_attempt == 0,
            handler.display_name == display_name,
    {
        IoHandler { max_attempts, current_attempt: 0, display_name }
    }

    /// The pause before the next attempt, in milliseconds. It grows with
    /// the attempts by less than a thousandth of a millisecond in all, so in
    /// whole milliseconds it is always the same.
    pub fn calculate_wait_duration(&self) -> (msec: u64)
        ensures
            msec == RETRY_WAIT_MSEC,
    {
        RETRY_WAIT_MSEC
    }

    /// Decides what follows a failed attempt.
    pub fn handle(&mut self, current_attempt: usize, e: Error) -> (policy: RetryPolicy)
        ensures
            policy == retry_decision(old(self).max_attempts, current_attempt, e),
            *final(self) == *old(self),
    {
        match e {
            Error::Network(_) | Error::ChecksumError { .. } | Error::LengthMismatch { .. } => {
                if current_attempt > self.max_attempts {
                    RetryPolicy::ForwardError(e)
                } else {
                    RetryPolicy::WaitRetry(self.calculate_wait_duration())
                }
            },
            Error::HTTPError(status) => {
                if status == 429 {
                    RetryPolicy::WaitRetry(TOO_MANY_REQUESTS_WAIT_MSEC)
                } else if 500 <= status && status <= 599 {
                    RetryPolicy::WaitRetry(SERVER_ERROR_WAIT_MSEC)
                } else {
                    RetryPolicy::ForwardError(e)
                }
            },
            _ => RetryPolicy::ForwardError(e),
        }
    }
}

} // verus!
