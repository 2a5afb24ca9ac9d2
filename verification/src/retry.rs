//! The catalog client's retry policy: a fixed schedule of up to three
//! attempts, an explicit classification of each attempt's outcome into
//! retry / fail-fast / success, and the backoff delay between attempts.
//! The transport loop performs the attempts and sleeps; every decision
//! is taken here.

use vstd::prelude::*;
use crate::model::TmdbErr;

verus! {

/// What one attempt of a remote call came back with, as the policy
/// sees it: a transport-level failure (connection or timeout), or an
/// HTTP status code.
#[derive(Clone, Copy, Debug, PartialEq, Eq, Structural)]
pub enum AttemptOutcome {
    TransportFailure,
    Status(u16),
}

/// How one outcome is classified: deliverable success, a condition
/// worth retrying, or one that fails fast.
#[derive(Clone, Copy, Debug, PartialEq, Eq, Structural)]
pub enum Classified {
    Success,
    Retryable(TmdbErr),
    FailFast(TmdbErr),
}

/// The classification rule: transport failures, 429 and any 5xx are
/// retryable; 200 succeeds; 401, 403, 404 and every other status fail
/// fast with their own error kind.
pub open spec fn spec_classify(o: AttemptOutcome) -> Classified {
    match o {
        AttemptOutcome::TransportFailure => Classified::Retryable(TmdbErr::Net),
        AttemptOutcome::Status(s) => if s == 200 {
            Classified::Success
        } else if s == 429 {
            Classified::Retryable(TmdbErr::RateLimited)
        } else if s == 401 {
            Classified::FailFast(TmdbErr::Auth)
        } else if s == 403 {
            Classified::FailFast(TmdbErr::Forbidden)
        } else if s == 404 {
            Classified::FailFast(TmdbErr::NotFound)
        } else if 500 <= s && s <= 599 {
            Classified::Retryable(TmdbErr::Server(s))
        } else {
            Classified::FailFast(TmdbErr::Unexpected(s))
        },
    }
}

/// Classifies one attempt's outcome.
pub fn classify(o: AttemptOutcome) -> (r: Classified)
    ensures
        r == spec_classify(o),
{
    match o {
        AttemptOutcome::TransportFailure => Classified::Retryable(TmdbErr::Net),
        AttemptOutcome::Status(s) => {
            if s == 200 {
                Classified::Success
            } else if s == 429 {
                Classified::Retryable(TmdbErr::RateLimited)
            } else if s == 401 {
                Classified::FailFast(TmdbErr::Auth)
            } else if s == 403 {
                Classified::FailFast(TmdbErr::Forbidden)
            } else if s == 404 {
                Classified::FailFast(TmdbErr::NotFound)
            } else if 500 <= s && s <= 599 {
                Classified::Retryable(TmdbErr::Server(s))
            } else {
                Classified::FailFast(TmdbErr::Unexpected(s))
            }
        },
    }
}

/// The most attempts one remote call may make.
pub const MAX_ATTEMPTS: u8 = 3;

/// The fixed backoff schedule, in milliseconds: the delay taken after
/// the given attempt fails with a retryable condition.
pub open spec fn spec_backoff_ms(attempt: u8) -> u64 {
    if attempt == 1 {
        300
    } else if attempt == 2 {
        800
    } else {
        1500
    }
}

/// The backoff delay after the given attempt, in milliseconds.
pub fn backoff_ms(attempt: u8) -> (r: u64)
    ensures
        r == spec_backoff_ms(attempt),
{
    if attempt == 1 {
        300
    } else if attempt == 2 {
        800
    } else {
        1500
    }
}

/// What the transport loop must do after one attempt's outcome.
#[derive(Clone, Copy, Debug, PartialEq, Eq, Structural)]
pub enum RetryDecision {
    /// The attempt succeeded: deliver its response.
    Deliver,
    /// Sleep this many milliseconds, then make the next attempt.
    SleepThenRetry(u64),
    /// Surface this error now.
    Surface(TmdbErr),
}

/// The whole policy for one attempt: success delivers; a fail-fast
/// condition surfaces at once, whatever the attempt number; a
/// retryable condition retries after the scheduled backoff until the
/// attempts are exhausted, then surfaces the last condition's error.
pub open spec fn spec_retry_step(attempt: u8, o: AttemptOutcome) -> RetryDecision {
    match spec_classify(o) {
        Classified::Success => RetryDecision::Deliver,
        Classified::FailFast(e) => RetryDecision::Surface(e),
        Classified::Retryable(e) => if attempt < MAX_ATTEMPTS {
            RetryDecision::SleepThenRetry(spec_backoff_ms(attempt))
        } else {
            RetryDecision::Surface(e)
        },
    }
}

/// Decides what to do after attempt number `attempt` (counted from 1)
/// came back with `o`.
pub fn retry_step(attempt: u8, o: AttemptOutcome) -> (r: RetryDecision)
    requires
        1 <= attempt <= MAX_ATTEMPTS,
    ensures
        r == spec_retry_step(attempt, o),
{
    match classify(o) {
        Classified::Success => RetryDecision::Deliver,
        Classified::FailFast(e) => RetryDecision::Surface(e),
        Classified::Retryable(e) => {
            if attempt < MAX_ATTEMPTS {
                RetryDecision::SleepThenRetry(backoff_ms(attempt))
            } else {
                RetryDecision::Surface(e)
            }
        },
    }
}

/// A call that fails with a server error on the first two attempts and
/// succeeds on the third delivers the success and incurs exactly the
/// two scheduled backoff delays, 300 ms then 800 ms.
pub proof fn lemma_retry_two_server_errors_then_success(code: u16)
    requires
        500 <= code <= 599,
    ensures
        spec_retry_step(1, AttemptOutcome::Status(code)) == RetryDecision::SleepThenRetry(300u64),
        spec_retry_step(2, AttemptOutcome::Status(code)) == RetryDecision::SleepThenRetry(800u64),
        spec_retry_step(3, AttemptOutcome::Status(200)) == RetryDecision::Deliver,
{
}

/// A bad credential is never retried: a 401 surfaces immediately on
/// any attempt.
pub proof fn lemma_auth_fails_immediately(attempt: u8)
    ensures
        spec_retry_step(attempt, AttemptOutcome::Status(401)) == RetryDecision::Surface(
            TmdbErr::Auth,
        ),
{
}

} // verus!
