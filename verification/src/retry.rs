//! The retry policy: bounded exponential backoff around request
//! attempts. A transport failure or a server error (5xx) is retried up
//! to three attempts with delays of 500 ms then 1000 ms; any other
//! response is returned at once.

use vstd::prelude::*;
use crate::errors::ClientError;

verus! {

/// Maximum number of attempts for one request.
pub const MAX_RETRY_ATTEMPTS: u32 = 3;

/// Base delay of the backoff schedule, in milliseconds.
pub const BASE_RETRY_DELAY_MS: u64 = 500;

/// What one attempt produced: a transport-level failure with its cause,
/// or a response with status code and body.
#[derive(Debug)]
pub enum AttemptOutcome {
    Failure(String),
    Response(u16, String),
}

/// Whether an outcome is transient and worth retrying: any transport
/// failure, and any server-error (5xx) status.
pub open spec fn retryable(o: AttemptOutcome) -> bool {
    match o {
        AttemptOutcome::Failure(_) => true,
        AttemptOutcome::Response(st, _) => 500 <= st && st <= 599,
    }
}

/// The error under which a retryable outcome is reported when attempts
/// run out.
pub open spec fn error_of(o: AttemptOutcome) -> ClientError {
    match o {
        AttemptOutcome::Failure(m) => ClientError::RequestFailed(m),
        AttemptOutcome::Response(st, body) => ClientError::ServerError(st, body),
    }
}

/// The delay slept after the given failed attempt, before the next one:
/// the base delay, doubled for each further attempt.
pub open spec fn retry_delay_ms(attempt: int) -> u64 {
    if attempt <= 1 {
        BASE_RETRY_DELAY_MS
    } else {
        (2 * BASE_RETRY_DELAY_MS) as u64
    }
}

/// What the policy does after an attempt.
#[derive(Debug)]
pub enum RetryDecision {
    /// Return this response to the caller.
    Accept(u16, String),
    /// Sleep this many milliseconds, then try again.
    RetryAfter(u64),
    /// Attempts are exhausted; report this error.
    GiveUp(ClientError),
}

/// Decides what to do after attempt number `attempts_made` (1-based)
/// produced `outcome`.
pub fn decide_after_attempt(attempts_made: u32, outcome: AttemptOutcome) -> (r: RetryDecision)
    requires
        1 <= attempts_made <= MAX_RETRY_ATTEMPTS,
    ensures
        match r {
            RetryDecision::Accept(st, body) => !retryable(outcome) && outcome
                == AttemptOutcome::Response(st, body),
            RetryDecision::RetryAfter(d) => retryable(outcome) && attempts_made
                < MAX_RETRY_ATTEMPTS && d == retry_delay_ms(attempts_made as int),
            RetryDecision::GiveUp(e) => retryable(outcome) && attempts_made == MAX_RETRY_ATTEMPTS
                && e == error_of(outcome),
        },
{
    match outcome {
        AttemptOutcome::Response(st, body) => {
            if st < 500 || st > 599 {
                RetryDecision::Accept(st, body)
            } else if attempts_made < MAX_RETRY_ATTEMPTS {
                RetryDecision::RetryAfter(
                    if attempts_made <= 1 {
                        BASE_RETRY_DELAY_MS
                    } else {
                        2 * BASE_RETRY_DELAY_MS
                    },
                )
            } else {
                RetryDecision::GiveUp(ClientError::ServerError(st, body))
            }
        },
        AttemptOutcome::Failure(m) => {
            if attempts_made < MAX_RETRY_ATTEMPTS {
                RetryDecision::RetryAfter(
                    if attempts_made <= 1 {
                        BASE_RETRY_DELAY_MS
                    } else {
                        2 * BASE_RETRY_DELAY_MS
                    },
                )
            } else {
                RetryDecision::GiveUp(ClientError::RequestFailed(m))
            }
        },
    }
}

/// How many attempts a run makes, given the outcome each attempt would
/// produce: it stops at the first non-retryable outcome, and never makes
/// more than three attempts nor more than outcomes are given.
pub open spec fn spec_attempts(os: Seq<AttemptOutcome>) -> int {
    if os.len() >= 1 && !retryable(os[0]) {
        1
    } else if os.len() == 1 {
        1
    } else if os.len() >= 2 && !retryable(os[1]) {
        2
    } else if os.len() == 2 {
        2
    } else if os.len() >= 3 {
        3
    } else {
        0
    }
}

/// The trace of one request run under the retry policy.
#[derive(Debug)]
pub struct RetryRun {
    /// How many attempts were made.
    pub attempts: usize,
    /// The delays slept between attempts, in order.
    pub delays: Vec<u64>,
    /// The accepted status and body, or the error of the last attempt.
    pub result: Result<(u16, String), ClientError>,
}

/// Runs the retry policy against a pre-determined sequence of attempt
/// outcomes, consuming one per attempt. This is the policy of
/// `send_request_with_retry` with the transport factored out.
#[verifier::loop_isolation(false)]
pub fn run_with_outcomes(outcomes: Vec<AttemptOutcome>) -> (r: RetryRun)
    ensures
        r.attempts == spec_attempts(outcomes@),
        r.delays@.len() == if r.attempts == 0 {
            0int
        } else {
            r.attempts - 1
        },
        forall|j: int| 0 <= j < r.delays@.len() ==> r.delays@[j] == retry_delay_ms(j + 1),
        match r.result {
            Ok(p) => r.attempts >= 1 && outcomes@[r.attempts - 1] == AttemptOutcome::Response(
                p.0,
                p.1,
            ) && !retryable(outcomes@[r.attempts - 1]),
            Err(e) => (r.attempts == 0 && outcomes@.len() == 0) || (r.attempts >= 1 && retryable(
                outcomes@[r.attempts - 1],
            ) && e == error_of(outcomes@[r.attempts - 1])),
        },
{
    let ghost orig = outcomes@;
    let mut outcomes = outcomes;
    let mut attempts: usize = 0;
    let mut delays: Vec<u64> = Vec::new();
    let mut last_error: Option<ClientError> = None;
    loop
        invariant
            attempts <= 3,
            outcomes@ == orig.subrange(attempts as int, orig.len() as int),
            attempts < 3 ==> attempts == orig.len() - outcomes@.len(),
            attempts as int + outcomes@.len() == orig.len(),
            forall|k: int| 0 <= k < attempts ==> retryable(#[trigger] orig[k]),
            delays@.len() == if attempts == 0 {
                0int
            } else {
                attempts - 1
            },
            forall|j: int| 0 <= j < delays@.len() ==> delays@[j] == retry_delay_ms(j + 1),
            match last_error {
                Some(e) => attempts >= 1 && e == error_of(orig[attempts - 1]),
                None => attempts == 0,
            },
        decreases 3 - attempts,
    {
        if attempts >= 3 || outcomes.len() == 0 {
            break ;
        }
        if attempts > 0 {
            delays.push(
                if attempts <= 1 {
                    BASE_RETRY_DELAY_MS
                } else {
                    2 * BASE_RETRY_DELAY_MS
                },
            );
        }
        let o = outcomes.remove(0);
        proof {
            assert(o == orig[attempts as int]);
            assert(outcomes@ =~= orig.subrange(attempts as int + 1, orig.len() as int));
        }
        attempts = attempts + 1;
        match o {
            AttemptOutcome::Response(st, body) => {
                if st < 500 || st > 599 {
                    proof {
                        assert(spec_attempts(orig) == attempts);
                    }
                    return RetryRun { attempts, delays, result: Ok((st, body)) };
                }
                last_error = Some(ClientError::ServerError(st, body));
            },
            AttemptOutcome::Failure(m) => {
                last_error = Some(ClientError::RequestFailed(m));
            },
        }
    }
    proof {
        assert(spec_attempts(orig) == attempts);
    }
    match last_error {
        Some(e) => RetryRun { attempts, delays, result: Err(e) },
        None => RetryRun {
            attempts,
            delays,
            result: Err(ClientError::RequestFailed("no attempt was made".to_owned())),
        },
    }
}

} // verus!
