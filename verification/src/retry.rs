//! When to ask the vision model again: after a failed request, and after a
//! reply that does not hold up. Whoever runs the requests hands each
//! outcome in and is told what to do next.

use crate::fen::{
    corrected_fen, count_fault, fen_syntax_fault, validate_fen, validated, FenError, FenFault,
};
use crate::vision::ApiError;
use vstd::prelude::*;

verus! {

/// How often a failed request is sent again.
pub const MAX_API_RETRIES: u32 = 2;

/// How often the model is asked again after a reply that is no valid
/// position.
pub const MAX_VALIDATION_RETRIES: u32 = 2;

/// How long to wait before sending a failed request again, in
/// milliseconds.
pub const API_BACKOFF_MS: u64 = 500;

/// How long to wait before asking again after an invalid reply, in
/// milliseconds.
pub const VALIDATION_BACKOFF_MS: u64 = 300;

/// How long one request may take, in seconds.
pub const TIMEOUT_SECS: u64 = 30;

/// How often to try again, and how long to wait in between.
#[derive(Clone, Copy, Debug, PartialEq, Eq, Structural)]
pub struct RetryPolicy {
    pub max_retries: u32,
    pub backoff_ms: u64,
}

/// What to do after a failure.
#[derive(Clone, Copy, Debug, PartialEq, Eq, Structural)]
pub enum Verdict {
    /// Try again after that many milliseconds.
    RetryAfter(u64),
    /// Stop, and report the failure.
    GiveUp,
}

/// Why no position was recognized.
#[derive(Debug)]
pub enum RecognitionFailed {
    /// The service could not be reached, or did not answer properly.
    Transport(ApiError),
    /// The last reply was not a valid position.
    Validation(FenError),
}

/// What to do next while a position is being recognized.
#[derive(Debug)]
pub enum Action {
    /// Send the request after that many milliseconds.
    Send { delay_ms: u64 },
    /// The position is recognized.
    Accept(String),
    /// Nothing more is tried.
    Fail(RecognitionFailed),
}

/// How far the recognition of one position has come.
#[derive(Clone, Copy, Debug, PartialEq, Eq, Structural)]
pub struct FenRecognition {
    /// Failed requests since the last reply.
    pub api_failures: u32,
    /// Replies that were no valid position.
    pub validation_failures: u32,
}

/// What to do next while a move recommendation is being fetched.
#[derive(Debug)]
pub enum MoveAction {
    /// Send the request after that many milliseconds.
    Send { delay_ms: u64 },
    /// Nothing more is tried.
    Fail(ApiError),
}

/// The policy for failed requests.
pub open spec fn api_policy() -> RetryPolicy {
    RetryPolicy { max_retries: MAX_API_RETRIES, backoff_ms: API_BACKOFF_MS }
}

/// The policy for replies that are no valid position.
pub open spec fn validation_policy() -> RetryPolicy {
    RetryPolicy { max_retries: MAX_VALIDATION_RETRIES, backoff_ms: VALIDATION_BACKOFF_MS }
}

impl RetryPolicy {
    /// What the policy says after a failure that `failures_before` others
    /// came before.
    pub open spec fn verdict(self, failures_before: u32) -> Verdict {
        if failures_before < self.max_retries {
            Verdict::RetryAfter(self.backoff_ms)
        } else {
            Verdict::GiveUp
        }
    }

    /// The policy for failed requests.
    pub fn for_api() -> (policy: RetryPolicy)
        ensures
            policy == api_policy(),
    {
        RetryPolicy { max_retries: MAX_API_RETRIES, backoff_ms: API_BACKOFF_MS }
    }

    /// The policy for replies that are no valid position.
    pub fn for_validation() -> (policy: RetryPolicy)
        ensures
            policy == validation_policy(),
    {
        RetryPolicy { max_retries: MAX_VALIDATION_RETRIES, backoff_ms: VALIDATION_BACKOFF_MS }
    }

    /// What to do after a failure that `failures_before` others came
    /// before: try again while fewer than `max_retries` did.
    pub fn after_failure(&self, failures_before: u32) -> (verdict: Verdict)
        ensures
            verdict == self.verdict(failures_before),
    {
        if failures_before < self.max_retries {
            Verdict::RetryAfter(self.backoff_ms)
        } else {
            Verdict::GiveUp
        }
    }
}

/// A failed request, taken by itself: whether it is sent again, and how
/// many failures are then on record.
pub fn after_api_failure(failures: u32, error: ApiError) -> (next: (u32, MoveAction))
    ensures
        match next.1 {
            MoveAction::Send { delay_ms } => {
                &&& failures < MAX_API_RETRIES
                &&& delay_ms == API_BACKOFF_MS
                &&& next.0 == failures + 1
            },
            MoveAction::Fail(reported) => {
                &&& failures >= MAX_API_RETRIES
                &&& reported@ == error@
                &&& next.0 == failures
            },
        },
{
    match RetryPolicy::for_api().after_failure(failures) {
        Verdict::RetryAfter(delay_ms) => (failures + 1, MoveAction::Send { delay_ms }),
        Verdict::GiveUp => (failures, MoveAction::Fail(error)),
    }
}

impl FenRecognition {
    /// The state before the first request, which is to be sent at once.
    pub fn start() -> (begun: (FenRecognition, Action))
        ensures
            begun.0 == (FenRecognition { api_failures: 0, validation_failures: 0 }),
            begun.1 matches Action::Send { delay_ms } && delay_ms == 0,
    {
        (FenRecognition { api_failures: 0, validation_failures: 0 }, Action::Send { delay_ms: 0 })
    }

    /// A request failed. It is sent again after a pause, unless
    /// `MAX_API_RETRIES` requests have failed in a row before it: then the
    /// recognition fails with this error.
    pub fn on_transport_error(&mut self, error: ApiError) -> (action: Action)
        ensures
            final(self).validation_failures == old(self).validation_failures,
            match action {
                Action::Send { delay_ms } => {
                    &&& old(self).api_failures < MAX_API_RETRIES
                    &&& delay_ms == API_BACKOFF_MS
                    &&& final(self).api_failures == old(self).api_failures + 1
                },
                Action::Fail(RecognitionFailed::Transport(reported)) => {
                    &&& old(self).api_failures >= MAX_API_RETRIES
                    &&& reported@ == error@
                    &&& final(self).api_failures == old(self).api_failures
                },
                _ => false,
            },
    {
        let (failures, action) = after_api_failure(self.api_failures, error);
        self.api_failures = failures;
        match action {
            MoveAction::Send { delay_ms } => Action::Send { delay_ms },
            MoveAction::Fail(error) => Action::Fail(RecognitionFailed::Transport(error)),
        }
    }

    /// What follows from the outcome of validating a reply: a valid
    /// position is accepted; after an invalid one the model is asked
    /// again after a pause, unless `MAX_VALIDATION_RETRIES` replies were
    /// invalid before it: then the recognition fails with this error.
    /// Either way the count of failed requests starts anew.
    pub fn on_validated(&mut self, outcome: Result<String, FenError>) -> (action: Action)
        ensures
            final(self).api_failures == 0,
            match action {
                Action::Accept(position) => {
                    &&& outcome matches Ok(valid)
                    &&& position@ == valid@
                    &&& final(self).validation_failures == old(self).validation_failures
                },
                Action::Send { delay_ms } => {
                    &&& outcome is Err
                    &&& old(self).validation_failures < MAX_VALIDATION_RETRIES
                    &&& delay_ms == VALIDATION_BACKOFF_MS
                    &&& final(self).validation_failures == old(self).validation_failures + 1
                },
                Action::Fail(RecognitionFailed::Validation(reported)) => {
                    &&& outcome matches Err(error)
                    &&& reported@ == error@
                    &&& old(self).validation_failures >= MAX_VALIDATION_RETRIES
                    &&& final(self).validation_failures == old(self).validation_failures
                },
                _ => false,
            },
    {
        self.api_failures = 0;
        match outcome {
            Ok(position) => Action::Accept(position),
            Err(error) => match RetryPolicy::for_validation().after_failure(
                self.validation_failures,
            ) {
                Verdict::RetryAfter(delay_ms) => {
                    self.validation_failures = self.validation_failures + 1;
                    Action::Send { delay_ms }
                },
                Verdict::GiveUp => Action::Fail(RecognitionFailed::Validation(error)),
            },
        }
    }

    /// A reply came. It is validated and corrected; a reply with a wrong
    /// number of kings or too many pawns is never accepted: the model is
    /// asked again, or the recognition fails.
    pub fn on_reply(&mut self, reply: &str) -> (action: Action)
        ensures
            final(self).api_failures == 0,
            count_fault(reply@) is Some ==> !(action is Accept),
            match action {
                Action::Accept(position) => {
                    &&& validated(reply@, fen_syntax_fault(corrected_fen(reply@))) == Ok::<
                        Seq<char>,
                        FenFault,
                    >(position@)
                    &&& count_fault(reply@) is None
                    &&& position@ == corrected_fen(reply@)
                    &&& final(self).validation_failures == old(self).validation_failures
                },
                Action::Send { delay_ms } => {
                    &&& validated(reply@, fen_syntax_fault(corrected_fen(reply@))) is Err
                    &&& old(self).validation_failures < MAX_VALIDATION_RETRIES
                    &&& delay_ms == VALIDATION_BACKOFF_MS
                    &&& final(self).validation_failures == old(self).validation_failures + 1
                },
                Action::Fail(RecognitionFailed::Validation(reported)) => {
                    &&& validated(reply@, fen_syntax_fault(corrected_fen(reply@))) == Err::<
                        Seq<char>,
                        FenFault,
                    >(reported@)
                    &&& old(self).validation_failures >= MAX_VALIDATION_RETRIES
                    &&& final(self).validation_failures == old(self).validation_failures
                },
                _ => false,
            },
    {
        let outcome = validate_fen(reply);
        self.on_validated(outcome)
    }
}

} // verus!
