//! The retry and rate-limit policy of the fetch layer.
//!
//! A fetch is a loop of attempts. After each attempt the policy decides from
//! what came back whether to try again after a wait, or to finish with an
//! outcome after the rate-limit pause.
use vstd::prelude::*;
use crate::errors::ApiClientError;
use crate::text::{to_decimal, decimal};

verus! {

/// What an attempt got back.
#[derive(Debug, Clone)]
pub enum Reply {
    /// A success status with a body that decoded; `has_data` tells whether
    /// the envelope held an entity.
    Decoded { has_data: bool },
    /// A success status with a body that did not decode.
    Undecodable(String),
    /// A status other than success.
    Status(u16),
    /// No response: the request failed, by timeout or otherwise.
    Transport { timed_out: bool, message: String },
}

/// What a finished fetch reports.
#[derive(Debug, Clone)]
pub enum Outcome {
    /// The entity was found.
    Data,
    /// The upstream holds no entity.
    NoData,
    /// The fetch failed.
    Error(ApiClientError),
}

/// What to do after an attempt.
#[derive(Debug, Clone)]
pub enum FetchStep {
    /// Try again after waiting `wait_ms`.
    Retry { wait_ms: u64 },
    /// Stop with `outcome` after pausing `pause_ms`.
    Finish { outcome: Outcome, pause_ms: u64 },
}

/// The resource a fetch asks for; standings and statistics read some
/// failures as an absence.
#[derive(Debug, Clone, Copy, PartialEq, Eq, Structural)]
pub enum Resource {
    Event,
    Standings,
    Statistics,
    Decklist,
    Card,
}

/// Whether a status is a success (2xx).
pub open spec fn success_status(code: u16) -> bool {
    200 <= code <= 299
}

/// Whether a status is a server error (5xx).
pub open spec fn server_error_status(code: u16) -> bool {
    500 <= code <= 599
}

/// Two to the power `n`.
pub open spec fn pow2(n: nat) -> nat
    decreases n,
{
    if n == 0 {
        1
    } else {
        2 * pow2((n - 1) as nat)
    }
}

/// The wait before retry number `attempt`: the base delay doubled once per
/// attempt made, capped at the largest `u64`.
pub open spec fn backoff(delay_ms: u64, attempt: u32) -> u64 {
    if delay_ms * pow2(attempt as nat) > u64::MAX {
        u64::MAX
    } else {
        (delay_ms * pow2(attempt as nat)) as u64
    }
}

/// The error a failed request without a usable response maps to.
pub open spec fn transport_error(timed_out: bool, status: Option<u16>, message: Seq<char>, e: ApiClientError) -> bool {
    if timed_out {
        e is Timeout
    } else if status == Some(404u16) {
        e is NotFound
    } else if status is Some && server_error_status(status->Some_0) {
        e is ServerError
    } else {
        e is RequestFailed && e->RequestFailed_0@ == message
    }
}

impl ApiClientError {
    /// Classifies a failed request: a timeout, a 404, a server error, or a
    /// failure described by `message`.
    pub fn from_transport(timed_out: bool, status: Option<u16>, message: String) -> (e: ApiClientError)
        ensures
            transport_error(timed_out, status, message@, e),
    {
        if timed_out {
            ApiClientError::Timeout
        } else {
            match status {
                Some(code) => if code == 404 {
                    ApiClientError::NotFound
                } else if 500 <= code && code <= 599 {
                    ApiClientError::ServerError
                } else {
                    ApiClientError::RequestFailed(message)
                },
                None => ApiClientError::RequestFailed(message),
            }
        }
    }
}

/// The description of an unexpected status.
pub open spec fn status_message(code: u16) -> Seq<char> {
    "Status: "@ + decimal(code as nat)
}

/// Describes an unexpected status.
pub fn describe_status(code: u16) -> (s: String)
    ensures
        s@ == status_message(code),
{
    let mut s = "Status: ".to_owned();
    let digits = to_decimal(code as u64);
    s.append(digits.as_str());
    s
}

/// How often to retry and how long to wait.
#[derive(Debug, Clone, Copy, PartialEq, Eq, Structural)]
pub struct RetryPolicy {
    /// The pause after every answered request, in milliseconds.
    pub delay_ms: u64,
    /// Attempts allowed for one fetch (one is always made).
    pub max_retries: u32,
}

/// Whether a step finishes at once with a failed request described by `msg`.
pub open spec fn fails_at_once_with(step: FetchStep, msg: Seq<char>) -> bool {
    match step {
        FetchStep::Finish { outcome: Outcome::Error(ApiClientError::RequestFailed(m)), pause_ms } =>
            pause_ms == 0 && m@ == msg,
        _ => false,
    }
}

impl RetryPolicy {
    /// Whether attempt number `attempt` (counted from 1) may be followed by
    /// another: a fetch makes at most `max_retries` attempts, and always at
    /// least one.
    pub open spec fn may_retry(&self, attempt: u32) -> bool {
        attempt < self.max_retries
    }

    /// The wait before retrying after attempt `attempt`.
    pub fn backoff_ms(&self, attempt: u32) -> (w: u64)
        ensures
            w == backoff(self.delay_ms, attempt),
    {
        let mut w: u64 = self.delay_ms;
        let mut k: u32 = 0;
        let mut capped = false;
        proof {
            assert(pow2(0) == 1);
        }
        while k < attempt
            invariant
                k <= attempt,
                capped ==> self.delay_ms * pow2(k as nat) > u64::MAX,
                !capped ==> w == self.delay_ms * pow2(k as nat),
            decreases attempt - k,
        {
            proof {
                assert(pow2((k + 1) as nat) == 2 * pow2(k as nat));
                assert(self.delay_ms * pow2((k + 1) as nat) == 2 * (self.delay_ms * pow2(k as nat))) by (nonlinear_arith)
                    requires pow2((k + 1) as nat) == 2 * pow2(k as nat);
            }
            if !capped {
                if w > u64::MAX / 2 {
                    capped = true;
                } else {
                    w = w * 2;
                }
            }
            k = k + 1;
        }
        if capped {
            u64::MAX
        } else {
            w
        }
    }

    /// What to do after attempt number `attempt` (counted from 1) of a fetch
    /// of `resource` got `reply`.
    ///
    /// A decoded answer finishes with or without data after the pause. A 404
    /// finishes after the pause as not found (for statistics: as no data). A
    /// server error, a timeout or another failed request is retried after the
    /// backoff while attempts are left; then it finishes as
    /// a server error, a timeout or a failed request. An undecodable body or
    /// another status finishes at once as an error. A statistics lookup never
    /// fails: each failure is no data.
    pub fn decide(&self, resource: Resource, attempt: u32, reply: &Reply) -> (step: FetchStep)
        ensures
            *reply matches Reply::Decoded { has_data } ==> step == (FetchStep::Finish {
                outcome: if has_data {
                    Outcome::Data
                } else {
                    Outcome::NoData
                },
                pause_ms: self.delay_ms,
            }),
            *reply matches Reply::Undecodable(msg) ==> step == if resource == Resource::Statistics {
                FetchStep::Finish { outcome: Outcome::NoData, pause_ms: self.delay_ms }
            } else {
                FetchStep::Finish {
                    outcome: Outcome::Error(ApiClientError::DeserializationError(msg)),
                    pause_ms: 0,
                }
            },
            *reply matches Reply::Status(code) ==> if success_status(code) {
                step == (FetchStep::Finish { outcome: Outcome::NoData, pause_ms: self.delay_ms })
            } else if code == 404 {
                step == (FetchStep::Finish {
                    outcome: if resource == Resource::Statistics {
                        Outcome::NoData
                    } else {
                        Outcome::Error(ApiClientError::NotFound)
                    },
                    pause_ms: self.delay_ms,
                })
            } else if server_error_status(code) && self.may_retry(attempt) {
                step == (FetchStep::Retry { wait_ms: backoff(self.delay_ms, attempt) })
            } else if resource == Resource::Statistics {
                step == (FetchStep::Finish { outcome: Outcome::NoData, pause_ms: 0 })
            } else if server_error_status(code) {
                step == (FetchStep::Finish {
                    outcome: Outcome::Error(ApiClientError::ServerError),
                    pause_ms: 0,
                })
            } else {
                fails_at_once_with(step, status_message(code))
            },
            *reply matches Reply::Transport { timed_out, message } ==> step == if self.may_retry(
                attempt,
            ) {
                FetchStep::Retry { wait_ms: backoff(self.delay_ms, attempt) }
            } else if resource == Resource::Statistics {
                FetchStep::Finish { outcome: Outcome::NoData, pause_ms: 0 }
            } else if timed_out {
                FetchStep::Finish { outcome: Outcome::Error(ApiClientError::Timeout), pause_ms: 0 }
            } else {
                FetchStep::Finish {
                    outcome: Outcome::Error(ApiClientError::RequestFailed(message)),
                    pause_ms: 0,
                }
            },
    {
        let lenient = matches!(resource, Resource::Statistics);
        match reply {
            Reply::Decoded { has_data } => FetchStep::Finish {
                outcome: if *has_data {
                    Outcome::Data
                } else {
                    Outcome::NoData
                },
                pause_ms: self.delay_ms,
            },
            Reply::Undecodable(msg) => if lenient {
                FetchStep::Finish { outcome: Outcome::NoData, pause_ms: self.delay_ms }
            } else {
                FetchStep::Finish {
                    outcome: Outcome::Error(ApiClientError::DeserializationError(msg.clone())),
                    pause_ms: 0,
                }
            },
            Reply::Status(code) => {
                let code = *code;
                if 200 <= code && code <= 299 {
                    FetchStep::Finish { outcome: Outcome::NoData, pause_ms: self.delay_ms }
                } else if code == 404 {
                    FetchStep::Finish {
                        outcome: if lenient {
                            Outcome::NoData
                        } else {
                            Outcome::Error(ApiClientError::NotFound)
                        },
                        pause_ms: self.delay_ms,
                    }
                } else if 500 <= code && code <= 599 && attempt < self.max_retries {
                    FetchStep::Retry { wait_ms: self.backoff_ms(attempt) }
                } else if lenient {
                    FetchStep::Finish { outcome: Outcome::NoData, pause_ms: 0 }
                } else if 500 <= code && code <= 599 {
                    FetchStep::Finish { outcome: Outcome::Error(ApiClientError::ServerError), pause_ms: 0 }
                } else {
                    FetchStep::Finish {
                        outcome: Outcome::Error(ApiClientError::RequestFailed(describe_status(code))),
                        pause_ms: 0,
                    }
                }
            },
            Reply::Transport { timed_out, message } => if attempt < self.max_retries {
                FetchStep::Retry { wait_ms: self.backoff_ms(attempt) }
            } else if lenient {
                FetchStep::Finish { outcome: Outcome::NoData, pause_ms: 0 }
            } else if *timed_out {
                FetchStep::Finish { outcome: Outcome::Error(ApiClientError::Timeout), pause_ms: 0 }
            } else {
                FetchStep::Finish {
                    outcome: Outcome::Error(ApiClientError::RequestFailed(message.clone())),
                    pause_ms: 0,
                }
            },
        }
    }
}

} // verus!
