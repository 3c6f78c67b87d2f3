//! The retry decisions of delivering one message downstream.
use vstd::prelude::*;

verus! {

/// The wait before the first retry of a throttled send, in seconds.
pub const INITIAL_BACKOFF_SECS: u64 = 4;

/// A throttled send is given up once the doubled wait would exceed this, in seconds.
pub const BACKOFF_LIMIT_SECS: u64 = 128;

/// The pause after each successful send before the next one, in seconds.
pub const SEND_SPACING_SECS: u64 = 1;

/// The HTTP status of a throttled request.
pub const STATUS_TOO_MANY_REQUESTS: u16 = 429;

/// What one attempt to post a message came to.
#[derive(PartialEq, Eq, Structural, Clone, Copy, Debug)]
pub enum SendOutcome {
    /// The request never got a response.
    Transport,
    /// The downstream answered with this HTTP status.
    Status(u16),
}

/// Why a message was not delivered.
#[derive(PartialEq, Eq, Structural, Clone, Copy, Debug)]
pub enum DeliveryError {
    /// Still throttled when the backoff reached its limit.
    Throttled,
    /// The downstream answered with this non-success status.
    Failed(u16),
    /// The request never got a response.
    Transport,
}

/// What to do after an attempt.
#[derive(PartialEq, Eq, Structural, Clone, Copy, Debug)]
pub enum DeliveryStep {
    /// The message was delivered.
    Done,
    /// Wait `wait_secs`, then send again with `next_backoff_secs` as the backoff.
    Retry { wait_secs: u64, next_backoff_secs: u64 },
    /// Wait `wait_secs`, then report `error`.
    GiveUp { wait_secs: u64, error: DeliveryError },
    /// Report the error at once.
    Fail(DeliveryError),
}

/// Whether a status is a success (2xx).
pub open spec fn is_success(status: u16) -> bool {
    200 <= status < 300
}

/// The step after an attempt made with the current backoff.
pub open spec fn delivery_step(backoff_secs: u64, outcome: SendOutcome) -> DeliveryStep {
    match outcome {
        SendOutcome::Transport => DeliveryStep::Fail(DeliveryError::Transport),
        SendOutcome::Status(s) => if is_success(s) {
            DeliveryStep::Done
        } else if s == STATUS_TOO_MANY_REQUESTS {
            if 2 * backoff_secs > BACKOFF_LIMIT_SECS {
                DeliveryStep::GiveUp { wait_secs: backoff_secs, error: DeliveryError::Throttled }
            } else {
                DeliveryStep::Retry {
                    wait_secs: backoff_secs,
                    next_backoff_secs: (2 * backoff_secs) as u64,
                }
            }
        } else {
            DeliveryStep::Fail(DeliveryError::Failed(s))
        },
    }
}

/// Decides what follows an attempt: success ends the delivery; a throttled
/// attempt waits the current backoff and retries with it doubled, or gives up
/// once the doubled backoff would pass the limit; any other status, or no
/// response at all, fails without retrying.
pub fn next_delivery_step(backoff_secs: u64, outcome: SendOutcome) -> (r: DeliveryStep)
    ensures
        r == delivery_step(backoff_secs, outcome),
{
    match outcome {
        SendOutcome::Transport => DeliveryStep::Fail(DeliveryError::Transport),
        SendOutcome::Status(s) => {
            if 200 <= s && s < 300 {
                DeliveryStep::Done
            } else if s == STATUS_TOO_MANY_REQUESTS {
                if backoff_secs > BACKOFF_LIMIT_SECS / 2 {
                    DeliveryStep::GiveUp { wait_secs: backoff_secs, error: DeliveryError::Throttled }
                } else {
                    DeliveryStep::Retry { wait_secs: backoff_secs, next_backoff_secs: 2 * backoff_secs }
                }
            } else {
                DeliveryStep::Fail(DeliveryError::Failed(s))
            }
        },
    }
}

} // verus!
