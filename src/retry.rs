use vstd::prelude::*;

use crate::timestamp::Timestamp;

verus! {

/// The backoff given to an agent on its first attempt after a failure-free past.
pub const INITIAL_BACKOFF_MS: u64 = 1000;

/// The longest a partition worker waits before looking at its queues again.
pub const MAX_POLL_INTERVAL_MS: u64 = 120_000;

/// The per-agent retry row: the agent may next be attempted at `retry_at`,
/// and the attempt after that waits `backoff_ms` longer.
#[derive(Clone, Copy, Debug, PartialEq, Eq, Structural)]
pub struct RetryAtState {
    pub retry_at: Timestamp,
    pub backoff_ms: u64,
}

impl RetryAtState {
    /// A row that the runtime writes: its backoff is positive.
    pub open spec fn wf(self) -> bool {
        self.backoff_ms > 0
    }

    /// The row can be advanced without leaving the representable range.
    pub open spec fn can_advance(self) -> bool {
        &&& self.retry_at.ms + self.backoff_ms <= i64::MAX
        &&& 2 * self.backoff_ms <= u64::MAX
    }
}

/// What to do with the next recipient that has batched mail.
#[derive(Clone, Copy, Debug, PartialEq, Eq, Structural)]
pub enum RetryDecision {
    /// The agent is backing off until the given time: skip it.
    Deferred(Timestamp),
    /// Attempt the agent now, after persisting the given retry row, which
    /// stays if the attempt fails and is cleared if it succeeds.
    Ready(RetryAtState),
}

/// The decision for a recipient whose retry row is `stored` at `now`.
pub open spec fn spec_next_retry(now: Timestamp, stored: Option<RetryAtState>) -> RetryDecision {
    match stored {
        None => RetryDecision::Ready(RetryAtState { retry_at: now, backoff_ms: INITIAL_BACKOFF_MS }),
        Some(s) => if s.retry_at.ms > now.ms {
            RetryDecision::Deferred(s.retry_at)
        } else {
            RetryDecision::Ready(
                RetryAtState {
                    retry_at: Timestamp { ms: (s.retry_at.ms + s.backoff_ms) as i64 },
                    backoff_ms: (2 * s.backoff_ms) as u64,
                },
            )
        },
    }
}

/// Decides whether a recipient is attempted now. An agent without a retry
/// row is attempted with a fresh row `{now, 1 s}`. One whose `retry_at` is
/// still in the future is skipped. Otherwise it is attempted, and its row
/// moves on by the backoff, which doubles.
pub fn next_retry(now: Timestamp, stored: Option<RetryAtState>) -> (r: RetryDecision)
    requires
        match stored {
            Some(s) => s.retry_at.ms <= now.ms ==> s.can_advance(),
            None => true,
        },
    ensures
        r == spec_next_retry(now, stored),
{
    match stored {
        None => RetryDecision::Ready(RetryAtState { retry_at: now, backoff_ms: INITIAL_BACKOFF_MS }),
        Some(s) => {
            if s.retry_at.ms > now.ms {
                RetryDecision::Deferred(s.retry_at)
            } else {
                let at: i64 = ((s.retry_at.ms as i128) + (s.backoff_ms as i128)) as i64;
                RetryDecision::Ready(
                    RetryAtState { retry_at: Timestamp { ms: at }, backoff_ms: s.backoff_ms * 2 },
                )
            }
        },
    }
}

/// The retry row after an attempt: cleared on success, kept on failure.
pub open spec fn spec_row_after_apply(persisted: RetryAtState, succeeded: bool) -> Option<
    RetryAtState,
> {
    if succeeded {
        None
    } else {
        Some(persisted)
    }
}

/// The retry row once an attempt that persisted `persisted` has finished:
/// a successful apply clears it, a failed one rolls back the clear and
/// leaves it.
pub fn retry_row_after_apply(persisted: RetryAtState, succeeded: bool) -> (r: Option<RetryAtState>)
    ensures
        r == spec_row_after_apply(persisted, succeeded),
{
    if succeeded {
        None
    } else {
        Some(persisted)
    }
}

/// The earlier of two wake times, where `None` means "now": the worker
/// keeps the soonest time at which some recipient can be retried.
pub fn earliest_retry(a: Option<Timestamp>, b: Option<Timestamp>) -> (r: Option<Timestamp>)
    ensures
        r == (match (a, b) {
            (Some(x), Some(y)) => Some(
                if x.ms <= y.ms {
                    x
                } else {
                    y
                },
            ),
            _ => None,
        }),
{
    match (a, b) {
        (Some(x), Some(y)) => if x.ms <= y.ms {
            Some(x)
        } else {
            Some(y)
        },
        _ => None,
    }
}

/// A successful apply leaves no retry row behind.
pub open spec fn retry_cleared(persisted: RetryAtState) -> bool {
    spec_row_after_apply(persisted, true) is None
}

/// Backoff monotonicity: across two consecutive failed attempts of an agent,
/// the persisted `retry_at` strictly increases and the backoff doubles; the
/// rows stay well formed, and a successful apply clears the row.
pub proof fn lemma_backoff_monotone(
    first: Timestamp,
    second: Timestamp,
    stored: Option<RetryAtState>,
)
    requires
        match stored {
            Some(s) => s.wf() && s.retry_at.ms <= first.ms && s.can_advance(),
            None => true,
        },
    ensures
        spec_next_retry(first, stored) is Ready,
        spec_next_retry(first, stored)->Ready_0.wf(),
        ({
            let s1 = spec_next_retry(first, stored)->Ready_0;
            s1.retry_at.ms <= second.ms && s1.can_advance() ==> {
                &&& spec_next_retry(second, Some(s1)) is Ready
                &&& spec_next_retry(second, Some(s1))->Ready_0.wf()
                &&& spec_next_retry(second, Some(s1))->Ready_0.retry_at.ms > s1.retry_at.ms
                &&& spec_next_retry(second, Some(s1))->Ready_0.backoff_ms == 2 * s1.backoff_ms
            }
        }),
        forall|s: RetryAtState| #[trigger] retry_cleared(s),
{
}

} // verus!
