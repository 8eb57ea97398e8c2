use vstd::prelude::*;

use crate::assignment::PartitionRange;
use crate::error::Error;

verus! {

/// The first step of a repartition towards a target range.
#[derive(Clone, Copy, Debug, PartialEq, Eq, Structural)]
pub enum RepartitionPlan {
    /// Both ranges already equal the target: nothing to do.
    Complete,
    /// Start a new repartition: set the send range to the target and wake
    /// every partition of `old`, the current receive range.
    Begin { old: PartitionRange },
    /// A repartition towards the same target is in progress: wait for `old`,
    /// the current receive range, to drain.
    Resume { old: PartitionRange },
}

/// The plan for moving to `desired` from the stored receive and send ranges.
pub open spec fn spec_plan(
    recv: PartitionRange,
    send: PartitionRange,
    desired: PartitionRange,
) -> Result<RepartitionPlan, Error> {
    if recv == send {
        if recv == desired {
            Ok(RepartitionPlan::Complete)
        } else {
            Ok(RepartitionPlan::Begin { old: recv })
        }
    } else if send != desired {
        Err(Error::RepartitionConflict)
    } else {
        Ok(RepartitionPlan::Resume { old: recv })
    }
}

/// Plans a repartition to `desired`. With equal ranges it either finds the
/// work done or begins; with a repartition in flight it resumes that one if
/// it has the same target and fails otherwise.
pub fn plan_repartition(recv: PartitionRange, send: PartitionRange, desired: PartitionRange) -> (r:
    Result<RepartitionPlan, Error>)
    ensures
        r == spec_plan(recv, send, desired),
{
    if recv == send {
        if recv == desired {
            Ok(RepartitionPlan::Complete)
        } else {
            Ok(RepartitionPlan::Begin { old: recv })
        }
    } else if send != desired {
        Err(Error::RepartitionConflict)
    } else {
        Ok(RepartitionPlan::Resume { old: recv })
    }
}

/// The receive range to write once the old partitions have drained: the
/// target, unless another client has already moved the receive range on.
pub open spec fn spec_finalize(
    recv_now: PartitionRange,
    old: PartitionRange,
    desired: PartitionRange,
) -> Option<PartitionRange> {
    if recv_now == old {
        Some(desired)
    } else {
        None
    }
}

/// Finishes a repartition: the receive range becomes the target if it is
/// still the range that was drained.
pub fn finalize_repartition(
    recv_now: PartitionRange,
    old: PartitionRange,
    desired: PartitionRange,
) -> (r: Option<PartitionRange>)
    ensures
        r == spec_finalize(recv_now, old, desired),
{
    if recv_now == old {
        Some(desired)
    } else {
        None
    }
}

/// Whether a partition worker must first move its mail to the partitions
/// of the send range.
pub fn needs_migration(recv: PartitionRange, send: PartitionRange) -> (r: bool)
    ensures
        r == (recv != send),
{
    recv != send
}

/// The target range given as a half-open interval of indices.
pub fn range_from_bounds(bounds: std::ops::Range<u32>) -> (r: PartitionRange)
    requires
        bounds.start <= bounds.end,
    ensures
        r.offset == bounds.start,
        r.end() == bounds.end,
        r.wf(),
{
    PartitionRange { offset: bounds.start, count: bounds.end - bounds.start }
}

/// The stored `(recv, send)` ranges after one whole call towards `desired`
/// that runs to its end (old partitions drained, no other writer), or the
/// error it returns.
pub open spec fn spec_change(
    recv: PartitionRange,
    send: PartitionRange,
    desired: PartitionRange,
) -> Result<(PartitionRange, PartitionRange), Error> {
    match spec_plan(recv, send, desired) {
        Err(e) => Err(e),
        Ok(RepartitionPlan::Complete) => Ok((recv, send)),
        Ok(RepartitionPlan::Begin { old }) => match spec_finalize(recv, old, desired) {
            Some(new_recv) => Ok((new_recv, desired)),
            None => Ok((recv, desired)),
        },
        Ok(RepartitionPlan::Resume { old }) => match spec_finalize(recv, old, desired) {
            Some(new_recv) => Ok((new_recv, send)),
            None => Ok((recv, send)),
        },
    }
}

/// Idempotent repartition: from a settled state or one already moving to
/// `desired`, a call reaches `recv == send == desired`, and calling again
/// changes nothing; while a repartition is in flight, a call with another
/// target fails with a conflict.
pub proof fn lemma_repartition_idempotent(
    recv: PartitionRange,
    send: PartitionRange,
    desired: PartitionRange,
    other: PartitionRange,
)
    ensures
        recv == send || send == desired ==> spec_change(recv, send, desired) == Ok::<
            (PartitionRange, PartitionRange),
            Error,
        >((desired, desired)),
        spec_plan(desired, desired, desired) == Ok::<RepartitionPlan, Error>(
            RepartitionPlan::Complete,
        ),
        spec_change(desired, desired, desired) == Ok::<(PartitionRange, PartitionRange), Error>(
            (desired, desired),
        ),
        recv != send && send != other ==> spec_change(recv, send, other) == Err::<
            (PartitionRange, PartitionRange),
            Error,
        >(Error::RepartitionConflict),
{
}

} // verus!
