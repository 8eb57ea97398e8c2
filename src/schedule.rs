use vstd::prelude::*;

use crate::retry::MAX_POLL_INTERVAL_MS;
use crate::timestamp::Timestamp;

verus! {

/// The most messages that one rollup moves into batches.
pub const ROLLUP_LIMIT: usize = 65535;

/// A store-assigned commit stamp: the commit version, the batch order within
/// it, and a user version chosen by the writer.
#[derive(Clone, Copy, Debug, PartialEq, Eq, Structural, Hash)]
pub struct Versionstamp {
    pub version: u64,
    pub batch: u16,
    pub user: u16,
}

/// The key suffix of a pending message: delivery time, commit stamp of the
/// sending transaction, and the message's position among that transaction's
/// messages.
#[derive(Clone, Copy, Debug, PartialEq, Eq, Structural, Hash)]
pub struct MessageKey {
    pub when: Timestamp,
    pub stamp: Versionstamp,
    pub index: u32,
}

/// Strict order of commit stamps, field by field.
pub open spec fn stamp_lt(a: Versionstamp, b: Versionstamp) -> bool {
    a.version < b.version || (a.version == b.version && (a.batch < b.batch || (a.batch == b.batch
        && a.user < b.user)))
}

/// Strict order of message keys, as the store sorts them.
pub open spec fn key_lt(a: MessageKey, b: MessageKey) -> bool {
    a.when.ms < b.when.ms || (a.when.ms == b.when.ms && (stamp_lt(a.stamp, b.stamp) || (a.stamp
        == b.stamp && a.index < b.index)))
}

/// Whether a message scheduled for `when` may be delivered at `now`.
pub open spec fn spec_is_ready(when: Timestamp, now: Timestamp) -> bool {
    when.ms <= now.ms
}

/// A message is ready once its delivery time has come; time zero means
/// "immediately".
pub fn is_ready(when: Timestamp, now: Timestamp) -> (r: bool)
    ensures
        r == spec_is_ready(when, now),
{
    when.ms <= now.ms
}

/// The keys are in the store's order.
pub open spec fn keys_sorted(keys: Seq<MessageKey>) -> bool {
    forall|i: int, j: int| 0 <= i < j < keys.len() ==> key_lt(#[trigger] keys[i], #[trigger] keys[j])
}

/// How many of a partition's pending messages, listed in key order, one
/// rollup at `now` moves into batches: the ready prefix, at most `limit`.
pub fn count_ready(pending: &Vec<MessageKey>, now: Timestamp, limit: usize) -> (r: usize)
    requires
        keys_sorted(pending@),
    ensures
        r <= limit,
        r <= pending@.len(),
        forall|i: int| 0 <= i < r ==> spec_is_ready(#[trigger] pending@[i].when, now),
        r < limit ==> forall|i: int|
            r <= i < pending@.len() ==> !spec_is_ready(#[trigger] pending@[i].when, now),
{
    let mut n: usize = 0;
    while n < pending.len() && n < limit
        invariant
            n <= limit,
            n <= pending@.len(),
            keys_sorted(pending@),
            forall|i: int| 0 <= i < n ==> spec_is_ready(#[trigger] pending@[i].when, now),
        decreases pending@.len() - n,
    {
        if !is_ready(pending[n].when, now) {
            assert forall|i: int| n <= i < pending@.len() implies !spec_is_ready(
                #[trigger] pending@[i].when,
                now,
            ) by {
                if i > n {
                    assert(key_lt(pending@[n as int], pending@[i]));
                }
            }
            return n;
        }
        n = n + 1;
    }
    n
}

/// How long a worker waits for new mail after a rollup: until the first
/// scheduled message is due, but never longer than the maximum poll interval.
pub fn poll_delay(now: Timestamp, next_scheduled: Option<Timestamp>) -> (r: u64)
    ensures
        next_scheduled is None ==> r == MAX_POLL_INTERVAL_MS,
        next_scheduled matches Some(t) ==> r == if t.ms - now.ms <= 0 {
            0
        } else if t.ms - now.ms >= MAX_POLL_INTERVAL_MS {
            MAX_POLL_INTERVAL_MS as int
        } else {
            t.ms - now.ms
        },
{
    match next_scheduled {
        None => MAX_POLL_INTERVAL_MS,
        Some(t) => {
            let d = t.saturating_since(now);
            if d >= MAX_POLL_INTERVAL_MS {
                MAX_POLL_INTERVAL_MS
            } else {
                d
            }
        },
    }
}

/// The key under which a rolled-up message waits for its recipient: the
/// recipient, then the rollup's commit stamp with the message's position in
/// the rollup as user version.
pub open spec fn batch_key_lt(a: (u128, Versionstamp), b: (u128, Versionstamp)) -> bool {
    a.0 < b.0 || (a.0 == b.0 && stamp_lt(a.1, b.1))
}

/// The batch key that a rollup committed at `commit` gives the message at
/// position `pos` of its scan.
pub open spec fn rolled_key(recipient: u128, commit: Versionstamp, pos: int) -> (u128, Versionstamp) {
    (recipient, Versionstamp { version: commit.version, batch: commit.batch, user: pos as u16 })
}

/// Order preservation: two messages to one recipient keep their order when
/// rolled up, whether one rollup takes both (positions in scan order) or an
/// earlier rollup, committed at an earlier stamp, takes the first.
pub proof fn lemma_rollup_keeps_order(
    recipient: u128,
    first_commit: Versionstamp,
    second_commit: Versionstamp,
    first_pos: int,
    second_pos: int,
)
    requires
        0 <= first_pos <= u16::MAX,
        0 <= second_pos <= u16::MAX,
        first_commit == second_commit ==> first_pos < second_pos,
        first_commit != second_commit ==> first_commit.version < second_commit.version,
    ensures
        batch_key_lt(
            rolled_key(recipient, first_commit, first_pos),
            rolled_key(recipient, second_commit, second_pos),
        ),
{
    assert((first_pos as u16) as int == first_pos);
    assert((second_pos as u16) as int == second_pos);
}

} // verus!
