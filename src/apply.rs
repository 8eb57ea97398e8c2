use vstd::prelude::*;

verus! {

/// How many batched messages one apply reads at most, before any retry.
pub const MAX_BATCH_SIZE: usize = 100;

/// How many shards the per-root agent counter is split into.
pub const AGENT_COUNT_SHARDS: u32 = 256;

/// The batch size for the next attempt of an apply that hit a conflict:
/// half the last one, but at least one.
pub fn halve_batch_size(size: usize) -> (r: usize)
    ensures
        size > 1 ==> r == size / 2,
        size <= 1 ==> r == size,
{
    if size > 1 {
        size / 2
    } else {
        size
    }
}

/// The counter shard that the agents of a partition are counted in.
pub fn agent_count_shard(partition: u32) -> (r: u32)
    ensures
        r == partition % AGENT_COUNT_SHARDS,
        r < AGENT_COUNT_SHARDS,
{
    partition % AGENT_COUNT_SHARDS
}

/// The change that an apply makes to the agent count: `+1` when the agent
/// comes into existence, `-1` when it goes away, none otherwise.
pub fn agent_count_delta(existed_before: bool, exists_after: bool) -> (r: Option<i64>)
    ensures
        existed_before == exists_after ==> r is None,
        !existed_before && exists_after ==> r == Some(1i64),
        existed_before && !exists_after ==> r == Some(-1i64),
{
    if existed_before == exists_after {
        None
    } else if exists_after {
        Some(1)
    } else {
        Some(-1)
    }
}

} // verus!
