use vstd::prelude::*;

use crate::assignment::{fold_hash, partition_for_recipient, PartitionRange};

verus! {

/// How many times `k` occurs in `keys`.
pub open spec fn count_of(keys: Seq<(u32, u128)>, k: (u32, u128)) -> nat
    decreases keys.len(),
{
    if keys.len() == 0 {
        0
    } else {
        count_of(keys.drop_last(), k) + if keys.last() == k {
            1nat
        } else {
            0nat
        }
    }
}

/// The entries of `tally` carry distinct keys.
pub open spec fn distinct_keys(tally: Seq<((u32, u128), u32)>) -> bool {
    forall|i: int, j: int|
        0 <= i < j < tally.len() ==> (#[trigger] tally[i]).0 != (#[trigger] tally[j]).0
}

proof fn lemma_count_positive(keys: Seq<(u32, u128)>, i: int)
    requires
        0 <= i < keys.len(),
    ensures
        count_of(keys, keys[i]) > 0,
    decreases keys.len(),
{
    if i < keys.len() - 1 {
        assert(keys.drop_last()[i] == keys[i]);
        lemma_count_positive(keys.drop_last(), i);
    }
}

proof fn lemma_count_bounded(keys: Seq<(u32, u128)>, k: (u32, u128))
    ensures
        count_of(keys, k) <= keys.len(),
    decreases keys.len(),
{
    if keys.len() > 0 {
        lemma_count_bounded(keys.drop_last(), k);
    }
}

proof fn lemma_count_absent(keys: Seq<(u32, u128)>, k: (u32, u128))
    requires
        count_of(keys, k) > 0,
    ensures
        exists|i: int| 0 <= i < keys.len() && keys[i] == k,
    decreases keys.len(),
{
    if keys.last() != k {
        lemma_count_absent(keys.drop_last(), k);
        let i = choose|i: int| 0 <= i < keys.len() - 1 && keys.drop_last()[i] == k;
        assert(keys[i] == k);
    } else {
        assert(keys[keys.len() - 1] == k);
    }
}

/// Counts how often each key occurs, keeping the keys in order of first
/// occurrence. Sending uses it to total the messages of each
/// `(root, operation)` and to find each `(root, partition)` to wake once.
pub fn tally(keys: &Vec<(u32, u128)>) -> (r: Vec<((u32, u128), u32)>)
    requires
        keys@.len() <= u32::MAX,
    ensures
        distinct_keys(r@),
        forall|i: int| 0 <= i < r@.len() ==> (#[trigger] r@[i]).1 == count_of(keys@, r@[i].0),
        forall|k: (u32, u128)|
            count_of(keys@, k) > 0 <==> exists|i: int| 0 <= i < r@.len() && (#[trigger] r@[i]).0 == k,
{
    let mut out: Vec<((u32, u128), u32)> = Vec::new();
    let mut n: usize = 0;
    while n < keys.len()
        invariant
            n <= keys@.len(),
            keys@.len() <= u32::MAX,
            distinct_keys(out@),
            forall|i: int|
                0 <= i < out@.len() ==> (#[trigger] out@[i]).1 == count_of(
                    keys@.subrange(0, n as int),
                    out@[i].0,
                ),
            forall|k: (u32, u128)|
                count_of(keys@.subrange(0, n as int), k) > 0 <==> exists|i: int|
                    0 <= i < out@.len() && (#[trigger] out@[i]).0 == k,
        decreases keys@.len() - n,
    {
        let k = keys[n];
        let ghost prefix = keys@.subrange(0, n as int);
        let ghost next = keys@.subrange(0, n + 1);
        assert(next.drop_last() =~= prefix);
        assert(next.last() == k);
        let mut j: usize = 0;
        let mut found = false;
        while j < out.len() && !found
            invariant
                j <= out@.len(),
                found ==> j < out@.len() && out@[j as int].0 == k,
                !found ==> forall|i: int| 0 <= i < j ==> (#[trigger] out@[i]).0 != k,
            decreases out@.len() - j + if found {
                0int
            } else {
                1int
            },
        {
            if out[j].0.0 == k.0 && out[j].0.1 == k.1 {
                found = true;
            } else {
                j = j + 1;
            }
        }
        let ghost before = out@;
        if found {
            proof {
                lemma_count_bounded(prefix, k);
            }
            let c = out[j].1;
            out.set(j, (k, c + 1));
            proof {
                assert forall|i: int| 0 <= i < out@.len() implies (#[trigger] out@[i]).1 == count_of(
                    next,
                    out@[i].0,
                ) by {
                    if i != j {
                        assert(out@[i] == before[i]);
                        assert(before[i].0 != k);
                    }
                }
                assert forall|q: (u32, u128)|
                    count_of(next, q) > 0 <==> exists|i: int|
                        0 <= i < out@.len() && (#[trigger] out@[i]).0 == q by {
                    if count_of(next, q) > 0 && q != k {
                        assert(count_of(next, q) == count_of(prefix, q));
                        assert(exists|i: int| 0 <= i < before.len() && (#[trigger] before[i]).0 == q);
                        let i = choose|i: int| 0 <= i < before.len() && (#[trigger] before[i]).0 == q;
                        assert(out@[i].0 == q);
                    }
                    if q == k {
                        assert(out@[j as int].0 == q);
                    }
                    if exists|i: int| 0 <= i < out@.len() && (#[trigger] out@[i]).0 == q {
                        let i = choose|i: int| 0 <= i < out@.len() && (#[trigger] out@[i]).0 == q;
                        if i != j {
                            assert(before[i].0 == q);
                        }
                    }
                }
                assert forall|a: int, b: int| 0 <= a < b < out@.len() implies (#[trigger] out@[a]).0
                    != (#[trigger] out@[b]).0 by {
                    assert(before[a].0 != before[b].0);
                }
            }
        } else {
            proof {
                if count_of(prefix, k) > 0 {
                    let i = choose|i: int| 0 <= i < before.len() && (#[trigger] before[i]).0 == k;
                    assert(false);
                }
            }
            out.push((k, 1));
            proof {
                assert forall|i: int| 0 <= i < out@.len() implies (#[trigger] out@[i]).1 == count_of(
                    next,
                    out@[i].0,
                ) by {
                    if i < before.len() {
                        assert(out@[i] == before[i]);
                    }
                }
                assert forall|q: (u32, u128)|
                    count_of(next, q) > 0 <==> exists|i: int|
                        0 <= i < out@.len() && (#[trigger] out@[i]).0 == q by {
                    if count_of(next, q) > 0 && q != k {
                        assert(count_of(next, q) == count_of(prefix, q));
                        assert(exists|i: int| 0 <= i < before.len() && (#[trigger] before[i]).0 == q);
                        let i = choose|i: int| 0 <= i < before.len() && (#[trigger] before[i]).0 == q;
                        assert(out@[i].0 == q);
                    }
                    if q == k {
                        assert(out@[before.len() as int].0 == q);
                    }
                    if exists|i: int| 0 <= i < out@.len() && (#[trigger] out@[i]).0 == q {
                        let i = choose|i: int| 0 <= i < out@.len() && (#[trigger] out@[i]).0 == q;
                        if i < before.len() {
                            assert(before[i].0 == q);
                        }
                    }
                }
            }
        }
        n = n + 1;
    }
    assert(keys@.subrange(0, n as int) =~= keys@);
    out
}

/// The partition of each message: the recipient's fold hash placed in the
/// send range of the recipient's root. `roots[i]` is the position of message
/// `i`'s root in `ranges`.
pub fn route_messages(
    recipients: &Vec<u128>,
    roots: &Vec<u32>,
    ranges: &Vec<PartitionRange>,
) -> (r: Vec<u32>)
    requires
        recipients@.len() == roots@.len(),
        forall|i: int| 0 <= i < roots@.len() ==> (#[trigger] roots@[i]) < ranges@.len(),
        forall|i: int|
            0 <= i < ranges@.len() ==> (#[trigger] ranges@[i]).count > 0 && ranges@[i].wf(),
    ensures
        r@.len() == recipients@.len(),
        forall|i: int|
            0 <= i < r@.len() ==> #[trigger] r@[i] == fold_hash(recipients@[i]) % ranges@[roots@[
                i] as int].count + ranges@[roots@[i] as int].offset,
{
    let mut out: Vec<u32> = Vec::new();
    let mut i: usize = 0;
    while i < recipients.len()
        invariant
            i <= recipients@.len(),
            recipients@.len() == roots@.len(),
            forall|k: int| 0 <= k < roots@.len() ==> (#[trigger] roots@[k]) < ranges@.len(),
            forall|k: int|
                0 <= k < ranges@.len() ==> (#[trigger] ranges@[k]).count > 0 && ranges@[k].wf(),
            out@.len() == i,
            forall|k: int|
                0 <= k < i ==> #[trigger] out@[k] == fold_hash(recipients@[k]) % ranges@[roots@[
                    k] as int].count + ranges@[roots@[k] as int].offset,
        decreases recipients@.len() - i,
    {
        let range = ranges[roots[i] as usize];
        let p = partition_for_recipient(recipients[i], range);
        out.push(p);
        i = i + 1;
    }
    out
}

} // verus!
