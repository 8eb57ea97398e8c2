use vstd::arithmetic::div_mod::{lemma_div_by_multiple, lemma_div_is_ordered};
use vstd::arithmetic::mul::lemma_mul_inequality;
use vstd::prelude::*;

verus! {

/// A contiguous range of partition indices `[offset, offset + count)`.
#[derive(Clone, Copy, Debug, PartialEq, Eq, Structural, Default, Hash)]
pub struct PartitionRange {
    pub offset: u32,
    pub count: u32,
}

impl PartitionRange {
    /// One past the last index of the range.
    pub open spec fn end(self) -> int {
        self.offset + self.count
    }

    /// Whether partition `p` lies in the range.
    pub open spec fn contains(self, p: int) -> bool {
        self.offset <= p < self.end()
    }

    /// The range's indices all fit in a `u32`.
    pub open spec fn wf(self) -> bool {
        self.end() <= u32::MAX
    }
}

/// The range used by a root whose ranges were never written: `{offset: 0, count: 100}`.
pub fn default_partition_range() -> (r: PartitionRange)
    ensures
        r.offset == 0,
        r.count == 100,
{
    PartitionRange { offset: 0, count: 100 }
}

/// The first partition claimed by client `i` of `n` over `range`:
/// `floor(count * i / n) + offset`.
pub open spec fn spec_offset(range: PartitionRange, n: int, i: int) -> int {
    (range.count * i) / n + range.offset
}

/// Where one client stands among the live clients, and the range they share.
#[derive(Clone, Copy, Debug, PartialEq, Eq, Structural, Default, Hash)]
pub struct PartitionAssignment {
    pub partition_range: PartitionRange,
    pub client_count: u32,
    pub client_index: u32,
}

proof fn lemma_offset_bounds(range: PartitionRange, n: int, i: int)
    requires
        n > 0,
        0 <= i <= n,
    ensures
        range.offset <= spec_offset(range, n, i) <= range.end(),
        spec_offset(range, n, 0) == range.offset,
        spec_offset(range, n, n) == range.end(),
{
    let c = range.count as int;
    lemma_mul_inequality(0, i, c);
    lemma_mul_inequality(i, n, c);
    assert(c * i == i * c) by (nonlinear_arith);
    assert(c * n == n * c) by (nonlinear_arith);
    lemma_div_is_ordered(0, c * i, n);
    lemma_div_is_ordered(c * i, c * n, n);
    lemma_div_by_multiple(c, n);
    assert(c * 0 == 0);
}

/// Claimed offsets never decrease with the client index.
pub proof fn lemma_offset_monotone(range: PartitionRange, n: int, i: int, j: int)
    requires
        n > 0,
        0 <= i <= j,
    ensures
        spec_offset(range, n, i) <= spec_offset(range, n, j),
{
    let c = range.count as int;
    lemma_mul_inequality(i, j, c);
    assert(c * i == i * c && c * j == j * c) by (nonlinear_arith);
    lemma_div_is_ordered(c * i, c * j, n);
}

proof fn lemma_cover_prefix(range: PartitionRange, n: int, k: int, p: int)
    requires
        n > 0,
        0 <= k <= n,
        spec_offset(range, n, 0) <= p < spec_offset(range, n, k),
    ensures
        exists|i: int|
            0 <= i < k && spec_offset(range, n, i) <= p < #[trigger] spec_offset(range, n, i + 1),
    decreases k,
{
    if k > 0 {
        if p < spec_offset(range, n, k - 1) {
            lemma_cover_prefix(range, n, k - 1, p);
            let i = choose|i: int|
                0 <= i < k - 1 && spec_offset(range, n, i) <= p < #[trigger] spec_offset(
                    range,
                    n,
                    i + 1,
                );
            assert(spec_offset(range, n, i + 1) > p);
        } else {
            assert(spec_offset(range, n, (k - 1) + 1) > p);
        }
    }
}

/// Partition cover: when `n` live clients take the indices `0..n`, every
/// partition of the shared range is claimed by exactly one of them, and the
/// claimed slices stay inside the range.
pub proof fn lemma_partition_cover(range: PartitionRange, n: int, p: int)
    requires
        n > 0,
        range.contains(p),
    ensures
        exists|i: int|
            0 <= i < n && spec_offset(range, n, i) <= p < #[trigger] spec_offset(range, n, i + 1),
        forall|i: int, j: int|
            #![trigger spec_offset(range, n, i), spec_offset(range, n, j)]
            0 <= i < n && 0 <= j < n && spec_offset(range, n, i) <= p < spec_offset(range, n, i + 1)
                && spec_offset(range, n, j) <= p < spec_offset(range, n, j + 1) ==> i == j,
        forall|i: int|
            0 <= i <= n ==> range.offset <= #[trigger] spec_offset(range, n, i) <= range.end(),
{
    lemma_offset_bounds(range, n, 0);
    lemma_offset_bounds(range, n, n);
    lemma_cover_prefix(range, n, n, p);
    assert forall|i: int, j: int|
        #![trigger spec_offset(range, n, i), spec_offset(range, n, j)]
        0 <= i < n && 0 <= j < n && spec_offset(range, n, i) <= p < spec_offset(range, n, i + 1)
            && spec_offset(range, n, j) <= p < spec_offset(range, n, j + 1) implies i == j by {
        if i < j {
            lemma_offset_monotone(range, n, i + 1, j);
        } else if j < i {
            lemma_offset_monotone(range, n, j + 1, i);
        }
    }
    assert forall|i: int| 0 <= i <= n implies range.offset <= #[trigger] spec_offset(range, n, i)
        <= range.end() by {
        lemma_offset_bounds(range, n, i);
    }
}

impl PartitionAssignment {
    /// A usable assignment: at least one client, a valid index and range.
    pub open spec fn wf(self) -> bool {
        &&& self.client_count > 0
        &&& self.client_index < self.client_count
        &&& self.partition_range.wf()
    }

    /// The first partition of the slice of client `index`.
    fn offset(&self, index: u32) -> (r: u32)
        requires
            self.client_count > 0,
            index <= self.client_count,
            self.partition_range.wf(),
        ensures
            r == spec_offset(self.partition_range, self.client_count as int, index as int),
    {
        proof {
            lemma_offset_bounds(self.partition_range, self.client_count as int, index as int);
        }
        let c: u64 = self.partition_range.count as u64;
        let k: u64 = index as u64;
        assert(c * k <= u32::MAX * u32::MAX) by (nonlinear_arith)
            requires
                c <= u32::MAX,
                k <= u32::MAX,
        ;
        let scaled: u64 = c * k;
        let share: u64 = scaled / (self.client_count as u64);
        (share as u32) + self.partition_range.offset
    }

    /// The partitions that this client owns: from its own offset up to the
    /// next client's.
    pub fn range(&self) -> (r: std::ops::Range<u32>)
        requires
            self.wf(),
        ensures
            r.start == spec_offset(
                self.partition_range,
                self.client_count as int,
                self.client_index as int,
            ),
            r.end == spec_offset(
                self.partition_range,
                self.client_count as int,
                self.client_index + 1,
            ),
            self.partition_range.offset <= r.start <= r.end <= self.partition_range.end(),
    {
        proof {
            lemma_offset_monotone(
                self.partition_range,
                self.client_count as int,
                self.client_index as int,
                self.client_index + 1,
            );
            lemma_offset_bounds(
                self.partition_range,
                self.client_count as int,
                self.client_index + 1,
            );
            lemma_offset_bounds(
                self.partition_range,
                self.client_count as int,
                self.client_index as int,
            );
        }
        let start = self.offset(self.client_index);
        let end = self.offset(self.client_index + 1);
        start..end
    }
}

/// The indices of `range` as a half-open interval.
pub fn convert_range(range: PartitionRange) -> (r: std::ops::Range<u32>)
    requires
        range.wf(),
    ensures
        r.start == range.offset,
        r.end == range.end(),
{
    range.offset..(range.offset + range.count)
}

/// Folds a 128-bit id to 32 bits: the high half xor the low half, twice.
pub open spec fn fold_hash(id: u128) -> u32 {
    let h = ((id >> 64u128) ^ id) as u64;
    ((h >> 32u64) ^ h) as u32
}

/// The partition of `range` that receives the mail of `recipient_id`.
pub fn partition_for_recipient(recipient_id: u128, partition_range: PartitionRange) -> (r: u32)
    requires
        partition_range.count > 0,
        partition_range.wf(),
    ensures
        r == fold_hash(recipient_id) % partition_range.count + partition_range.offset,
        partition_range.contains(r as int),
{
    let h: u64 = #[verifier::truncate] (((recipient_id >> 64u128) ^ recipient_id) as u64);
    let h: u32 = #[verifier::truncate] (((h >> 32u64) ^ h) as u32);
    (h % partition_range.count) + partition_range.offset
}

} // verus!
