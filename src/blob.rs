use vstd::prelude::*;

verus! {

/// Blobs are stored in chunks of this many bytes, to stay below the store's
/// value size limit.
pub const BLOB_STRIPE_SIZE: usize = 16384;

/// The byte ranges `[start, end)` of the chunks that a blob of `len` bytes
/// is stored in: consecutive, each full but the last, covering the blob.
pub fn stripes(len: usize) -> (r: Vec<(usize, usize)>)
    ensures
        r@.len() == if len % BLOB_STRIPE_SIZE == 0 {
            (len / BLOB_STRIPE_SIZE) as int
        } else {
            len / BLOB_STRIPE_SIZE + 1
        },
        forall|k: int|
            0 <= k < r@.len() ==> (#[trigger] r@[k]).0 == k * BLOB_STRIPE_SIZE && r@[k].1 == if (k
                + 1) * BLOB_STRIPE_SIZE <= len {
                (k + 1) * BLOB_STRIPE_SIZE
            } else {
                len as int
            },
{
    let mut out: Vec<(usize, usize)> = Vec::new();
    let mut start: usize = 0;
    while start < len
        invariant
            start <= len,
            start == if out@.len() * BLOB_STRIPE_SIZE <= len {
                out@.len() * BLOB_STRIPE_SIZE
            } else {
                len as int
            },
            out@.len() > 0 ==> (out@.len() - 1) * BLOB_STRIPE_SIZE < len,
            forall|k: int|
                0 <= k < out@.len() ==> (#[trigger] out@[k]).0 == k * BLOB_STRIPE_SIZE && out@[k].1
                    == if (k + 1) * BLOB_STRIPE_SIZE <= len {
                    (k + 1) * BLOB_STRIPE_SIZE
                } else {
                    len as int
                },
        decreases len - start,
    {
        let end: usize = if len - start > BLOB_STRIPE_SIZE {
            start + BLOB_STRIPE_SIZE
        } else {
            len
        };
        out.push((start, end));
        proof {
            assert(start == (out@.len() - 1) * BLOB_STRIPE_SIZE);
        }
        start = end;
    }
    proof {
        let n = out@.len();
        if n > 0 {
            assert((n - 1) * BLOB_STRIPE_SIZE < len);
        }
        assert(len <= n * BLOB_STRIPE_SIZE);
        assert(n * BLOB_STRIPE_SIZE == len || ((n - 1) * BLOB_STRIPE_SIZE < len && len < n
            * BLOB_STRIPE_SIZE));
        let q = len / BLOB_STRIPE_SIZE;
        let m = len % BLOB_STRIPE_SIZE;
        assert(len == q * 16384 + m && 0 <= m < 16384);
        if m == 0 {
            assert(n == q) by (nonlinear_arith)
                requires
                    len == q * 16384,
                    n * 16384 == len || ((n - 1) * 16384 < len && len < n * 16384),
            ;
        } else {
            assert(n == q + 1) by (nonlinear_arith)
                requires
                    len == q * 16384 + m,
                    0 < m < 16384,
                    n * 16384 == len || ((n - 1) * 16384 < len && len < n * 16384),
            ;
        }
    }
    out
}

} // verus!
