use vstd::prelude::*;

use crate::error::Error;
use crate::timestamp::Timestamp;

verus! {

/// Over long time scales an operation may send one message per this many milliseconds.
pub const MS_PER_MSG_PER_OP: i64 = 1000;

/// The number of messages an idle operation may send at once.
pub const MAX_MSG_BURST: i64 = 1000;

/// How far behind the current time a fresh operation's virtual time starts.
pub const INITIAL_TS_OFFSET: i64 = MS_PER_MSG_PER_OP * MAX_MSG_BURST;

/// Integer division rounding toward zero, as Rust's `/` does.
pub open spec fn trunc_div(a: int, d: int) -> int {
    if a >= 0 {
        a / d
    } else {
        -((-a) / d)
    }
}

/// An optional stored value, seen as a mathematical integer.
pub open spec fn opt_int(v: Option<i64>) -> Option<int> {
    match v {
        Some(x) => Some(x as int),
        None => None,
    }
}

/// The operation's virtual time: the stored one, or for an operation with no
/// record, `now - INITIAL_TS_OFFSET`.
pub open spec fn effective_ts(now: int, stored: Option<int>) -> int {
    match stored {
        Some(t) => t,
        None => now - INITIAL_TS_OFFSET,
    }
}

/// How many messages the operation may still send at `now`.
pub open spec fn spec_clearance(now: int, stored: Option<int>) -> int {
    trunc_div(now - effective_ts(now, stored), MS_PER_MSG_PER_OP as int)
}

/// Whether sending `count` messages at `now` fits the budget.
pub open spec fn spec_debit_ok(now: int, stored: Option<int>, count: int) -> bool {
    spec_clearance(now, stored) >= count
}

/// The operation's virtual time after a successful debit of `count`
/// messages: raised to at least the initial floor, then moved on by
/// `count * MS_PER_MSG_PER_OP`.
pub open spec fn spec_after_debit(now: int, stored: Option<int>, count: int) -> int {
    let floor = now - INITIAL_TS_OFFSET;
    let base = match stored {
        Some(t) => if t >= floor {
            t
        } else {
            floor
        },
        None => floor,
    };
    base + count * MS_PER_MSG_PER_OP
}

/// The value of eight bytes read as a little-endian unsigned integer.
pub open spec fn le_u64(b: Seq<u8>) -> int {
    b[0] + 0x100 * (b[1] + 0x100 * (b[2] + 0x100 * (b[3] + 0x100 * (b[4] + 0x100 * (b[5] + 0x100
        * (b[6] + 0x100 * b[7]))))))
}

/// Relies on byteorder's `LittleEndian::read_i64`: the first eight bytes,
/// little-endian, as a two's-complement `i64`. It panics on fewer than eight.
#[verifier::external_body]
fn read_i64_le(buf: &[u8]) -> (r: i64)
    requires
        buf@.len() >= 8,
    ensures
        r == le_u64(buf@) as i64,
{
    <byteorder::LittleEndian as byteorder::ByteOrder>::read_i64(buf)
}

/// Decodes a stored operation time: a little-endian `i64` of milliseconds.
pub fn decode_operation_ts(bytes: &[u8]) -> (r: i64)
    requires
        bytes@.len() >= 8,
    ensures
        r == le_u64(bytes@) as i64,
{
    read_i64_le(bytes)
}

/// `a / d` rounding toward zero, for `d > 0`.
fn div_toward_zero(a: i128, d: i128) -> (r: i128)
    requires
        d > 0,
        a > i128::MIN,
    ensures
        r == trunc_div(a as int, d as int),
{
    if a >= 0 {
        a / d
    } else {
        let q = (-a) / d;
        -q
    }
}

/// How many messages an operation may still send at `now`, given its stored
/// virtual time (`None` when it has no record). Grows by one per
/// `MS_PER_MSG_PER_OP` of idle time.
pub fn clearance(now: Timestamp, stored: Option<i64>) -> (r: i64)
    ensures
        r == spec_clearance(now.ms as int, opt_int(stored)),
{
    let ts: i128 = match stored {
        Some(t) => t as i128,
        None => (now.ms as i128) - (INITIAL_TS_OFFSET as i128),
    };
    let diff: i128 = (now.ms as i128) - ts;
    let q = div_toward_zero(diff, MS_PER_MSG_PER_OP as i128);
    proof {
        assert(-0x1_0000_0000_0000_0000 <= diff <= 0x1_0000_0000_0000_0000);
        if diff >= 0 {
            assert(q <= diff);
            assert(q >= 0);
        } else {
            assert(-diff / 1000 <= -diff);
        }
    }
    q as i64
}

/// The two atomic mutations that record a debit: raise the operation's time
/// to at least `floor`, then add `add`.
#[derive(Clone, Copy, Debug, PartialEq, Eq, Structural)]
pub struct BudgetDebit {
    pub floor: i64,
    pub add: i64,
}

/// Checks that `count` messages of one operation fit its budget at `now`,
/// and on success gives the mutations that record them.
pub fn debit_budget(now: Timestamp, stored: Option<i64>, count: u32) -> (r: Result<
    BudgetDebit,
    Error,
>)
    requires
        now.ms >= i64::MIN + INITIAL_TS_OFFSET,
    ensures
        r is Ok <==> spec_debit_ok(now.ms as int, opt_int(stored), count as int),
        r is Err ==> r == Err::<BudgetDebit, Error>(Error::BudgetExceeded),
        r matches Ok(d) ==> d.floor == now.ms - INITIAL_TS_OFFSET && d.add == count
            * MS_PER_MSG_PER_OP,
{
    let allowed = clearance(now, stored);
    if (allowed as i128) < (count as i128) {
        Err(Error::BudgetExceeded)
    } else {
        let add: i64 = (count as i64) * MS_PER_MSG_PER_OP;
        Ok(BudgetDebit { floor: now.ms - INITIAL_TS_OFFSET, add })
    }
}

impl BudgetDebit {
    /// The stored time once both mutations have run on `stored`: the
    /// maximum with `floor` (an absent value takes `floor`), then the
    /// addition, which wraps as the store's atomic add does.
    pub fn apply(&self, stored: Option<i64>) -> (r: i64)
        ensures
            ({
                let base: int = match stored {
                    Some(t) => if t >= self.floor {
                        t as int
                    } else {
                        self.floor as int
                    },
                    None => self.floor as int,
                };
                base + self.add <= i64::MAX && base + self.add >= i64::MIN ==> r == base
                    + self.add
            }),
    {
        let base = match stored {
            Some(t) => if t >= self.floor {
                t
            } else {
                self.floor
            },
            None => self.floor,
        };
        base.wrapping_add(self.add)
    }
}

/// Operation records older than this many milliseconds are collected.
pub const GC_AGE_MS: i64 = 1000 * 60 * 5 + INITIAL_TS_OFFSET;

/// The most operation records one collection pass looks at in each direction.
pub const GC_COUNT_PER_CLIENT: usize = 256;

/// The operation time below which a record is collected at `now`.
pub fn gc_cutoff(now: Timestamp) -> (r: i64)
    requires
        now.ms >= i64::MIN + GC_AGE_MS,
    ensures
        r == now.ms - GC_AGE_MS,
{
    now.ms - GC_AGE_MS
}

/// Whether the stored operation record `value` is old enough to collect:
/// its time lies before `cutoff`. The caller clears it only if the value is
/// still the same when the transaction commits.
pub fn should_collect(value: &[u8], cutoff: i64) -> (r: bool)
    requires
        value@.len() >= 8,
    ensures
        r == ((le_u64(value@) as i64) < cutoff),
{
    read_i64_le(value) < cutoff
}

/// Whether every send of `sends` (a time and a message count, in order)
/// fits the budget, starting from the stored time `stored`.
pub open spec fn all_debits_ok(stored: Option<int>, sends: Seq<(int, int)>) -> bool
    decreases sends.len(),
{
    if sends.len() == 0 {
        true
    } else {
        let (t, k) = sends[0];
        spec_debit_ok(t, stored, k) && all_debits_ok(
            Some(spec_after_debit(t, stored, k)),
            sends.drop_first(),
        )
    }
}

/// The number of messages that `sends` carries.
pub open spec fn total_sent(sends: Seq<(int, int)>) -> int
    decreases sends.len(),
{
    if sends.len() == 0 {
        0
    } else {
        sends[0].1 + total_sent(sends.drop_first())
    }
}

proof fn lemma_debits_bounded(
    stored: Option<int>,
    sends: Seq<(int, int)>,
    start: int,
    window: int,
    sent: int,
)
    requires
        sent >= 0,
        sent * MS_PER_MSG_PER_OP <= window + INITIAL_TS_OFFSET,
        effective_ts(start, stored) >= start - INITIAL_TS_OFFSET + sent * MS_PER_MSG_PER_OP,
        forall|i: int| 0 <= i < sends.len() ==> start <= #[trigger] sends[i].0 <= start + window,
        forall|i: int| 0 <= i < sends.len() ==> #[trigger] sends[i].1 >= 0,
        all_debits_ok(stored, sends),
    ensures
        (sent + total_sent(sends)) * MS_PER_MSG_PER_OP <= window + INITIAL_TS_OFFSET,
    decreases sends.len(),
{
    if sends.len() > 0 {
        let (t, k) = sends[0];
        assert(start <= sends[0].0 <= start + window);
        assert(sends[0].1 >= 0);
        let s = effective_ts(t, stored);
        let s0 = effective_ts(start, stored);
        assert(s >= s0 || stored is None);
        let next = spec_after_debit(t, stored, k);
        if k > 0 {
            assert(trunc_div(t - s, 1000) >= k);
            assert(t - s >= 0);
            assert((t - s) / 1000 >= k);
            assert(t - s >= k * 1000) by (nonlinear_arith)
                requires
                    (t - s) / 1000 >= k,
                    t - s >= 0,
            ;
        }
        let sent2 = sent + k;
        assert(sent2 * 1000 == sent * 1000 + k * 1000) by (nonlinear_arith)
            requires
                sent2 == sent + k,
        ;
        assert(k * 1000 >= 0) by (nonlinear_arith)
            requires
                k >= 0,
        ;
        assert(next >= start - INITIAL_TS_OFFSET + sent2 * MS_PER_MSG_PER_OP);
        assert(sent2 * MS_PER_MSG_PER_OP <= window + INITIAL_TS_OFFSET);
        let rest = sends.drop_first();
        assert forall|i: int| 0 <= i < rest.len() implies start <= #[trigger] rest[i].0 <= start
            + window by {
            assert(rest[i] == sends[i + 1]);
        }
        assert forall|i: int| 0 <= i < rest.len() implies #[trigger] rest[i].1 >= 0 by {
            assert(rest[i] == sends[i + 1]);
        }
        lemma_debits_bounded(Some(next), rest, start, window, sent2);
    }
}

/// Budget bound: starting from an operation with no record, or one whose
/// time is not older than `start - INITIAL_TS_OFFSET`, the messages of all
/// sends that succeed at times within `[start, start + window]` number at
/// most `MAX_MSG_BURST + window / MS_PER_MSG_PER_OP`.
pub proof fn lemma_budget_bound(
    stored: Option<int>,
    sends: Seq<(int, int)>,
    start: int,
    window: int,
)
    requires
        window >= 0,
        match stored {
            Some(t) => t >= start - INITIAL_TS_OFFSET,
            None => true,
        },
        forall|i: int| 0 <= i < sends.len() ==> start <= #[trigger] sends[i].0 <= start + window,
        forall|i: int| 0 <= i < sends.len() ==> #[trigger] sends[i].1 >= 0,
        all_debits_ok(stored, sends),
    ensures
        total_sent(sends) <= MAX_MSG_BURST + window / (MS_PER_MSG_PER_OP as int),
{
    lemma_debits_bounded(stored, sends, start, window, 0);
    let total = total_sent(sends);
    let q = window / 1000;
    let r = window % 1000;
    assert(window == q * 1000 + r && 0 <= r < 1000);
    assert(total <= 1000 + q) by (nonlinear_arith)
        requires
            total * 1000 <= window + 1000000,
            window == q * 1000 + r,
            0 <= r < 1000,
    ;
}

} // verus!
