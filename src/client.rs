use vstd::prelude::*;

use crate::timestamp::Timestamp;

verus! {

/// How often a client refreshes its registration, in milliseconds.
pub const HEARTBEAT_INTERVAL_MS: i64 = 5000;

/// How often a client collects stale operation records, in milliseconds.
pub const GC_INTERVAL_MS: i64 = 10000;

/// One registered client as read from the clients subspace.
#[derive(Clone, Copy, Debug, PartialEq, Eq, Structural)]
pub struct ClientEntry {
    pub id: u128,
    pub last_active_ts: Timestamp,
}

/// A client is dead when its last heartbeat is older than two intervals.
pub open spec fn spec_is_expired(last_active: Timestamp, now: Timestamp) -> bool {
    last_active.ms < now.ms - 2 * HEARTBEAT_INTERVAL_MS
}

/// The number of live clients among `entries`.
pub open spec fn live_count(entries: Seq<ClientEntry>, now: Timestamp) -> nat
    decreases entries.len(),
{
    if entries.len() == 0 {
        0
    } else {
        live_count(entries.drop_last(), now) + if spec_is_expired(entries.last().last_active_ts, now) {
            0nat
        } else {
            1nat
        }
    }
}

/// The position of client `me` among the live clients of `entries`, or zero
/// when it is not among them.
pub open spec fn live_index(entries: Seq<ClientEntry>, me: u128, now: Timestamp) -> nat
    decreases entries.len(),
{
    if entries.len() == 0 {
        0
    } else if entries.last().id == me && !spec_is_expired(entries.last().last_active_ts, now) {
        live_count(entries.drop_last(), now)
    } else {
        live_index(entries.drop_last(), me, now)
    }
}

/// The ids of the dead clients among `entries`, in order.
pub open spec fn expired_ids(entries: Seq<ClientEntry>, now: Timestamp) -> Seq<u128>
    decreases entries.len(),
{
    if entries.len() == 0 {
        Seq::empty()
    } else if spec_is_expired(entries.last().last_active_ts, now) {
        expired_ids(entries.drop_last(), now).push(entries.last().id)
    } else {
        expired_ids(entries.drop_last(), now)
    }
}

/// Whether a client last seen at `last_active` is dead at `now`.
pub fn is_expired(last_active: Timestamp, now: Timestamp) -> (r: bool)
    requires
        now.ms >= i64::MIN + 2 * HEARTBEAT_INTERVAL_MS,
    ensures
        r == spec_is_expired(last_active, now),
{
    last_active.ms < now.ms - 2 * HEARTBEAT_INTERVAL_MS
}

/// What one heartbeat scan of the clients subspace finds.
#[derive(Debug)]
pub struct ClientScan {
    /// The registrations to clear.
    pub expired: Vec<u128>,
    /// How many clients are alive.
    pub client_count: u32,
    /// This client's position among them.
    pub client_index: u32,
}

/// Goes through the registered clients in id order at `now`: the dead are
/// marked for removal, the living are counted, and the position of client
/// `me` among the living is noted.
pub fn scan_clients(entries: &Vec<ClientEntry>, me: u128, now: Timestamp) -> (r: ClientScan)
    requires
        entries@.len() <= u32::MAX,
        now.ms >= i64::MIN + 2 * HEARTBEAT_INTERVAL_MS,
    ensures
        r.expired@ == expired_ids(entries@, now),
        r.client_count == live_count(entries@, now),
        r.client_index == live_index(entries@, me, now),
{
    let mut expired: Vec<u128> = Vec::new();
    let mut count: u32 = 0;
    let mut index: u32 = 0;
    let mut i: usize = 0;
    while i < entries.len()
        invariant
            i <= entries@.len(),
            entries@.len() <= u32::MAX,
            now.ms >= i64::MIN + 2 * HEARTBEAT_INTERVAL_MS,
            expired@ == expired_ids(entries@.subrange(0, i as int), now),
            count == live_count(entries@.subrange(0, i as int), now),
            index == live_index(entries@.subrange(0, i as int), me, now),
            count <= i,
        decreases entries@.len() - i,
    {
        let e = entries[i];
        let prefix = Ghost(entries@.subrange(0, i as int));
        let next = Ghost(entries@.subrange(0, i + 1));
        assert(next@.drop_last() =~= prefix@);
        assert(next@.last() == e);
        if is_expired(e.last_active_ts, now) {
            expired.push(e.id);
        } else {
            if e.id == me {
                index = count;
            }
            count = count + 1;
        }
        i = i + 1;
    }
    assert(entries@.subrange(0, entries@.len() as int) =~= entries@);
    ClientScan { expired, client_count: count, client_index: index }
}

proof fn lemma_expired_listed(entries: Seq<ClientEntry>, now: Timestamp, k: int)
    requires
        0 <= k < entries.len(),
        spec_is_expired(entries[k].last_active_ts, now),
    ensures
        expired_ids(entries, now).contains(entries[k].id),
    decreases entries.len(),
{
    let last = entries.len() - 1;
    if k == last {
        assert(expired_ids(entries, now).last() == entries[k].id);
    } else {
        assert(entries.drop_last()[k] == entries[k]);
        lemma_expired_listed(entries.drop_last(), now, k);
        let prev = expired_ids(entries.drop_last(), now);
        let j = choose|j: int| 0 <= j < prev.len() && prev[j] == entries[k].id;
        if spec_is_expired(entries.last().last_active_ts, now) {
            assert(expired_ids(entries, now)[j] == entries[k].id);
        }
    }
}

/// Heartbeat reap: a client whose last heartbeat is older than two
/// intervals at time `seen` is removed by the scan of any peer that ticks
/// at `seen` or later.
pub proof fn lemma_heartbeat_reap(entries: Seq<ClientEntry>, seen: Timestamp, now: Timestamp, k: int)
    requires
        0 <= k < entries.len(),
        spec_is_expired(entries[k].last_active_ts, seen),
        seen.ms <= now.ms,
    ensures
        expired_ids(entries, now).contains(entries[k].id),
{
    lemma_expired_listed(entries, now, k);
}

/// Whether `v` holds `x`.
fn holds(v: &Vec<u32>, x: u32) -> (r: bool)
    ensures
        r == v@.contains(x),
{
    let mut i: usize = 0;
    while i < v.len()
        invariant
            i <= v@.len(),
            forall|j: int| 0 <= j < i ==> v@[j] != x,
        decreases v@.len() - i,
    {
        if v[i] == x {
            return true;
        }
        i = i + 1;
    }
    false
}

/// Whether partition `p` lies in the owned slice `[start, end)`.
pub open spec fn owns(start: u32, end: u32, p: u32) -> bool {
    start <= p < end
}

/// The partition workers to stop and to start so that the running set
/// becomes exactly `[start, end)`: stop those outside it, start those in it
/// that are not running. Afterwards every owned index has a worker and no
/// other index does.
pub fn reconcile_workers(running: &Vec<u32>, start: u32, end: u32) -> (r: (Vec<u32>, Vec<u32>))
    ensures
        forall|p: u32| #[trigger] r.0@.contains(p) <==> running@.contains(p) && !(start <= p < end),
        forall|p: u32| #[trigger] r.1@.contains(p) <==> start <= p < end && !running@.contains(p),
        forall|p: u32|
            (running@.contains(p) && !r.0@.contains(p)) || r.1@.contains(p) <==> #[trigger] owns(
                start,
                end,
                p,
            ),
{
    let mut stop: Vec<u32> = Vec::new();
    let mut i: usize = 0;
    while i < running.len()
        invariant
            i <= running@.len(),
            forall|q: u32|
                #[trigger] stop@.contains(q) <==> exists|j: int|
                    0 <= j < i && running@[j] == q && !owns(start, end, q),
        decreases running@.len() - i,
    {
        let p = running[i];
        let ghost before = stop@;
        let outside = !(start <= p && p < end);
        if outside {
            stop.push(p);
        }
        proof {
            assert(outside ==> stop@ == before.push(p));
            assert(!outside ==> stop@ == before);
            assert forall|q: u32| #[trigger] stop@.contains(q) <==> exists|j: int|
                0 <= j < i + 1 && running@[j] == q && !owns(start, end, q) by {
                if stop@.contains(q) {
                    let k = choose|k: int| 0 <= k < stop@.len() && stop@[k] == q;
                    if k < before.len() {
                        assert(before[k] == q);
                        assert(before.contains(q));
                        let j = choose|j: int| 0 <= j < i && running@[j] == q && !owns(start, end, q);
                        assert(0 <= j < i + 1 && running@[j] == q && !owns(start, end, q));
                    } else {
                        assert(running@[i as int] == q && !owns(start, end, q));
                    }
                }
                if exists|j: int| 0 <= j < i + 1 && running@[j] == q && !owns(start, end, q) {
                    let j = choose|j: int| 0 <= j < i + 1 && running@[j] == q && !owns(start, end, q);
                    if j < i {
                        assert(before.contains(q));
                        let k = choose|k: int| 0 <= k < before.len() && before[k] == q;
                        assert(stop@[k] == q);
                    } else {
                        assert(stop@[before.len() as int] == q);
                    }
                }
            }
        }
        i = i + 1;
    }
    assert forall|q: u32| #[trigger] stop@.contains(q) <==> running@.contains(q) && !owns(start, end, q) by {
        if running@.contains(q) && !owns(start, end, q) {
            let j = choose|j: int| 0 <= j < running@.len() && running@[j] == q;
            assert(0 <= j < i && running@[j] == q && !owns(start, end, q));
        }
    }
    let mut launch: Vec<u32> = Vec::new();
    let mut p: u32 = start;
    while p < end
        invariant
            start <= end ==> start <= p <= end,
            start > end ==> p == start,
            forall|q: u32|
                #[trigger] launch@.contains(q) <==> start <= q < p && !running@.contains(q),
        decreases end - p,
    {
        let ghost before = launch@;
        let present = holds(running, p);
        if !present {
            launch.push(p);
        }
        proof {
            assert(!present ==> launch@ == before.push(p));
            assert(present ==> launch@ == before);
            assert forall|q: u32| #[trigger] launch@.contains(q) <==> start <= q < p + 1
                && !running@.contains(q) by {
                if launch@.contains(q) {
                    let k = choose|k: int| 0 <= k < launch@.len() && launch@[k] == q;
                    if k < before.len() {
                        assert(before[k] == q);
                        assert(before.contains(q));
                    } else {
                        assert(q == p);
                    }
                }
                if start <= q < p + 1 && !running@.contains(q) {
                    if q < p {
                        assert(before.contains(q));
                        let k = choose|k: int| 0 <= k < before.len() && before[k] == q;
                        assert(launch@[k] == q);
                    } else {
                        assert(launch@[before.len() as int] == q);
                    }
                }
            }
        }
        p = p + 1;
    }
    (stop, launch)
}

} // verus!
