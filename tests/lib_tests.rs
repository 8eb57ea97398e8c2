use agentdb::blob::{stripes, BLOB_STRIPE_SIZE};
use agentdb::apply::{agent_count_delta, agent_count_shard, halve_batch_size, MAX_BATCH_SIZE};
use agentdb::assignment::{
    convert_range, default_partition_range, partition_for_recipient, PartitionAssignment,
    PartitionRange,
};
use agentdb::budget::{
    clearance, debit_budget, decode_operation_ts, gc_cutoff, should_collect, BudgetDebit, GC_AGE_MS,
};
use agentdb::client::{reconcile_workers, scan_clients, ClientEntry};
use agentdb::error::Error;
use agentdb::keys::{advance, advance_tuple_key, next_key};
use agentdb::repartition::{
    finalize_repartition, needs_migration, plan_repartition, range_from_bounds, RepartitionPlan,
};
use agentdb::retry::{
    earliest_retry, next_retry, retry_row_after_apply, RetryAtState, RetryDecision,
};
use agentdb::root::Root;
use agentdb::schedule::{count_ready, is_ready, poll_delay, MessageKey, Versionstamp};
use agentdb::send::{route_messages, tally};
use agentdb::subspace::{Pack, Packer, Subspace};
use agentdb::timestamp::Timestamp;

#[test]
fn lib_it_works() {
    assert_eq!(2 + 2, 4);
}

#[test]
fn it_works() {
    assert_eq!(2 + 2, 4);
}

fn assignment(offset: u32, count: u32, n: u32, i: u32) -> PartitionAssignment {
    PartitionAssignment {
        partition_range: PartitionRange { offset, count },
        client_count: n,
        client_index: i,
    }
}

#[test]
fn assignment_splits_default_range_over_three_clients() {
    assert_eq!(assignment(0, 100, 3, 0).range(), 0..33);
    assert_eq!(assignment(0, 100, 3, 1).range(), 33..66);
    assert_eq!(assignment(0, 100, 3, 2).range(), 66..100);
}

#[test]
fn assignment_single_client_owns_everything() {
    let d = default_partition_range();
    assert_eq!(d, PartitionRange { offset: 0, count: 100 });
    assert_eq!(assignment(d.offset, d.count, 1, 0).range(), 0..100);
}

#[test]
fn assignment_covers_offset_range_exactly_once() {
    let n = 3;
    let mut owners = vec![0u32; 8];
    for i in 0..n {
        for p in assignment(10, 8, n, i).range() {
            owners[(p - 10) as usize] += 1;
        }
    }
    assert_eq!(owners, vec![1; 8]);
}

#[test]
fn convert_range_gives_half_open_interval() {
    assert_eq!(convert_range(PartitionRange { offset: 10, count: 8 }), 10..18);
}

#[test]
fn routing_folds_the_id() {
    let id: u128 = 0x0123_4567_89ab_cdef_fedc_ba98_7654_3210;
    let range = PartitionRange { offset: 10, count: 8 };
    assert_eq!(partition_for_recipient(id, range), 10);
    assert_eq!(partition_for_recipient(5, PartitionRange { offset: 10, count: 4 }), 11);
    let id2: u128 = (7u128 << 96) | 3;
    // the 64-bit fold is (7 << 32) ^ 3, whose halves fold to 7 ^ 3
    assert_eq!(partition_for_recipient(id2, PartitionRange { offset: 0, count: 100 }), 4);
}

#[test]
fn budget_burst_then_exhausted() {
    let now = Timestamp::from_millis(1_000_000_000_000);
    let mut stored: Option<i64> = None;
    assert_eq!(clearance(now, stored), 1000);
    for _ in 0..1000 {
        let d = debit_budget(now, stored, 1).expect("within budget");
        stored = Some(d.apply(stored));
    }
    assert_eq!(stored, Some(1_000_000_000_000));
    assert_eq!(clearance(now, stored), 0);
    assert_eq!(debit_budget(now, stored, 1), Err(Error::BudgetExceeded));

    let later = Timestamp::from_millis(1_000_000_000_000 + 500_000);
    assert_eq!(clearance(later, stored), 500);
    for _ in 0..500 {
        let d = debit_budget(later, stored, 1).expect("refilled budget");
        stored = Some(d.apply(stored));
    }
    assert_eq!(debit_budget(later, stored, 1), Err(Error::BudgetExceeded));
}

#[test]
fn budget_debit_values() {
    let now = Timestamp::from_millis(2_000_000);
    let d = debit_budget(now, None, 3).unwrap();
    assert_eq!(d, BudgetDebit { floor: 1_000_000, add: 3000 });
    assert_eq!(d.apply(None), 1_003_000);
    assert_eq!(d.apply(Some(1_500_000)), 1_503_000);
    assert_eq!(debit_budget(now, Some(1_999_500), 1), Err(Error::BudgetExceeded));
    assert_eq!(debit_budget(now, None, 1001), Err(Error::BudgetExceeded));
}

#[test]
fn clearance_rounds_toward_zero() {
    let now = Timestamp::from_millis(10_000);
    assert_eq!(clearance(now, Some(10_500)), 0);
    assert_eq!(clearance(now, Some(11_500)), -1);
    assert_eq!(clearance(now, Some(7_999)), 2);
}

#[test]
fn operation_ts_decodes_little_endian() {
    assert_eq!(decode_operation_ts(&(-5i64).to_le_bytes()), -5);
    assert_eq!(decode_operation_ts(&[1, 2, 0, 0, 0, 0, 0, 0, 9]), 0x0201);
}

#[test]
fn retry_backoff_doubles_then_clears() {
    let t0 = Timestamp::from_millis(1_000_000);
    let first = match next_retry(t0, None) {
        RetryDecision::Ready(s) => s,
        other => panic!("{:?}", other),
    };
    assert_eq!(first, RetryAtState { retry_at: t0, backoff_ms: 1000 });
    let row = retry_row_after_apply(first, false);
    assert_eq!(row, Some(first));

    let second = match next_retry(t0, row) {
        RetryDecision::Ready(s) => s,
        other => panic!("{:?}", other),
    };
    assert_eq!(second, RetryAtState { retry_at: Timestamp::from_millis(1_001_000), backoff_ms: 2000 });

    assert_eq!(
        next_retry(Timestamp::from_millis(1_000_500), Some(second)),
        RetryDecision::Deferred(Timestamp::from_millis(1_001_000))
    );

    let third = match next_retry(Timestamp::from_millis(1_001_000), Some(second)) {
        RetryDecision::Ready(s) => s,
        other => panic!("{:?}", other),
    };
    assert_eq!(third, RetryAtState { retry_at: Timestamp::from_millis(1_003_000), backoff_ms: 4000 });

    let fourth = match next_retry(Timestamp::from_millis(1_003_000), Some(third)) {
        RetryDecision::Ready(s) => s,
        other => panic!("{:?}", other),
    };
    assert_eq!(fourth.backoff_ms, 8000);
    assert_eq!(retry_row_after_apply(fourth, true), None);
}

#[test]
fn earliest_retry_prefers_now() {
    let a = Timestamp::from_millis(5);
    let b = Timestamp::from_millis(3);
    assert_eq!(earliest_retry(Some(a), Some(b)), Some(b));
    assert_eq!(earliest_retry(Some(a), None), None);
    assert_eq!(earliest_retry(None, Some(b)), None);
}

#[test]
fn scheduled_message_waits_for_its_time() {
    let now = Timestamp::from_millis(50_000);
    let when = Timestamp::from_millis(52_000);
    assert!(!is_ready(when, now));
    assert!(is_ready(when, Timestamp::from_millis(52_000)));
    assert!(is_ready(Timestamp::zero(), now));
    assert_eq!(poll_delay(now, Some(when)), 2000);
    assert_eq!(poll_delay(now, None), 120_000);
    assert_eq!(poll_delay(now, Some(Timestamp::from_millis(10_000_000))), 120_000);
    assert_eq!(poll_delay(now, Some(Timestamp::from_millis(1))), 0);
}

fn mkey(when: i64, version: u64, index: u32) -> MessageKey {
    MessageKey {
        when: Timestamp::from_millis(when),
        stamp: Versionstamp { version, batch: 0, user: 0 },
        index,
    }
}

#[test]
fn rollup_takes_ready_prefix() {
    let pending = vec![mkey(0, 1, 0), mkey(0, 1, 1), mkey(0, 2, 0), mkey(52_000, 1, 0)];
    assert_eq!(count_ready(&pending, Timestamp::from_millis(50_000), 65535), 3);
    assert_eq!(count_ready(&pending, Timestamp::from_millis(52_000), 65535), 4);
    assert_eq!(count_ready(&pending, Timestamp::from_millis(52_000), 2), 2);
    assert_eq!(count_ready(&Vec::new(), Timestamp::from_millis(0), 10), 0);
}

#[test]
fn repartition_plan_and_finalize() {
    let old = PartitionRange { offset: 0, count: 4 };
    let target = range_from_bounds(10..18);
    assert_eq!(target, PartitionRange { offset: 10, count: 8 });
    assert_eq!(plan_repartition(old, old, target), Ok(RepartitionPlan::Begin { old }));
    assert!(needs_migration(old, target));
    assert_eq!(plan_repartition(old, target, target), Ok(RepartitionPlan::Resume { old }));
    assert_eq!(finalize_repartition(old, old, target), Some(target));
    assert_eq!(finalize_repartition(target, old, target), None);
    assert_eq!(plan_repartition(target, target, target), Ok(RepartitionPlan::Complete));
    assert!(!needs_migration(target, target));
    let other = PartitionRange { offset: 0, count: 16 };
    assert_eq!(plan_repartition(old, target, other), Err(Error::RepartitionConflict));
}

#[test]
fn heartbeat_scan_reaps_and_counts() {
    let now = Timestamp::from_millis(100_000);
    let entries = vec![
        ClientEntry { id: 1, last_active_ts: Timestamp::from_millis(89_999) },
        ClientEntry { id: 2, last_active_ts: Timestamp::from_millis(90_000) },
        ClientEntry { id: 3, last_active_ts: Timestamp::from_millis(50_000) },
        ClientEntry { id: 4, last_active_ts: Timestamp::from_millis(99_000) },
    ];
    let scan = scan_clients(&entries, 4, now);
    assert_eq!(scan.expired, vec![1, 3]);
    assert_eq!(scan.client_count, 2);
    assert_eq!(scan.client_index, 1);
    let scan2 = scan_clients(&entries, 2, now);
    assert_eq!(scan2.client_index, 0);
}

#[test]
fn reconcile_stops_and_starts_workers() {
    let (stop, start) = reconcile_workers(&vec![0, 1, 2, 3, 7], 2, 5);
    assert_eq!(stop, vec![0, 1, 7]);
    assert_eq!(start, vec![4]);
    let (stop, start) = reconcile_workers(&vec![], 0, 3);
    assert!(stop.is_empty());
    assert_eq!(start, vec![0, 1, 2]);
}

#[test]
fn apply_helpers() {
    assert_eq!(halve_batch_size(MAX_BATCH_SIZE), 50);
    assert_eq!(halve_batch_size(1), 1);
    assert_eq!(halve_batch_size(3), 1);
    assert_eq!(agent_count_shard(300), 44);
    assert_eq!(agent_count_delta(false, true), Some(1));
    assert_eq!(agent_count_delta(true, false), Some(-1));
    assert_eq!(agent_count_delta(true, true), None);
}

#[test]
fn tally_counts_each_key_once() {
    let keys = vec![(0u32, 9u128), (1, 9), (0, 9), (0, 7)];
    assert_eq!(tally(&keys), vec![((0, 9), 2), ((1, 9), 1), ((0, 7), 1)]);
    assert!(tally(&Vec::new()).is_empty());
}

#[test]
fn route_uses_each_roots_range() {
    let ranges = vec![PartitionRange { offset: 0, count: 4 }, PartitionRange { offset: 10, count: 8 }];
    assert_eq!(route_messages(&vec![5, 5], &vec![0, 1], &ranges), vec![1, 15]);
}

#[test]
fn key_helpers() {
    assert_eq!(next_key(&[1, 2]), vec![1, 2, 0]);
    assert_eq!(advance(vec![1, 2, 0xFF, 0xFF]), vec![1, 3]);
    assert_eq!(advance(vec![7]), vec![8]);
    let mut k = vec![1, 0xFF];
    advance_tuple_key(&mut k);
    assert_eq!(k, vec![2, 0]);
    let mut k = vec![0xFF, 0xFF];
    advance_tuple_key(&mut k);
    assert_eq!(k, vec![0, 0]);
}

#[test]
fn subspace_round_trip() {
    let clients: Subspace<(u128,)> = Subspace::new(b"c");
    let key = clients.key(b"R", &(0x0102u128,));
    let mut expected = vec![b'R', b'c', b'/'];
    expected.extend_from_slice(&0x0102u128.to_be_bytes());
    assert_eq!(key, expected);
    assert_eq!(clients.decode(b"R", &key), Some((0x0102u128,)));
    assert_eq!(clients.decode(b"R", b"Rx/0123456789abcdef"), None);
    let mut short = key.clone();
    short.pop();
    assert_eq!(clients.decode(b"R", &short), None);
    let mut long = key.clone();
    long.push(0);
    assert_eq!(clients.decode(b"R", &long), None);

    let pairs: Subspace<(u32, u64)> = Subspace::new(b"p");
    let key = pairs.key(b"", &(7, 0x0A0B));
    assert_eq!(key, vec![b'p', b'/', 0, 0, 0, 7, 0, 0, 0, 0, 0, 0, 0x0A, 0x0B]);
    assert_eq!(pairs.decode(b"", &key), Some((7, 0x0A0B)));

    let (start, end) = pairs.range(b"R");
    assert_eq!(start, vec![b'R', b'p', b'/']);
    assert_eq!(end, vec![b'R', b'p', b'0']);
}

#[test]
fn packer_appends() {
    let mut packer = Packer::new(vec![9]);
    0x01020304u32.pack(&mut packer);
    assert_eq!(packer.buffer, vec![9, 1, 2, 3, 4]);
    assert_eq!(u32::unpack(&packer.buffer, 1), Some((0x01020304, 5)));
    assert_eq!(u32::unpack(&packer.buffer, 2), None);
}

#[test]
fn root_keeps_its_name() {
    let root = Root::new("app");
    assert_eq!(root.name(), "app");
}

#[test]
fn timestamp_arithmetic() {
    assert_eq!(Timestamp::zero().millis(), 0);
    let a = Timestamp::from_millis(1500);
    assert_eq!(a.saturating_since(Timestamp::from_millis(500)), 1000);
    assert_eq!(Timestamp::from_millis(500).saturating_since(a), 0);
    assert_eq!(a.checked_add_millis(500), Some(Timestamp::from_millis(2000)));
    assert_eq!(Timestamp::from_millis(i64::MAX).checked_add_millis(1), None);
    assert!(Timestamp::now().millis() > 1_500_000_000_000);
}

#[test]
fn error_messages() {
    assert_eq!(Error::BudgetExceeded.message(), "budget exceeded for operation");
    assert_ne!(Error::Kv, Error::Decode);
}

#[test]
fn blob_stripes_cover_the_blob() {
    assert!(stripes(0).is_empty());
    assert_eq!(stripes(10), vec![(0, 10)]);
    assert_eq!(stripes(BLOB_STRIPE_SIZE), vec![(0, 16384)]);
    assert_eq!(stripes(40000), vec![(0, 16384), (16384, 32768), (32768, 40000)]);
}

#[test]
fn gc_collects_only_old_records() {
    let now = Timestamp::from_millis(10_000_000);
    let cutoff = gc_cutoff(now);
    assert_eq!(GC_AGE_MS, 1_300_000);
    assert_eq!(cutoff, 8_700_000);
    assert!(should_collect(&8_699_999i64.to_le_bytes(), cutoff));
    assert!(!should_collect(&8_700_000i64.to_le_bytes(), cutoff));
}
