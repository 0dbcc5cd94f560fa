use injector_bench::audit::delivered_exactly_once;
use injector_bench::clock::{to_u64_saturating, Clock};
use injector_bench::harness::{elapsed_between, run_producer, Config, Consumer, ProducerBurst};
use injector_bench::item::{WorkItem, MAX_LATENCY};
use injector_bench::queue::{ConcurrentQueue, PopOutcome};
use crossbeam::deque::Steal;
use std::collections::HashSet;
use std::sync::atomic::{AtomicU64, Ordering};

/// Runs a whole benchmark on one thread: every producer's burst, then the
/// consumers' poll rounds in turn until all of them stop.
fn run_in_turns(producer_count: u32, consumer_count: u32, items_per_producer: u64) -> Vec<Vec<WorkItem>> {
    let config = Config { producer_count, consumer_count, items_per_producer };
    let total = config.total_items().unwrap();
    let queue = ConcurrentQueue::new();
    let clock = Clock::start();
    let counter = AtomicU64::new(0);
    for pid in 0..producer_count {
        run_producer(&queue, &clock, pid as u64, items_per_producer);
    }
    let mut consumers: Vec<Consumer> =
        (0..consumer_count).map(|id| Consumer::new(100 + id as u64, total)).collect();
    let mut active = vec![true; consumer_count as usize];
    while active.iter().any(|a| *a) {
        for (k, consumer) in consumers.iter_mut().enumerate() {
            if active[k] {
                active[k] = consumer.poll_once(counter.load(Ordering::Acquire), &queue, &counter, &clock);
            }
        }
    }
    consumers.into_iter().map(|c| c.claimed).collect()
}

#[test]
fn new_item_is_unclaimed() {
    let t = WorkItem::new(3, 7, 500);
    assert_eq!(t.producer_id, 3);
    assert_eq!(t.consumer_id, 3);
    assert_eq!(t.sequence_number, 7);
    assert_eq!(t.enqueue_nanos, 500);
    assert_eq!(t.latency_nanos, 0);
}

#[test]
fn claim_stamps_consumer_and_latency() {
    let t = WorkItem::new(1, 2, 100).claim(9, 250);
    assert_eq!(t.consumer_id, 9);
    assert_eq!(t.latency_nanos, 150);
    assert_eq!((t.producer_id, t.sequence_number, t.enqueue_nanos), (1, 2, 100));
}

#[test]
fn claim_with_earlier_clock_gives_zero_latency() {
    let t = WorkItem::new(1, 0, 1000).claim(4, 10);
    assert_eq!(t.latency_nanos, 0);
}

#[test]
fn claim_caps_latency_at_i64_max() {
    let t = WorkItem::new(0, 0, 0).claim(4, u64::MAX);
    assert_eq!(t.latency_nanos, i64::MAX);
    assert_eq!(MAX_LATENCY, i64::MAX as u64);
}

#[test]
fn total_items_is_the_product() {
    let c = Config { producer_count: 4, consumer_count: 2, items_per_producer: 10 };
    assert_eq!(c.total_items(), Some(40));
    assert_eq!(c.party_count(), 6);
    let zero = Config { producer_count: 0, consumer_count: 3, items_per_producer: 1000 };
    assert_eq!(zero.total_items(), Some(0));
    assert_eq!(zero.party_count(), 3);
}

#[test]
fn total_items_overflow_is_none() {
    let c = Config { producer_count: u32::MAX, consumer_count: 1, items_per_producer: u64::MAX };
    assert_eq!(c.total_items(), None);
    assert_eq!(c.party_count(), u32::MAX as u64 + 1);
}

#[test]
fn elapsed_and_saturation() {
    assert_eq!(elapsed_between(10, 35), 25);
    assert_eq!(elapsed_between(35, 10), 0);
    assert_eq!(to_u64_saturating(12345), 12345);
    assert_eq!(to_u64_saturating(u64::MAX as u128 + 7), u64::MAX);
}

#[test]
fn consumer_stops_exactly_at_total() {
    let c = Consumer::new(1, 40);
    assert!(c.should_continue(0));
    assert!(c.should_continue(39));
    assert!(!c.should_continue(40));
}

#[test]
fn push_then_pop_returns_the_item_then_empty() {
    let q = ConcurrentQueue::new();
    let t = WorkItem::new(2, 5, 77);
    q.push(t);
    let mut got = q.try_pop();
    while got == PopOutcome::Contended {
        got = q.try_pop();
    }
    assert_eq!(got, PopOutcome::Claimed(t));
    assert_eq!(got.item(), Some(t));
    let mut next = q.try_pop();
    while next == PopOutcome::Contended {
        next = q.try_pop();
    }
    assert_eq!(next, PopOutcome::Empty);
    assert_eq!(next.item(), None);
}

#[test]
fn accept_keeps_stamped_item() {
    let mut c = Consumer::new(8, 1);
    c.accept(WorkItem::new(0, 0, 10), 30);
    assert_eq!(c.claimed.len(), 1);
    assert_eq!(c.claimed[0].consumer_id, 8);
    assert_eq!(c.claimed[0].latency_nanos, 20);
}

#[test]
fn poll_at_total_touches_nothing() {
    let q = ConcurrentQueue::new();
    q.push(WorkItem::new(0, 0, 0));
    let counter = AtomicU64::new(1);
    let clock = Clock::start();
    let mut c = Consumer::new(5, 1);
    assert!(!c.poll_once(1, &q, &counter, &clock));
    assert!(c.claimed.is_empty());
    assert_eq!(counter.load(Ordering::Acquire), 1);
}

#[test]
fn zero_items_consumers_exit_at_once() {
    let q = ConcurrentQueue::new();
    let counter = AtomicU64::new(0);
    let clock = Clock::start();
    let mut c = Consumer::new(5, 0);
    assert!(!c.poll_once(counter.load(Ordering::Acquire), &q, &counter, &clock));
    assert!(c.claimed.is_empty());
    let results = run_in_turns(4, 2, 0);
    assert!(results.iter().all(|r| r.is_empty()));
    assert!(delivered_exactly_once(&results, 4, 0));
}

#[test]
fn scenario_four_producers_two_consumers_ten_items() {
    let results = run_in_turns(4, 2, 10);
    assert_eq!(results.len(), 2);
    assert_eq!(results[0].len() + results[1].len(), 40);
    let mut keys = HashSet::new();
    for list in &results {
        for t in list {
            assert!(keys.insert((t.producer_id, t.sequence_number)));
        }
    }
    let expected: HashSet<(u64, i64)> =
        (0..4u64).flat_map(|p| (0..10i64).map(move |s| (p, s))).collect();
    assert_eq!(keys, expected);
    assert!(delivered_exactly_once(&results, 4, 10));
}

#[test]
fn no_loss_over_configurations() {
    for &p in &[1u32, 4, 16] {
        for &c in &[1u32, 2, 8] {
            for &n in &[0u64, 1, 1000] {
                let results = run_in_turns(p, c, n);
                let sum: usize = results.iter().map(|r| r.len()).sum();
                assert_eq!(sum as u64, p as u64 * n);
                assert!(delivered_exactly_once(&results, p, n));
            }
        }
    }
}

#[test]
fn claimed_items_carry_consumer_and_non_negative_latency() {
    let results = run_in_turns(3, 2, 50);
    for (k, list) in results.iter().enumerate() {
        for t in list {
            assert_eq!(t.consumer_id, 100 + k as u64);
            assert!(t.latency_nanos >= 0);
        }
    }
}

#[test]
fn producer_items_in_sequence_order() {
    let q = ConcurrentQueue::new();
    let clock = Clock::start();
    run_producer(&q, &clock, 7, 25);
    let mut seen = Vec::new();
    loop {
        match q.try_pop() {
            PopOutcome::Claimed(t) => seen.push(t),
            PopOutcome::Empty => break,
            PopOutcome::Contended => {}
        }
    }
    assert_eq!(seen.len(), 25);
    for (i, t) in seen.iter().enumerate() {
        assert_eq!(t.producer_id, 7);
        assert_eq!(t.sequence_number, i as i64);
    }
    for w in seen.windows(2) {
        assert!(w[0].sequence_number < w[1].sequence_number);
    }
}

#[test]
fn audit_accepts_exact_delivery() {
    let a = vec![WorkItem::new(0, 0, 0), WorkItem::new(1, 1, 0)];
    let b = vec![WorkItem::new(1, 0, 0), WorkItem::new(0, 1, 0)];
    assert!(delivered_exactly_once(&vec![a, b], 2, 2));
}

#[test]
fn audit_rejects_duplicate() {
    let a = vec![WorkItem::new(0, 0, 0), WorkItem::new(1, 1, 0)];
    let b = vec![WorkItem::new(1, 1, 0), WorkItem::new(0, 1, 0)];
    assert!(!delivered_exactly_once(&vec![a, b], 2, 2));
}

#[test]
fn audit_rejects_missing_and_extra() {
    let short = vec![vec![WorkItem::new(0, 0, 0)], vec![WorkItem::new(1, 0, 0)]];
    assert!(!delivered_exactly_once(&short, 2, 2));
    let long = vec![vec![WorkItem::new(0, 0, 0), WorkItem::new(0, 1, 0), WorkItem::new(0, 2, 0)]];
    assert!(!delivered_exactly_once(&long, 1, 2));
}

#[test]
fn audit_rejects_out_of_range_keys() {
    let bad_producer = vec![vec![WorkItem::new(0, 0, 0), WorkItem::new(2, 0, 0)]];
    assert!(!delivered_exactly_once(&bad_producer, 2, 1));
    let negative = vec![vec![WorkItem::new(0, -1, 0), WorkItem::new(0, 0, 0)]];
    assert!(!delivered_exactly_once(&negative, 1, 2));
    let too_far = vec![vec![WorkItem::new(0, 0, 0), WorkItem::new(0, 2, 0)]];
    assert!(!delivered_exactly_once(&too_far, 1, 2));
}

#[test]
fn audit_of_empty_run() {
    let none: Vec<Vec<WorkItem>> = Vec::new();
    assert!(delivered_exactly_once(&none, 0, 5));
    assert!(delivered_exactly_once(&none, 3, 0));
    assert!(!delivered_exactly_once(&none, 1, 1));
}

#[test]
fn burst_makes_items_in_order_then_stops() {
    let mut b = ProducerBurst::new(3, 2);
    assert_eq!(b.next_item(10), Some(WorkItem::new(3, 0, 10)));
    assert_eq!(b.next, 1);
    assert_eq!(b.next_item(20), Some(WorkItem::new(3, 1, 20)));
    assert_eq!(b.next_item(30), None);
    assert_eq!((b.producer_id, b.next, b.len), (3, 2, 2));
}

#[test]
fn empty_burst_makes_nothing() {
    let mut b = ProducerBurst::new(1, 0);
    assert_eq!(b.next_item(5), None);
    assert_eq!(b.next, 0);
}

#[test]
fn take_keeps_claimed_item_only() {
    let mut c = Consumer::new(6, 3);
    c.take(PopOutcome::Empty, 40);
    c.take(PopOutcome::Contended, 40);
    assert!(c.claimed.is_empty());
    let t = WorkItem::new(2, 4, 15);
    c.take(PopOutcome::Claimed(t), 40);
    assert_eq!(c.claimed, vec![t.claim(6, 40)]);
    assert_eq!(c.claimed[0].latency_nanos, 25);
    assert_eq!((c.claimed[0].producer_id, c.claimed[0].sequence_number, c.claimed[0].enqueue_nanos), (2, 4, 15));
}

#[test]
fn steal_results_map_to_outcomes() {
    let t = WorkItem::new(0, 1, 2);
    assert_eq!(PopOutcome::from_steal(Steal::Success(t)), PopOutcome::Claimed(t));
    assert_eq!(PopOutcome::from_steal(Steal::Empty), PopOutcome::Empty);
    assert_eq!(PopOutcome::from_steal(Steal::Retry), PopOutcome::Contended);
}
