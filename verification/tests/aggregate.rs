use karga::aggregate::{checked_merge_all, merge_all, Aggregate, BasicAggregate};
use karga::metric::{BasicMetric, MAX_DURATION_NANOS};
use std::time::Duration;

fn metric(latency_ms: u64, success: bool, bytes: usize) -> BasicMetric {
    BasicMetric { latency: Duration::from_millis(latency_ms).as_nanos(), success, bytes }
}

fn agg(total_latency: u128, success_count: usize, total_bytes: usize, count: usize) -> BasicAggregate {
    BasicAggregate { total_latency, success_count, total_bytes, count }
}

#[test]
fn new_aggregate_is_empty() {
    let a = BasicAggregate::new();
    assert_eq!(a, agg(0, 0, 0, 0));
    assert_eq!(a, BasicAggregate::default());
}

#[test]
fn consume_adds_one_sample() {
    let mut a = BasicAggregate::new();
    a.consume(&metric(10, true, 100));
    a.consume(&metric(30, false, 5));
    assert_eq!(a, agg(40_000_000, 1, 105, 2));
}

#[test]
fn aggregate_consumes_every_metric_in_order() {
    let metrics = vec![metric(1, true, 1), metric(2, true, 2), metric(3, false, 3)];
    let mut a = BasicAggregate::new();
    a.aggregate(&metrics);
    let mut b = BasicAggregate::new();
    for m in &metrics {
        b.consume(m);
    }
    assert_eq!(a, b);
    assert_eq!(a, agg(6_000_000, 2, 6, 3));
}

#[test]
fn aggregate_of_nothing_changes_nothing() {
    let mut a = agg(7, 1, 2, 3);
    a.aggregate(&[]);
    assert_eq!(a, agg(7, 1, 2, 3));
}

#[test]
fn merge_adds_fields() {
    let mut a = agg(10, 1, 100, 2);
    a.merge(agg(5, 3, 1, 4));
    assert_eq!(a, agg(15, 4, 101, 6));
}

#[test]
fn merge_is_commutative_on_values() {
    let (x, y) = (agg(1, 2, 3, 4), agg(10, 20, 30, 40));
    let mut xy = x;
    xy.merge(y);
    let mut yx = y;
    yx.merge(x);
    assert_eq!(xy, yx);
}

#[test]
fn merge_is_associative_on_values() {
    let (x, y, z) = (agg(1, 1, 1, 1), agg(2, 0, 5, 3), agg(9, 4, 0, 7));
    let mut left = x;
    left.merge(y);
    left.merge(z);
    let mut yz = y;
    yz.merge(z);
    let mut right = x;
    right.merge(yz);
    assert_eq!(left, right);
}

#[test]
fn empty_is_merge_identity() {
    let x = agg(123, 4, 5, 6);
    let mut a = BasicAggregate::new();
    a.merge(x);
    assert_eq!(a, x);
    let mut b = x;
    b.merge(BasicAggregate::new());
    assert_eq!(b, x);
}

#[test]
fn split_stream_merges_to_whole() {
    let first = vec![metric(4, true, 10), metric(6, false, 20)];
    let second = vec![metric(1, true, 1)];
    let mut w1 = BasicAggregate::new();
    w1.aggregate(&first);
    let mut w2 = BasicAggregate::new();
    w2.aggregate(&second);
    w1.merge(w2);
    let mut whole = BasicAggregate::new();
    whole.aggregate(&[first, second].concat());
    assert_eq!(w1, whole);
}

#[test]
fn merge_all_adds_every_worker() {
    let workers = vec![agg(1, 1, 1, 1), agg(2, 0, 2, 2), agg(3, 3, 3, 3)];
    let total = merge_all(workers.clone());
    assert_eq!(total, agg(6, 4, 6, 6));
    let mut reversed = workers;
    reversed.reverse();
    assert_eq!(merge_all(reversed), total);
}

#[test]
fn merge_all_of_no_worker_is_empty() {
    let total: BasicAggregate = merge_all(Vec::new());
    assert_eq!(total, BasicAggregate::new());
}

#[test]
fn latency_bound_is_duration_max() {
    assert_eq!(MAX_DURATION_NANOS, Duration::MAX.as_nanos());
}

#[test]
fn bounds_checks_match_overflow() {
    let full = agg(MAX_DURATION_NANOS, usize::MAX, 0, 0);
    assert!(!full.can_take(&metric(0, true, 0)));
    assert!(!full.can_take(&BasicMetric { latency: 1, success: false, bytes: 0 }));
    assert!(full.can_take(&BasicMetric { latency: 0, success: false, bytes: 0 }));
    assert!(agg(0, 0, 0, 0).can_take(&metric(5, true, 5)));
    assert!(!agg(0, 0, 0, usize::MAX).can_take(&metric(5, true, 5)));
    assert!(agg(1, 1, 1, 1).can_merge_with(&agg(2, 2, 2, 2)));
    assert!(!agg(1, 1, 1, 1).can_merge_with(&agg(MAX_DURATION_NANOS, 0, 0, 0)));
    assert!(!agg(0, 0, usize::MAX, 0).can_merge_with(&agg(0, 0, 1, 0)));
}

#[test]
fn checked_merge_all_refuses_overflow() {
    let ok = checked_merge_all(vec![agg(1, 1, 1, 1), agg(2, 2, 2, 2)]);
    assert_eq!(ok, Some(agg(3, 3, 3, 3)));
    let too_big = checked_merge_all(vec![agg(0, 0, 0, usize::MAX), agg(0, 0, 0, 1)]);
    assert_eq!(too_big, None);
    let none: Option<BasicAggregate> = checked_merge_all(Vec::new());
    assert_eq!(none, Some(BasicAggregate::new()));
}

#[test]
fn aggregating_in_two_calls_equals_one_call() {
    let first = vec![metric(1, true, 3), metric(2, false, 4)];
    let second = vec![metric(3, true, 5)];
    let mut twice = BasicAggregate::new();
    twice.aggregate(&first);
    twice.aggregate(&second);
    let mut once = BasicAggregate::new();
    once.aggregate(&[first, second].concat());
    assert_eq!(twice, once);
}
