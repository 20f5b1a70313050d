use karga::aggregate::{Aggregate, BasicAggregate};
use karga::collector::{Collector, CollectorStep};
use karga::metric::BasicMetric;

fn m(latency: u128, success: bool, bytes: usize) -> BasicMetric {
    BasicMetric { latency, success, bytes }
}

/// Feeds a channel's worth of events to a collector: each inner vector is a
/// burst of metrics available at once, after which the channel is momentarily empty.
fn run(batch_size: usize, bursts: Vec<Vec<BasicMetric>>) -> (BasicAggregate, Vec<CollectorStep>) {
    let mut c: Collector<BasicAggregate> = Collector::new(batch_size);
    let mut steps = Vec::new();
    for burst in bursts {
        let mut it = burst.into_iter();
        let mut step = c.on_receive(it.next());
        steps.push(step);
        while step == CollectorStep::Poll {
            step = c.on_poll(it.next());
            steps.push(step);
        }
        // metrics left in the burst wait for the next receive
        for rest in it {
            let mut s = c.on_receive(Some(rest));
            steps.push(s);
            while s == CollectorStep::Poll {
                s = c.on_poll(None);
                steps.push(s);
            }
        }
    }
    let last = c.on_receive(None);
    steps.push(last);
    (c.finish(), steps)
}

#[test]
fn collector_aggregates_everything_received() {
    let bursts = vec![vec![m(1, true, 1), m(2, false, 2), m(3, true, 3)], vec![m(4, true, 4)]];
    let (agg, steps) = run(2, bursts.clone());
    let mut expected = BasicAggregate::new();
    expected.aggregate(&bursts.concat());
    assert_eq!(agg, expected);
    assert_eq!(*steps.last().unwrap(), CollectorStep::Finish);
}

#[test]
fn collector_batches_up_to_batch_size() {
    let mut c: Collector<BasicAggregate> = Collector::new(3);
    assert_eq!(c.on_receive(Some(m(1, true, 0))), CollectorStep::Poll);
    assert_eq!(c.on_poll(Some(m(1, true, 0))), CollectorStep::Poll);
    assert_eq!(c.on_poll(Some(m(1, true, 0))), CollectorStep::Receive);
    assert_eq!(c.on_receive(Some(m(1, false, 0))), CollectorStep::Poll);
    assert_eq!(c.on_poll(None), CollectorStep::Receive);
    assert_eq!(c.on_receive(None), CollectorStep::Finish);
    assert_eq!(c.finish(), BasicAggregate { total_latency: 4, success_count: 3, total_bytes: 0, count: 4 });
}

#[test]
fn collector_with_batch_of_one_aggregates_at_once() {
    let mut c: Collector<BasicAggregate> = Collector::new(1);
    assert_eq!(c.on_receive(Some(m(5, true, 5))), CollectorStep::Receive);
    let mut d: Collector<BasicAggregate> = Collector::new(0);
    assert_eq!(d.on_receive(Some(m(5, true, 5))), CollectorStep::Receive);
    assert_eq!(d.on_receive(None), CollectorStep::Finish);
    assert_eq!(d.finish(), BasicAggregate { total_latency: 5, success_count: 1, total_bytes: 5, count: 1 });
}

#[test]
fn collector_closed_at_once_yields_empty_aggregate() {
    let (agg, steps) = run(4, Vec::new());
    assert_eq!(agg, BasicAggregate::new());
    assert_eq!(steps, vec![CollectorStep::Finish]);
}

#[test]
fn collector_accepts_only_what_fits() {
    let mut c: Collector<BasicAggregate> = Collector::new(2);
    assert!(c.accepts(&m(u128::MAX, true, 0)) == false);
    assert!(c.accepts(&m(10, true, usize::MAX)));
    assert_eq!(c.on_receive(Some(m(10, true, usize::MAX))), CollectorStep::Poll);
    assert!(!c.accepts(&m(0, false, 1)));
    assert!(c.accepts(&m(0, false, 0)));
}
