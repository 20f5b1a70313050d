# karga

Building blocks for load testing: metrics, mergeable aggregates, reports,
and the rate control that decides how fast a scenario's action runs.

## Layout

- `src/` — the library, verified with Verus.
  - `metric.rs` — the `Metric` trait and `BasicMetric` (latency in nanoseconds).
  - `aggregate.rs` — the `Aggregate` trait with its mathematical model
    (`empty`, `consumed`, `merged` and their bounds), `BasicAggregate`,
    `merge_all`, and the laws: merging is commutative and associative for
    every aggregate, its result does not depend on the order of the merged
    aggregates, and splitting a stream of metrics between aggregates and
    merging them gives the aggregate of the whole stream.
  - `collector.rs` — the batching decisions of the task that aggregates
    metrics received over a channel; its final aggregate is every received
    metric consumed in arrival order.
  - `stage.rs` — stages, the governor that walks them (jumps over
    zero-duration stages, chains each ramp to the previous target), and the
    token-bucket arithmetic.
  - `rate.rs` — the rate limiter's timeline (stages placed end to end), the
    total duration, where an instant falls on the timeline, and the refill
    plan that never mints beyond the integral of the rate.
  - `report.rs`, `scenario.rs`, `runner.rs` — the JSON report, scenarios and
    the runner.
- `app/` — the runtime around the library: tokio executors and workers,
  the floating-point integral of the rate curve, reporters, and the serde
  forms of the data types.
- `tests/` — tests of the library.
