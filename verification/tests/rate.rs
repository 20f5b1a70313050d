use karga::rate::{plan_refill, stage_progress, stages_to_internal, total_duration, InternalStage, Refill, StageProgress, MAX_TOKENS};
use karga::stage::Stage;
use std::time::Duration;

fn nanos(d: Duration) -> u128 {
    d.as_nanos()
}

#[test]
fn test_over() {
    let sts = vec![
        Stage { duration: nanos(Duration::from_millis(10)), target: 100.0f64 },
        Stage { duration: nanos(Duration::from_millis(50)), target: 100.0f64 },
    ];
    assert_eq!(total_duration(&sts), nanos(Duration::from_millis(60)));
}

#[test]
fn double_refill() {
    // One stage ramping from 0 to 100 RPS over 10 s; at 5 s the integral of
    // the rate is 0.5 * 100 * 5 * 5 / 10 = 125 tokens.
    let sts = vec![Stage { duration: nanos(Duration::from_secs(10)), target: 100.0f64 }];
    let internals = stages_to_internal(&sts, 0.0f64);
    assert_eq!(internals[0].abs_end_ns, 10_000_000_000);
    let expected: u64 = 125;
    let max_burst = f64::MAX as u64;
    let mnt = match plan_refill(expected, 0, max_burst, 1, 1) {
        Some(r) => r.add,
        None => 0,
    };
    let mnt2 = match plan_refill(expected, mnt, max_burst, 1, 1) {
        Some(r) => mnt + r.add,
        None => mnt,
    };
    assert_eq!(mnt, mnt2);
    assert_eq!(mnt, 125);
}

#[test]
fn batching() {
    // One stage of 1 s at 500 RPS from a start rate of 500: 500 tokens are
    // owed after 1 s; two workers, burst 500, batch cap 500.
    let plan = plan_refill(500, 0, 500.0f64 as u64, 500, 2).unwrap();
    // given that we have 2 workers and each need to hit 50 times a second
    assert_eq!(plan.batch, 5);
    assert_eq!(plan.add, 500);
}

#[test]
fn max_batch() {
    // Rates at f64::MAX: the integral saturates when converted to u64.
    let expected = f64::MAX as u64;
    let plan = plan_refill(expected, 0, f64::MAX as u64, 10, 1).unwrap();
    assert_eq!(plan.batch, 10);
}

#[test]
fn refill_respects_burst_and_permit_cap() {
    let plan = plan_refill(1_000, 100, 300, 20, 3).unwrap();
    assert_eq!(plan, Refill { add: 300, permits: 300, batch: 2 });
    let huge = plan_refill(u64::MAX, 0, u64::MAX, 1, 1).unwrap();
    assert_eq!(huge.permits, MAX_TOKENS);
    assert_eq!(MAX_TOKENS, usize::MAX >> 3);
}

#[test]
fn refill_owes_nothing_when_caught_up() {
    assert_eq!(plan_refill(10, 10, 5, 5, 0), None);
    assert_eq!(plan_refill(3, 10, 5, 5, 1), None);
}

#[test]
fn small_refill_keeps_batch_at_one() {
    let plan = plan_refill(10, 0, u64::MAX, 20, 4).unwrap();
    assert_eq!(plan.batch, 1);
    assert_eq!(plan.add, 10);
}

#[test]
fn burst_limited_refill_needs_another_round() {
    let first = plan_refill(100, 0, 40, 20, 1).unwrap();
    assert_eq!(first.add, 40);
    let second = plan_refill(100, 40, 40, 20, 1).unwrap();
    assert_eq!(second.add, 40);
    let third = plan_refill(100, 80, 40, 20, 1).unwrap();
    assert_eq!(third.add, 20);
    assert_eq!(plan_refill(100, 100, 40, 20, 1), None);
}

#[test]
fn timeline_is_contiguous_and_chains_rates() {
    let sts = vec![
        Stage { duration: 3_000, target: 10.0f64 },
        Stage { duration: 0, target: 50.0f64 },
        Stage { duration: 2_000, target: 5.0f64 },
    ];
    let internals = stages_to_internal(&sts, 1.0f64);
    assert_eq!(internals.len(), 3);
    assert_eq!((internals[0].abs_start_ns, internals[0].abs_end_ns), (0, 3_000));
    assert_eq!((internals[1].abs_start_ns, internals[1].abs_end_ns), (3_000, 3_000));
    assert_eq!((internals[2].abs_start_ns, internals[2].abs_end_ns), (3_000, 5_000));
    assert_eq!((internals[0].start_rate, internals[0].end_rate), (1.0, 10.0));
    assert_eq!((internals[1].start_rate, internals[1].end_rate), (10.0, 50.0));
    assert_eq!((internals[2].start_rate, internals[2].end_rate), (50.0, 5.0));
    assert_eq!(total_duration(&sts), 5_000);
}

#[test]
fn timeline_truncates_each_stage_to_64_bits() {
    let sts = vec![Stage { duration: (1u128 << 64) + 7, target: 0u8 }];
    let internals = stages_to_internal(&sts, 0u8);
    assert_eq!(internals[0].abs_end_ns, 7);
    assert_eq!(total_duration(&sts), (1u128 << 64) + 7);
}

#[test]
fn elapsed_is_clamped_to_the_stage() {
    let s = InternalStage { abs_start_ns: 100, abs_end_ns: 300, start_rate: 0.0f64, end_rate: 1.0f64 };
    assert_eq!(s.elapsed_ns(50), 0);
    assert_eq!(s.elapsed_ns(150), 50);
    assert_eq!(s.elapsed_ns(1_000), 200);
    assert_eq!(s.length_ns(), 200);
}

#[test]
fn progress_finds_the_running_stage() {
    let sts = vec![
        Stage { duration: 100, target: 1u32 },
        Stage { duration: 100, target: 2u32 },
        Stage { duration: 100, target: 3u32 },
    ];
    let internals = stages_to_internal(&sts, 0u32);
    assert_eq!(stage_progress(&internals, 0), StageProgress { completed: 0, in_progress: false });
    assert_eq!(stage_progress(&internals, 150), StageProgress { completed: 1, in_progress: true });
    assert_eq!(stage_progress(&internals, 200), StageProgress { completed: 2, in_progress: false });
    assert_eq!(stage_progress(&internals, 1_000), StageProgress { completed: 3, in_progress: false });
}
