use karga::stage::{permits_to_add, refilled_tokens, Governor, Stage};

#[test]
fn governor_chains_ramps_and_jumps_over_zero_stages() {
    let stages = vec![
        Stage::new(0, 500.0f64),
        Stage::new(10, 100.0f64),
        Stage::new(0, 7.0f64),
        Stage::new(0, 8.0f64),
        Stage::new(20, 30.0f64),
    ];
    let mut g = Governor::new(stages, 0.0f64);
    let first = g.next_ramp().unwrap();
    assert_eq!((first.duration, first.start_rate, first.end_rate), (10, 500.0, 100.0));
    assert_eq!(g.current_rate(), 100.0);
    let second = g.next_ramp().unwrap();
    assert_eq!((second.duration, second.start_rate, second.end_rate), (20, 8.0, 30.0));
    assert!(g.next_ramp().is_none());
    assert_eq!(g.current_rate(), 30.0);
}

#[test]
fn governor_with_only_jumps_hands_out_nothing() {
    let mut g = Governor::new(vec![Stage::new(0, 1u64), Stage::new(0, 2u64)], 0u64);
    assert!(g.next_ramp().is_none());
    assert_eq!(g.current_rate(), 2);
    let mut empty: Governor<u64> = Governor::new(Vec::new(), 9);
    assert!(empty.next_ramp().is_none());
    assert_eq!(empty.current_rate(), 9);
}

#[test]
fn permits_fill_up_to_capacity() {
    assert_eq!(permits_to_add(10, 0, 100), 10);
    assert_eq!(permits_to_add(10, 95, 100), 5);
    assert_eq!(permits_to_add(10, 100, 100), 0);
    assert_eq!(permits_to_add(10, 150, 100), 0);
    assert_eq!(permits_to_add(0, 0, 100), 0);
    assert_eq!(permits_to_add(u64::MAX, 0, u64::MAX), u64::MAX);
}

#[test]
fn token_counter_saturates_and_caps() {
    assert_eq!(refilled_tokens(5, 10, 100), 15);
    assert_eq!(refilled_tokens(95, 10, 100), 100);
    assert_eq!(refilled_tokens(u64::MAX - 1, 10, u64::MAX), u64::MAX);
    assert_eq!(refilled_tokens(200, 1, 100), 100);
}
