use memlat::chain::build_chain;
use memlat::clock::Clock;
use memlat::measure::{latency_tenths, measure_cell, overhead, sample};

#[test]
fn latency_is_net_time_per_load() {
    // 1000 ns over one iteration of 1000 loads: 1.0 ns.
    assert_eq!(latency_tenths(1000, 0, 1, 1000), 10);
    // 3000 ns net of 1000 ns overhead, over 2 iterations of 100 loads: 10.0 ns.
    assert_eq!(latency_tenths(3000, 1000, 2, 100), 100);
}

#[test]
fn latency_rounds_to_nearest_tenth() {
    assert_eq!(latency_tenths(25, 0, 1, 100), 3);
    assert_eq!(latency_tenths(24, 0, 1, 100), 2);
    assert_eq!(latency_tenths(26, 0, 1, 100), 3);
}

#[test]
fn latency_never_below_one_tenth() {
    assert_eq!(latency_tenths(0, 0, 1, 8), 1);
    assert_eq!(latency_tenths(100, 500, 1, 8), 1);
    assert_eq!(latency_tenths(1, 0, 1000, 1024), 1);
    assert_eq!(latency_tenths(0, u64::MAX, u64::MAX, usize::MAX), 1);
}

#[test]
fn latency_at_the_largest_inputs() {
    let expected = 10 * u64::MAX as u128;
    assert_eq!(latency_tenths(u64::MAX, 0, 1, 1), expected);
}

#[test]
fn clock_does_not_go_back() {
    let clock = Clock::start();
    let a = clock.now_ns();
    let b = clock.now_ns();
    assert!(b >= a);
}

#[test]
fn sample_runs_for_its_budget() {
    let mut pool = vec![0usize; 64];
    build_chain(&mut pool, 64, 2);
    let clock = Clock::start();
    let budget = 5_000_000;
    let s = sample(&pool, &clock, 64, 2, budget);
    assert!(s.steps >= 1);
    assert!(s.elapsed_ns >= budget);
}

#[test]
fn overhead_returns() {
    let clock = Clock::start();
    let before = clock.now_ns();
    let ns = overhead(&clock, 64, 4, 100);
    assert!(ns <= clock.now_ns() - before);
}

#[test]
fn cell_is_consistent() {
    let mut pool = vec![0usize; 32];
    let clock = Clock::start();
    let cell = measure_cell(&mut pool, &clock, 16, 4, 2_000_000);
    assert!(cell.steps >= 1);
    assert!(cell.sample_ns >= 2_000_000);
    assert!(cell.tenths >= 1);
    assert_eq!(
        cell.tenths,
        latency_tenths(cell.sample_ns, cell.overhead_ns, cell.steps, 16)
    );
    assert_eq!(pool[12], 0);
    assert_eq!(pool[0], 4);
}
