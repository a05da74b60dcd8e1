use std::time::Duration;

use bevy::prelude::Timer;
use point_cull::tick::{Phase, TickDriver, PERIOD_NANOS};

#[test]
fn period_is_a_twentieth_of_a_second() {
    assert_eq!(PERIOD_NANOS, 50_000_000);
    assert_eq!(Duration::from_nanos(PERIOD_NANOS), Duration::from_millis(50));
}

#[test]
fn new_driver_has_not_completed() {
    let t = TickDriver::new();
    assert!(!t.finished());
    assert_eq!(t.elapsed(), 0);
}

#[test]
fn short_advances_add_up() {
    let mut t = TickDriver::new();
    t.tick(20_000_000);
    assert!(!t.finished());
    assert_eq!(t.elapsed(), 20_000_000);
    t.tick(29_999_999);
    assert!(!t.finished());
    assert_eq!(t.elapsed(), 49_999_999);
    t.tick(1);
    assert!(t.finished());
    assert_eq!(t.elapsed(), 0);
}

#[test]
fn completion_is_forgotten_by_the_next_advance() {
    let mut t = TickDriver::new();
    t.tick(50_000_000);
    assert!(t.finished());
    t.tick(0);
    assert!(!t.finished());
    assert_eq!(t.elapsed(), 0);
}

#[test]
fn time_beyond_a_completion_counts_towards_the_next() {
    let mut t = TickDriver::new();
    t.tick(70_000_000);
    assert!(t.finished());
    assert_eq!(t.elapsed(), 20_000_000);
    t.tick(30_000_000);
    assert!(t.finished());
    assert_eq!(t.elapsed(), 0);
}

#[test]
fn long_advance_completes_once() {
    let mut t = TickDriver::new();
    t.tick(20_000_000);
    t.tick(1_000_000_123);
    assert!(t.finished());
    assert_eq!(t.elapsed(), 20_000_123);
}

#[test]
fn longest_advance_does_not_overflow() {
    let mut t = TickDriver::new();
    t.tick(49_999_999);
    t.tick(u64::MAX);
    assert!(t.finished());
    let total: u128 = 49_999_999 + u128::from(u64::MAX);
    assert_eq!(u128::from(t.elapsed()), total % 50_000_000);
}

#[test]
fn driver_agrees_with_a_repeating_engine_timer() {
    let deltas: [u64; 12] = [
        16_000_000, 16_000_000, 16_000_000, 16_000_000, 1, 49_999_999, 50_000_000, 125_000_000,
        0, 3, 49_999_997, 999_999_999,
    ];
    let mut ours = TickDriver::new();
    let mut theirs = Timer::new(Duration::from_nanos(PERIOD_NANOS), true);
    for delta in deltas {
        ours.tick(delta);
        theirs.tick(Duration::from_nanos(delta));
        assert_eq!(ours.finished(), theirs.finished(), "after {delta}");
        assert_eq!(u128::from(ours.elapsed()), theirs.elapsed().as_nanos(), "after {delta}");
    }
}

#[test]
fn phase_flips_back_and_forth() {
    assert_eq!(Phase::Mark.flipped(), Phase::Reduce);
    assert_eq!(Phase::Reduce.flipped(), Phase::Mark);
    assert_eq!(Phase::Mark.flipped().flipped(), Phase::Mark);
}
