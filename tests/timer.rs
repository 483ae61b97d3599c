use std::time::Duration;

use fight_core::timer::{CountdownTimer, FiniteRepeatingTimer};

/// Nanoseconds in `d`, saturating at `u64::MAX`.
fn nanos(d: Duration) -> u64 {
    u64::try_from(d.as_nanos()).unwrap_or(u64::MAX)
}

#[test]
fn zero_timer_works() {
    let mut timer = FiniteRepeatingTimer::new(nanos(Duration::ZERO), 0);

    assert!(timer.is_finished());
    assert_eq!(timer.remaining_ticks(), 0);
    assert_eq!(timer.tick_get_fresh_ticks(nanos(Duration::ZERO)), 0);
    assert_eq!(timer.tick_get_fresh_ticks(nanos(Duration::MAX)), 0);
    assert_eq!(timer.tick_get_fresh_ticks(nanos(Duration::MAX)), 0);
    assert_eq!(timer.tick_get_fresh_ticks(nanos(Duration::MAX)), 0);
}

#[test]
fn max_timer_works() {
    let mut timer = FiniteRepeatingTimer::new(nanos(Duration::MAX), 2);

    assert!(!timer.is_finished());
    assert_eq!(timer.remaining_ticks(), 2);

    assert_eq!(timer.tick_get_fresh_ticks(nanos(Duration::ZERO)), 0);

    assert_eq!(timer.tick_get_fresh_ticks(nanos(Duration::MAX)), 1);
    assert_eq!(timer.tick_get_fresh_ticks(nanos(Duration::MAX)), 1);

    assert_eq!(timer.tick_get_fresh_ticks(nanos(Duration::MAX)), 0);

    assert!(timer.is_finished());
    assert_eq!(timer.remaining_ticks(), 0);
}

#[test]
fn partial_ticking_works() {
    let mut timer = FiniteRepeatingTimer::new(nanos(Duration::from_secs(10)), 2);

    assert!(!timer.is_finished());
    assert_eq!(timer.remaining_ticks(), 2);

    assert_eq!(timer.tick_get_fresh_ticks(nanos(Duration::ZERO)), 0);

    assert_eq!(timer.tick_get_fresh_ticks(nanos(Duration::from_secs(5))), 0);
    assert_eq!(timer.tick_get_fresh_ticks(nanos(Duration::from_secs(5))), 1);

    assert_eq!(timer.tick_get_fresh_ticks(nanos(Duration::from_secs(5))), 0);
    assert_eq!(timer.tick_get_fresh_ticks(nanos(Duration::from_secs(20))), 1);

    assert_eq!(timer.tick_get_fresh_ticks(nanos(Duration::MAX)), 0);

    assert!(timer.is_finished());
    assert_eq!(timer.remaining_ticks(), 0);
}

#[test]
fn multi_tick_works() {
    let mut timer = FiniteRepeatingTimer::new(nanos(Duration::from_secs(10)), 3);

    assert!(!timer.is_finished());
    assert_eq!(timer.remaining_ticks(), 3);

    assert_eq!(timer.tick_get_fresh_ticks(nanos(Duration::ZERO)), 0);

    assert_eq!(timer.tick_get_fresh_ticks(nanos(Duration::from_secs(20))), 2);
    assert_eq!(timer.tick_get_fresh_ticks(nanos(Duration::from_secs(5))), 0);
    assert_eq!(timer.tick_get_fresh_ticks(nanos(Duration::from_secs(20))), 1);

    assert_eq!(timer.tick_get_fresh_ticks(nanos(Duration::MAX)), 0);

    assert!(timer.is_finished());
    assert_eq!(timer.remaining_ticks(), 0);
}

#[test]
fn catch_up_tick_is_capped_at_remaining_ticks() {
    let mut timer = FiniteRepeatingTimer::new(nanos(Duration::from_millis(500)), 5);
    assert_eq!(timer.tick_get_fresh_ticks(nanos(Duration::from_millis(2600))), 5);
    assert!(timer.is_finished());
}

#[test]
fn catch_up_tick_counts_each_whole_interval() {
    let mut timer = FiniteRepeatingTimer::new(nanos(Duration::from_millis(500)), 5);
    assert_eq!(timer.tick_get_fresh_ticks(nanos(Duration::from_millis(1200))), 2);
    assert_eq!(timer.remaining_ticks(), 3);
    // 200ms of the current interval have passed already
    assert_eq!(timer.tick_get_fresh_ticks(nanos(Duration::from_millis(300))), 1);
    assert_eq!(timer.remaining_ticks(), 2);
}

#[test]
fn remaining_time_counts_whole_and_partial_intervals() {
    let mut timer = FiniteRepeatingTimer::new(nanos(Duration::from_millis(500)), 5);
    assert_eq!(timer.remaining_time(), Duration::from_millis(2500).as_nanos());
    assert_eq!(timer.tick_get_fresh_ticks(nanos(Duration::from_millis(200))), 0);
    assert_eq!(timer.remaining_time(), Duration::from_millis(2300).as_nanos());
    assert_eq!(timer.tick_get_fresh_ticks(nanos(Duration::from_millis(2300))), 5);
    assert_eq!(timer.remaining_time(), Duration::from_millis(500).as_nanos());
}

#[test]
fn zero_interval_timer_fires_all_ticks_at_once() {
    let mut timer = FiniteRepeatingTimer::new(0, 3);
    assert_eq!(timer.tick_get_fresh_ticks(0), 3);
    assert!(timer.is_finished());
}

#[test]
fn countdown_finishes_once_at_its_duration() {
    let mut timer = CountdownTimer::new(nanos(Duration::from_millis(100)));
    assert!(!timer.tick(nanos(Duration::from_millis(55))));
    assert!(!timer.is_finished());
    assert_eq!(timer.remaining(), nanos(Duration::from_millis(45)));
    assert!(timer.tick(nanos(Duration::from_millis(55))));
    assert!(timer.is_finished());
    assert_eq!(timer.remaining(), 0);
    assert!(!timer.tick(nanos(Duration::from_millis(55))));
}

#[test]
fn zero_countdown_finishes_on_first_tick() {
    let mut timer = CountdownTimer::new(0);
    assert!(!timer.is_finished());
    assert!(timer.tick(0));
    assert!(timer.is_finished());
}

#[test]
fn huge_step_counts_every_interval_up_to_the_ticks_left() {
    let mut timer = FiniteRepeatingTimer::new(1, 5);
    assert_eq!(timer.tick_get_fresh_ticks(4_294_967_296), 5);
    assert!(timer.is_finished());
}

#[test]
fn split_steps_count_as_one_step() {
    let mut split = FiniteRepeatingTimer::new(1, 5);
    let mut whole = FiniteRepeatingTimer::new(1, 5);
    let first = split.tick_get_fresh_ticks(4_294_967_295);
    let second = split.tick_get_fresh_ticks(1);
    assert_eq!(first + second, whole.tick_get_fresh_ticks(4_294_967_296));
    assert_eq!(split.remaining_ticks(), whole.remaining_ticks());

    let mut split = FiniteRepeatingTimer::new(nanos(Duration::from_millis(500)), 5);
    let mut whole = FiniteRepeatingTimer::new(nanos(Duration::from_millis(500)), 5);
    let mut total = 0;
    for _ in 0..7 {
        total += split.tick_get_fresh_ticks(nanos(Duration::from_millis(300)));
    }
    assert_eq!(total, whole.tick_get_fresh_ticks(nanos(Duration::from_millis(2100))));
    assert_eq!(total, 4);
    assert_eq!(split, whole);
}

#[test]
fn huge_step_on_many_ticks_does_not_wrap() {
    let mut timer = FiniteRepeatingTimer::new(1, u32::MAX);
    assert_eq!(timer.tick_get_fresh_ticks(u64::MAX), u32::MAX);
    assert!(timer.is_finished());
}
