use bevy_local_commands::Countdown;

#[test]
fn new_countdown_has_not_started() {
    let countdown = Countdown::new(5_000);
    assert_eq!(countdown.duration, 5_000);
    assert_eq!(countdown.elapsed, 0);
    assert!(!countdown.finished());
}

#[test]
fn tick_adds_the_time_that_passed() {
    let mut countdown = Countdown::new(5_000);
    countdown.tick(1_200);
    assert_eq!(countdown, Countdown { duration: 5_000, elapsed: 1_200, finished: false });
    countdown.tick(300);
    assert_eq!(countdown, Countdown { duration: 5_000, elapsed: 1_500, finished: false });
}

#[test]
fn tick_that_reaches_the_duration_finishes() {
    let mut countdown = Countdown::new(5_000);
    countdown.tick(4_999);
    assert!(!countdown.finished());
    countdown.tick(1);
    assert_eq!(countdown, Countdown { duration: 5_000, elapsed: 5_000, finished: true });
}

#[test]
fn tick_beyond_the_duration_clamps() {
    let mut countdown = Countdown::new(5_000);
    countdown.tick(7_000);
    assert_eq!(countdown, Countdown { duration: 5_000, elapsed: 5_000, finished: true });
}

#[test]
fn finished_countdown_ignores_ticks() {
    let mut countdown = Countdown::new(10);
    countdown.tick(10);
    let finished = countdown;
    countdown.tick(1_000);
    assert_eq!(countdown, finished);
}

#[test]
fn countdown_over_nothing_needs_one_tick() {
    let mut countdown = Countdown::new(0);
    assert!(!countdown.finished());
    countdown.tick(0);
    assert!(countdown.finished());
    assert_eq!(countdown.elapsed, 0);
}

#[test]
fn tick_with_large_values_does_not_wrap() {
    let mut countdown = Countdown::new(u64::MAX);
    countdown.tick(u64::MAX - 1);
    assert_eq!(countdown.elapsed, u64::MAX - 1);
    assert!(!countdown.finished());
    countdown.tick(u64::MAX);
    assert_eq!(countdown.elapsed, u64::MAX);
    assert!(countdown.finished());
}

#[test]
fn zero_tick_leaves_elapsed_time() {
    let mut countdown = Countdown::new(100);
    countdown.tick(40);
    countdown.tick(0);
    assert_eq!(countdown, Countdown { duration: 100, elapsed: 40, finished: false });
}
