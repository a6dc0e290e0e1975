use minesweeper::stopwatch::Stopwatch;
use std::time::Duration;

const MILLISECOND: u128 = 1_000_000;

fn wait_for_the_clock() {
    let start = std::time::Instant::now();
    while start.elapsed() < Duration::from_millis(2) {}
}

#[test]
fn a_new_stopwatch_shows_zero() {
    let watch = Stopwatch::default();
    assert_eq!(watch.elapsed(), 0);
}

#[test]
fn a_stopped_stopwatch_does_not_move() {
    let mut watch = Stopwatch::default();
    watch.stop();
    assert_eq!(watch.elapsed(), 0);
    wait_for_the_clock();
    assert_eq!(watch.elapsed(), 0);
}

#[test]
fn a_running_stopwatch_moves_on() {
    let mut watch = Stopwatch::default();
    watch.start();
    wait_for_the_clock();
    let first = watch.elapsed();
    assert!(first >= 2 * MILLISECOND);
    wait_for_the_clock();
    let second = watch.elapsed();
    assert!(second >= first + 2 * MILLISECOND);
}

#[test]
fn stop_keeps_the_time_shown() {
    let mut watch = Stopwatch::default();
    watch.start();
    wait_for_the_clock();
    watch.stop();
    let shown = watch.elapsed();
    assert!(shown >= 2 * MILLISECOND);
    wait_for_the_clock();
    assert_eq!(watch.elapsed(), shown);
    watch.stop();
    assert_eq!(watch.elapsed(), shown);
}

#[test]
fn a_second_run_adds_to_the_first() {
    let mut watch = Stopwatch::default();
    watch.start();
    wait_for_the_clock();
    watch.stop();
    let first = watch.elapsed();
    watch.start();
    assert!(watch.elapsed() >= first);
    wait_for_the_clock();
    watch.stop();
    let both = watch.elapsed();
    assert!(both >= first + 2 * MILLISECOND);
    assert!(both < first + 3_600_000 * MILLISECOND);
}

#[test]
fn starting_a_running_stopwatch_starts_the_run_afresh() {
    let mut watch = Stopwatch::default();
    watch.start();
    wait_for_the_clock();
    wait_for_the_clock();
    wait_for_the_clock();
    let before = watch.elapsed();
    watch.start();
    let after = watch.elapsed();
    assert!(after < before);
}

#[test]
fn after_adds_the_lap_to_the_time_shown() {
    let watch = Stopwatch::default();
    assert_eq!(watch.after(0), 0);
    assert_eq!(watch.after(1_500_000_000), 1_500_000_000);
    let mut ran = Stopwatch::default();
    ran.start();
    wait_for_the_clock();
    ran.stop();
    let shown = ran.elapsed();
    assert_eq!(ran.after(7), shown + 7);
    assert_eq!(ran.after(u128::MAX - shown), u128::MAX);
}

#[test]
fn after_stays_at_the_largest_count() {
    let mut ran = Stopwatch::default();
    ran.start();
    wait_for_the_clock();
    ran.stop();
    assert!(ran.elapsed() > 0);
    assert_eq!(ran.after(u128::MAX), u128::MAX);
    assert_eq!(ran.after(u128::MAX - 1), u128::MAX);
}
