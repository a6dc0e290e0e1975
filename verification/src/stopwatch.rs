//! A stopwatch that can be started and stopped any number of times.
//!
//! Times are counted in nanoseconds. A count that would pass the largest
//! `u128` stays there.

use std::time::Instant;
use vstd::prelude::*;

verus! {

/// `std::time::Instant`, a point in time that only the clock can make.
#[verifier::external_type_specification]
#[verifier::external_body]
pub struct ExInstant(Instant);

/// `Instant::now`: the present moment. Nothing is known of it.
#[verifier::external_body]
fn now() -> Instant {
    Instant::now()
}

/// `Instant::elapsed`: the time that has passed since `since`, in
/// nanoseconds. The clock decides it, so nothing is known of it.
#[verifier::external_body]
fn time_since(since: &Instant) -> u128 {
    since.elapsed().as_nanos()
}

/// The sum of two times, or the largest `u128` where the sum is larger.
pub open spec fn capped_sum(a: u128, b: u128) -> u128 {
    if a + b <= u128::MAX {
        (a + b) as u128
    } else {
        u128::MAX
    }
}

/// Measures the time during which it has been running.
pub struct Stopwatch {
    start_time: Option<Instant>,
    elapsed: u128,
}

impl Stopwatch {
    /// Whether the stopwatch is running.
    pub closed spec fn running(&self) -> bool {
        self.start_time is Some
    }

    /// The time that was on the stopwatch when it was last started or
    /// stopped, in nanoseconds.
    pub closed spec fn banked(&self) -> u128 {
        self.elapsed
    }

    /// Starts the stopwatch. The time that it shows is kept. If it was running
    /// already, the time since it was started is lost.
    pub fn start(&mut self)
        ensures
            final(self).running(),
            final(self).banked() == old(self).banked(),
    {
        self.start_time = Some(now());
    }

    /// Stops the stopwatch and keeps the time that it shows.
    pub fn stop(&mut self)
        ensures
            !final(self).running(),
            old(self).banked() <= final(self).banked(),
            !old(self).running() ==> final(self).banked() == old(self).banked(),
    {
        self.elapsed = self.elapsed();
        self.start_time = None;
    }

    /// The time that the stopwatch shows once it has been running for `lap`
    /// nanoseconds since it was started: that much more than it had then.
    pub fn after(&self, lap: u128) -> (shown: u128)
        ensures
            shown == capped_sum(self.banked(), lap),
    {
        if lap > u128::MAX - self.elapsed {
            u128::MAX
        } else {
            self.elapsed + lap
        }
    }

    /// The time that the stopwatch shows, in nanoseconds: what it had when it
    /// was last started or stopped and, while it runs, the time since it was
    /// started.
    pub fn elapsed(&self) -> (shown: u128)
        ensures
            self.banked() <= shown,
            !self.running() ==> shown == self.banked(),
    {
        match &self.start_time {
            None => self.elapsed,
            Some(t) => self.after(time_since(t)),
        }
    }
}

impl Default for Stopwatch {
    /// A stopwatch that stands still at zero.
    fn default() -> (s: Stopwatch)
        ensures
            !s.running(),
            s.banked() == 0,
    {
        Stopwatch { start_time: None, elapsed: 0 }
    }
}

} // verus!
