//! Timing of the steps of a command.

use vstd::prelude::*;

verus! {

/// How a step ended.
#[derive(Debug, Clone, Copy, PartialEq, Eq, Structural)]
pub enum StepEnd {
    Completed,
    /// The timer was dropped before the step was reported as completed.
    Abandoned,
}

/// A report on a step. Times are in nanoseconds.
#[derive(Debug)]
pub struct StepReport {
    pub operation: &'static str,
    pub step: &'static str,
    pub elapsed: u64,
    pub end: StepEnd,
}

/// Times a step of a command, from a reading of a monotonic clock in nanoseconds.
#[derive(Debug)]
pub struct StepTimer {
    pub operation: &'static str,
    pub step: &'static str,
    pub start: u64,
}

/// The time between two readings of the clock; none where they come out of order.
pub open spec fn between(start: u64, now: u64) -> u64 {
    if now >= start {
        (now - start) as u64
    } else {
        0
    }
}

impl StepTimer {
    /// Starts to time a step.
    pub fn start(operation: &'static str, step: &'static str, now: u64) -> (timer: StepTimer)
        ensures
            timer.operation == operation,
            timer.step == step,
            timer.start == now,
    {
        StepTimer { operation, step, start: now }
    }

    /// Reports the step as completed.
    pub fn finish(self, now: u64) -> (report: StepReport)
        ensures
            report.operation == self.operation,
            report.step == self.step,
            report.elapsed == between(self.start, now),
            report.end == StepEnd::Completed,
    {
        self.finish_with(now, StepEnd::Completed)
    }

    /// Reports how the step ended.
    pub fn finish_with(self, now: u64, end: StepEnd) -> (report: StepReport)
        ensures
            report.operation == self.operation,
            report.step == self.step,
            report.elapsed == between(self.start, now),
            report.end == end,
    {
        let elapsed: u64 = if now >= self.start {
            now - self.start
        } else {
            0
        };
        StepReport { operation: self.operation, step: self.step, elapsed, end }
    }
}

/// The time of a step is what the clock advanced by, and none where it went back.
pub proof fn law_elapsed_time_is_the_difference(start: u64, now: u64)
    ensures
        now >= start ==> start + between(start, now) == now,
        now <= start ==> between(start, now) == 0,
{
}

} // verus!
