//! Idle strategies for callers that wait on a ring buffer: what to do when a
//! pass over the buffer produced no work.

use vstd::prelude::*;

verus! {

use crate::atomic::cpu_pause;

pub trait IdleStrategy {
    fn idle_work(&self, work_count: i8);

    fn idle(&self);

    fn reset(&self);
}

/// A chosen idle strategy, consulted by a caller's poll loop.
pub struct Idle<S> {
    pub strategy: S,
}

impl<S: IdleStrategy> Idle<S> {
    pub fn idle_work(&self, work_count: i8) {
        self.strategy.idle_work(work_count);
    }

    pub fn idle(&self) {
        self.strategy.idle();
    }

    pub fn reset(&self) {
        self.strategy.reset();
    }
}

/// Do nothing between passes.
pub struct NoOpIdleStrategy;

impl IdleStrategy for NoOpIdleStrategy {
    fn idle_work(&self, _work_count: i8) {
    }

    fn idle(&self) {
    }

    fn reset(&self) {
    }
}

/// Spin between passes, pausing the processor when a pass found no work.
pub struct BusySpinIdleStrategy;

impl IdleStrategy for BusySpinIdleStrategy {
    fn idle_work(&self, work_count: i8) {
        if work_count < 0 {
            cpu_pause();
        }
    }

    fn idle(&self) {
        cpu_pause();
    }

    fn reset(&self) {
    }
}

} // verus!
