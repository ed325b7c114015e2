//! The deadline the driver's timer thread watches, as a state the library
//! decides over: scheduling replaces any pending deadline, so cancellation is
//! implicit, and a tick can only be delivered for a pending deadline, which
//! it consumes.

use vstd::prelude::*;

verus! {

/// The timer as the driver sees it: at most one pending deadline.
#[derive(Debug, Clone, Copy, PartialEq, Eq, Structural)]
pub struct TimerState {
    pub pending: Option<u64>,
}

/// One thing that can happen to the timer.
#[derive(Debug, Clone, Copy)]
pub enum TimerOp {
    /// A new deadline is set, replacing any pending one.
    Schedule(u64),
    /// The pending deadline, if any, elapses and is delivered.
    Fire,
}

/// The pending deadline after an operation.
pub open spec fn timer_after(pending: Option<u64>, op: TimerOp) -> Option<u64> {
    match op {
        TimerOp::Schedule(d) => Some(d),
        TimerOp::Fire => None,
    }
}

/// Whether an operation delivers a tick from this state.
pub open spec fn delivers(pending: Option<u64>, op: TimerOp) -> int {
    match op {
        TimerOp::Fire => if pending is Some {
            1int
        } else {
            0int
        },
        TimerOp::Schedule(d) => 0,
    }
}

/// How many ticks a sequence of operations delivers from this state.
pub open spec fn ticks_delivered(pending: Option<u64>, ops: Seq<TimerOp>) -> int
    decreases ops.len(),
{
    if ops.len() == 0 {
        0
    } else {
        delivers(pending, ops.first()) + ticks_delivered(
            timer_after(pending, ops.first()),
            ops.drop_first(),
        )
    }
}

/// Between two consecutive schedules at most one tick is delivered: any
/// schedule-free stretch of timer activity fires at most once, and none at
/// all when nothing is pending.
pub proof fn lemma_single_tick_between_schedules(pending: Option<u64>, ops: Seq<TimerOp>)
    requires
        forall|i: int| 0 <= i < ops.len() ==> !((#[trigger] ops[i]) is Schedule),
    ensures
        ticks_delivered(pending, ops) <= 1,
        pending is None ==> ticks_delivered(pending, ops) == 0,
    decreases ops.len(),
{
    if ops.len() > 0 {
        assert(ops[0] == ops.first());
        assert forall|i: int| 0 <= i < ops.drop_first().len() implies !((#[trigger] ops.drop_first()[i])
            is Schedule) by {
            assert(ops.drop_first()[i] == ops[i + 1]);
        }
        lemma_single_tick_between_schedules(timer_after(pending, ops.first()), ops.drop_first());
    }
}

impl TimerState {
    /// A timer with nothing pending.
    pub fn new() -> (r: TimerState)
        ensures
            r.pending is None,
    {
        TimerState { pending: None }
    }

    /// Set a deadline, cancelling any pending one.
    pub fn schedule(&mut self, deadline: u64)
        ensures
            final(self).pending == timer_after(old(self).pending, TimerOp::Schedule(deadline)),
            final(self).pending == Some(deadline),
    {
        self.pending = Some(deadline);
    }

    /// Deliver the pending deadline, if any; it is consumed.
    pub fn fire(&mut self) -> (r: Option<u64>)
        ensures
            r == old(self).pending,
            final(self).pending == timer_after(old(self).pending, TimerOp::Fire),
            final(self).pending is None,
    {
        let r = self.pending;
        self.pending = None;
        r
    }
}

} // verus!
