//! The fixed-step clock: current time, start, end and step, in seconds.

use vstd::prelude::*;
use crate::fx::Fx;
use crate::fx::i64_fits;

verus! {

#[derive(Clone, Copy, Debug, PartialEq, Eq, Structural)]
pub struct Time {
    pub now: Fx,
    pub step: Fx,
    pub start: Fx,
    pub end: Fx,
}

impl Time {
    pub fn new(start_time: Fx, end_time: Fx, time_step: Fx) -> (r: Time)
        ensures
            r.now == start_time,
            r.step == time_step,
            r.start == start_time,
            r.end == end_time,
    {
        Time { now: start_time, step: time_step, start: start_time, end: end_time }
    }

    /// Advance the clock by one step.
    pub fn next(&mut self)
        requires
            i64_fits(old(self).now.bits + old(self).step.bits),
        ensures
            final(self).now.bits == old(self).now.bits + old(self).step.bits,
            final(self).step == old(self).step,
            final(self).start == old(self).start,
            final(self).end == old(self).end,
    {
        self.now = self.now.add(self.step);
    }
}

} // verus!
