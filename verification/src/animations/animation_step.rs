use vstd::prelude::*;

verus! {

/// One frame's hold time: how long the frame that was just drawn stays
/// before the next one is due, in microseconds.
#[derive(Clone, Copy, Debug, PartialEq, Eq, Structural)]
pub struct AnimationStep {
    duration: u64,
}

impl View for AnimationStep {
    type V = u64;

    closed spec fn view(&self) -> u64 {
        self.duration
    }
}

impl AnimationStep {
    pub fn new(duration: u64) -> (step: Self)
        ensures
            step@ == duration,
    {
        Self { duration }
    }

    pub fn duration(&self) -> (duration: u64)
        ensures
            duration == self@,
    {
        self.duration
    }
}

} // verus!
