use vstd::prelude::*;
use crate::animations::animation_step::AnimationStep;
use crate::map::ColorMap;
use crate::map::RGB8;

verus! {

#[derive(Clone, Copy, Debug, PartialEq, Eq, Structural)]
pub enum AnimationError {
    /// The animation is over: no step is left.
    LastStep,
}

/// What an animation shows, whatever step it is at: the part of an animation
/// that stepping and drawing never change.
pub struct Script {
    /// Number of steps after which the animation is over.
    pub length: nat,
    /// Whether the animation can be drawn on a display of that many LEDs.
    pub fits: spec_fn(nat) -> bool,
    /// How long the frame of the given step stays, in microseconds.
    pub duration: spec_fn(nat) -> u64,
    /// The colours after drawing, from the number of steps taken, whether the
    /// end was reported, and the colours before.
    pub frame: spec_fn(nat, bool, Seq<RGB8>) -> Seq<RGB8>,
}

/// A sequence of frames, each held for some time. An animation is not
/// started until `next` was called once; `next` moves to the following frame
/// and `apply` draws the frame that the animation is at.
pub trait Animation {
    spec fn wf(&self) -> bool;

    spec fn script(&self) -> Script;

    /// Number of calls of `next` that gave a step.
    spec fn steps_taken(&self) -> nat;

    /// Whether `next` has reported the end.
    spec fn exhausted(&self) -> bool;

    fn is_started(&self) -> (started: bool)
        requires
            self.wf(),
        ensures
            started == (self.steps_taken() > 0),
    ;

    /// Prepares the animation. May be called any number of times.
    fn init(&mut self) -> (result: Result<(), AnimationError>)
        requires
            old(self).wf(),
        ensures
            final(self).wf(),
            final(self).script() == old(self).script(),
            final(self).steps_taken() == old(self).steps_taken(),
            final(self).exhausted() == old(self).exhausted(),
    ;

    /// Moves to the next frame and says how long it stays, or reports that
    /// the animation is over.
    fn next(&mut self) -> (result: Result<AnimationStep, AnimationError>)
        requires
            old(self).wf(),
        ensures
            final(self).wf(),
            final(self).script() == old(self).script(),
            old(self).steps_taken() < old(self).script().length ==> {
                &&& final(self).steps_taken() == old(self).steps_taken() + 1
                &&& final(self).exhausted() == old(self).exhausted()
                &&& result is Ok
                &&& result->Ok_0@ == (old(self).script().duration)(final(self).steps_taken())
            },
            old(self).steps_taken() >= old(self).script().length ==> {
                &&& final(self).steps_taken() == old(self).steps_taken()
                &&& final(self).exhausted()
                &&& result == Err::<AnimationStep, AnimationError>(AnimationError::LastStep)
            },
    ;

    /// Draws the frame that the animation is at.
    fn apply(&mut self, map: &mut ColorMap) -> (result: Result<(), AnimationError>)
        requires
            old(self).wf(),
            old(map).wf(),
            (old(self).script().fits)(old(map).colors().len()),
        ensures
            final(self).wf(),
            final(self).script() == old(self).script(),
            final(self).steps_taken() == old(self).steps_taken(),
            final(self).exhausted() == old(self).exhausted(),
            final(map).wf(),
            final(map).names() == old(map).names(),
            final(map).colors().len() == old(map).colors().len(),
            result is Ok ==> final(map).colors() == (old(self).script().frame)(
                old(self).steps_taken(),
                old(self).exhausted(),
                old(map).colors(),
            ),
            result is Err ==> final(map).colors() == old(map).colors(),
    ;

    /// Drawing a frame over itself changes nothing.
    proof fn lemma_frame_idempotent(&self, steps: nat, exhausted: bool, colors: Seq<RGB8>) where
        Self: Sized,

        requires
            self.wf(),
            (self.script().fits)(colors.len()),
        ensures
            (self.script().frame)(steps, exhausted, colors).len() == colors.len(),
            (self.script().frame)(
                steps,
                exhausted,
                (self.script().frame)(steps, exhausted, colors),
            ) == (self.script().frame)(steps, exhausted, colors),
    ;
}

} // verus!
