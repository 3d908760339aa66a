use vstd::prelude::*;
use crate::animations::animation::Animation;
use crate::animations::animation::AnimationError;
use crate::animations::animation_step::AnimationStep;
use crate::animations::animation_storage::AnimationStorage;
use crate::animations::animation_storage::LoadedAnimation;
use crate::map::ColorMap;
use crate::nonblocking::NbError;

verus! {

/// Whether `animation` waits for its frame's hold time to run out before it
/// goes on: true once it has started.
pub open spec fn awaits_timer(animation: Option<LoadedAnimation>) -> bool {
    animation is Some && animation->0.steps_taken() > 0
}

/// Whether `animation` has a frame left to step to.
pub open spec fn has_next(animation: LoadedAnimation) -> bool {
    animation.steps_taken() < animation.script().length
}

/// `after` is `before`, one step on.
pub open spec fn stepped(before: LoadedAnimation, after: LoadedAnimation) -> bool {
    &&& after.wf()
    &&& after.script() == before.script()
    &&& after.steps_taken() == before.steps_taken() + 1
    &&& after.exhausted() == before.exhausted()
}

/// Steps the loaded animation in time. The countdown timer itself is the
/// caller's: it says whether it ran off, and arms it for the step that
/// `update` hands back.
pub struct AnimationManager {
    storage: AnimationStorage,
}

impl View for AnimationManager {
    type V = Option<LoadedAnimation>;

    closed spec fn view(&self) -> Option<LoadedAnimation> {
        self.storage@
    }
}

impl AnimationManager {
    /// The loaded animation, if any, is well formed.
    pub open spec fn wf(&self) -> bool {
        self@ is Some ==> self@->0.wf()
    }

    pub fn new() -> (manager: Self)
        ensures
            manager@ is None,
    {
        Self { storage: AnimationStorage::new() }
    }

    pub fn storage(&mut self) -> (storage: &mut AnimationStorage)
        ensures
            storage@ == old(self)@,
            final(self)@ == final(storage)@,
    {
        &mut self.storage
    }

    /// Whether the loaded animation, if any, can be drawn on `map`.
    pub fn fits(&self, map: &ColorMap) -> (fits: bool)
        ensures
            fits == (self@ is Some ==> (self@->0.script().fits)(map.colors().len())),
    {
        self.storage.fits(map.len())
    }

    /// Whether the caller has to ask the countdown timer before `update`.
    pub fn awaits_timer(&self) -> (awaits: bool)
        requires
            self.wf(),
        ensures
            awaits == awaits_timer(self@),
    {
        self.storage.is_started()
    }

    /// One turn of the animation. `timer_ran_off` says whether the hold time
    /// of the frame on display is over; it counts only once the animation has
    /// started. Where a step is handed back, the caller arms the timer for
    /// its duration.
    pub fn update(&mut self, map: &mut ColorMap, timer_ran_off: bool) -> (result: Result<
        Option<AnimationStep>,
        NbError<AnimationError>,
    >)
        requires
            old(self).wf(),
            old(map).wf(),
            old(self)@ is Some ==> (old(self)@->0.script().fits)(old(map).colors().len()),
        ensures
            final(self).wf(),
            final(map).wf(),
            final(map).names() == old(map).names(),
            final(map).colors().len() == old(map).colors().len(),
            match old(self)@ {
                None => {
                    &&& result == Ok::<Option<AnimationStep>, NbError<AnimationError>>(None)
                    &&& final(self)@ is None
                    &&& final(map).colors() == old(map).colors()
                },
                Some(before) => if awaits_timer(old(self)@) && !timer_ran_off {
                    &&& result == Err::<Option<AnimationStep>, NbError<AnimationError>>(
                        NbError::WouldBlock,
                    )
                    &&& final(self)@ == old(self)@
                    &&& final(map).colors() == old(map).colors()
                } else if !has_next(before) {
                    &&& result == Ok::<Option<AnimationStep>, NbError<AnimationError>>(None)
                    &&& final(self)@ is None
                    &&& final(map).colors() == old(map).colors()
                } else {
                    &&& final(self)@ is Some
                    &&& stepped(before, final(self)@->0)
                    &&& result is Ok
                    &&& result->Ok_0 is Some
                    &&& result->Ok_0->0@ == (before.script().duration)(before.steps_taken() + 1)
                    &&& final(map).colors() == (before.script().frame)(
                        before.steps_taken() + 1,
                        before.exhausted(),
                        old(map).colors(),
                    )
                },
            },
    {
        let step_result;
        {
            let animation = match self.storage.animation() {
                Some(animation) => animation,
                None => {
                    return Ok(None);
                },
            };
            if animation.is_started() && !timer_ran_off {
                return Err(NbError::WouldBlock);
            }
            step_result = animation.next();
            if step_result.is_ok() {
                match animation.apply(map) {
                    Ok(()) => {},
                    Err(error) => {
                        return Err(NbError::Other(error));
                    },
                }
            }
        }
        match step_result {
            Ok(step) => Ok(Some(step)),
            Err(_) => {
                self.storage.remove_animation();
                Ok(None)
            },
        }
    }
}

} // verus!
