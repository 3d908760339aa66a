use vstd::prelude::*;
use crate::animations::animation::Animation;
use crate::animations::animation::AnimationError;
use crate::animations::animation::Script;
use crate::animations::animation_step::AnimationStep;
use crate::animations::snake_animation::SnakeAnimation;
use crate::constants::LEDS_COUNT;
use crate::map::ColorMap;
use crate::map::RGB8;

verus! {

/// An animation of one of the kinds that the display knows.
pub enum LoadedAnimation {
    Snake(SnakeAnimation<LEDS_COUNT>),
}

impl Animation for LoadedAnimation {
    open spec fn wf(&self) -> bool {
        match self {
            LoadedAnimation::Snake(snake) => snake.wf(),
        }
    }

    open spec fn script(&self) -> Script {
        match self {
            LoadedAnimation::Snake(snake) => snake.script(),
        }
    }

    open spec fn steps_taken(&self) -> nat {
        match self {
            LoadedAnimation::Snake(snake) => snake.steps_taken(),
        }
    }

    open spec fn exhausted(&self) -> bool {
        match self {
            LoadedAnimation::Snake(snake) => snake.exhausted(),
        }
    }

    fn is_started(&self) -> (started: bool) {
        match self {
            LoadedAnimation::Snake(snake) => snake.is_started(),
        }
    }

    /// No kind of animation that can be loaded needs preparing: `init`
    /// succeeds and leaves the animation as it was.
    fn init(&mut self) -> (result: Result<(), AnimationError>)
        ensures
            result == Ok::<(), AnimationError>(()),
            *final(self) == *old(self),
    {
        match self {
            LoadedAnimation::Snake(snake) => snake.init(),
        }
    }

    fn next(&mut self) -> (result: Result<AnimationStep, AnimationError>) {
        match self {
            LoadedAnimation::Snake(snake) => snake.next(),
        }
    }

    fn apply(&mut self, map: &mut ColorMap) -> (result: Result<(), AnimationError>)
        ensures
            result is Ok,
    {
        match self {
            LoadedAnimation::Snake(snake) => snake.apply(map),
        }
    }

    proof fn lemma_frame_idempotent(&self, steps: nat, exhausted: bool, colors: Seq<RGB8>) {
        match self {
            LoadedAnimation::Snake(snake) => snake.lemma_frame_idempotent(steps, exhausted, colors),
        }
    }
}

impl LoadedAnimation {
    /// Whether the animation can be drawn on a display of `leds` LEDs.
    pub fn fits(&self, leds: usize) -> (fits: bool)
        ensures
            fits == (self.script().fits)(leds as nat),
    {
        match self {
            LoadedAnimation::Snake(snake) => snake.fits(leds),
        }
    }
}

/// Holds the animation that is running, if one is.
pub struct AnimationStorage {
    animation: Option<LoadedAnimation>,
}

impl View for AnimationStorage {
    type V = Option<LoadedAnimation>;

    closed spec fn view(&self) -> Option<LoadedAnimation> {
        self.animation
    }
}

impl AnimationStorage {
    /// The loaded animation, if any, is well formed.
    pub open spec fn wf(&self) -> bool {
        self@ is Some ==> self@->0.wf()
    }

    pub fn new() -> (storage: Self)
        ensures
            storage@ is None,
    {
        Self { animation: None }
    }

    /// Whether the loaded animation, if any, can be drawn on a display of
    /// `leds` LEDs.
    pub fn fits(&self, leds: usize) -> (fits: bool)
        ensures
            fits == (self@ is Some ==> (self@->0.script().fits)(leds as nat)),
    {
        match &self.animation {
            Some(animation) => animation.fits(leds),
            None => true,
        }
    }

    /// Whether an animation is loaded that has started.
    pub fn is_started(&self) -> (started: bool)
        requires
            self.wf(),
        ensures
            started == (self@ is Some && self@->0.steps_taken() > 0),
    {
        match &self.animation {
            Some(animation) => animation.is_started(),
            None => false,
        }
    }

    /// Hands out the loaded animation, if there is one.
    pub fn animation<'a>(&'a mut self) -> (animation: Option<&'a mut LoadedAnimation>)
        ensures
            old(self)@ is None ==> animation is None && final(self)@ is None,
            old(self)@ is Some ==> animation is Some && *animation->0 == old(self)@->0
                && final(self)@ == Some(*final(animation->0)),
    {
        match &mut self.animation {
            Some(animation) => Some(animation),
            None => None,
        }
    }

    /// Loads `animation` in place of what was loaded.
    pub fn set_animation(&mut self, animation: LoadedAnimation)
        ensures
            final(self)@ == Some(animation),
    {
        self.animation = Some(animation);
    }

    /// Unloads the animation.
    pub fn remove_animation(&mut self)
        ensures
            final(self)@ is None,
    {
        self.animation = None;
    }
}

} // verus!
