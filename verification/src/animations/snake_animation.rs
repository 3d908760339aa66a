use vstd::prelude::*;
use crate::animations::animation::Animation;
use crate::animations::animation::AnimationError;
use crate::animations::animation::Script;
use crate::animations::animation_step::AnimationStep;
use crate::animations::fade::fade_color;
use crate::animations::fade::faded_color;
use crate::animations::fade::lemma_faded_at_head;
use crate::map::black;
use crate::map::ColorMap;
use crate::map::RGB8;

verus! {

/// Number of steps that the snake goes on after its head has reached the
/// last LED, so that the tail can fade.
pub const TAIL_STEPS: usize = 100;

/// A display of `len` LEDs, all off.
pub open spec fn blank(len: nat) -> Seq<RGB8> {
    Seq::new(len, |i: int| black())
}

/// Every entry of `order` is the index of an LED on a display of `leds` LEDs.
pub open spec fn order_fits(order: Seq<usize>, leds: nat) -> bool {
    forall|i: int| 0 <= i < order.len() ==> #[trigger] order[i] < leds
}

/// No LED occurs twice in `order`.
pub open spec fn order_distinct(order: Seq<usize>) -> bool {
    forall|i: int, j: int| 0 <= i < j < order.len() ==> order[i] != order[j]
}

/// The colour of the snake at traversal position `position` once `steps`
/// steps were taken: the head, at position `steps - 1`, has the base colour,
/// and each position behind it is faded once more.
pub open spec fn trail_color(color: RGB8, coefficient: u8, steps: nat, position: nat) -> RGB8 {
    faded_color(color, coefficient, (steps - 1 - position) as nat)
}

/// `colors` with the first `count` positions of `order` drawn, in order.
pub open spec fn painted(
    colors: Seq<RGB8>,
    order: Seq<usize>,
    color: RGB8,
    coefficient: u8,
    steps: nat,
    count: nat,
) -> Seq<RGB8>
    decreases count,
{
    if count == 0 {
        colors
    } else {
        let position = (count - 1) as nat;
        painted(colors, order, color, coefficient, steps, position).update(
            order[position as int] as int,
            trail_color(color, coefficient, steps, position),
        )
    }
}

/// Number of positions of the traversal that the snake covers after `steps`
/// steps.
pub open spec fn lit_count(order: Seq<usize>, steps: nat) -> nat {
    if steps <= order.len() {
        steps
    } else {
        order.len()
    }
}

/// The display after the snake was drawn on `colors`: the first step starts
/// from a dark display, every step draws the lit part of the traversal, and
/// once the end was reported the display is dark.
pub open spec fn snake_frame(
    order: Seq<usize>,
    color: RGB8,
    coefficient: u8,
    steps: nat,
    exhausted: bool,
    colors: Seq<RGB8>,
) -> Seq<RGB8> {
    if exhausted {
        blank(colors.len())
    } else {
        painted(
            if steps == 1 {
                blank(colors.len())
            } else {
                colors
            },
            order,
            color,
            coefficient,
            steps,
            lit_count(order, steps),
        )
    }
}

/// The last of the first `count` positions of `order` that holds `led`, or
/// -1 where none does.
pub open spec fn last_position(order: Seq<usize>, count: nat, led: int) -> int
    decreases count,
{
    if count == 0 {
        -1
    } else if order[count - 1] == led {
        count - 1
    } else {
        last_position(order, (count - 1) as nat, led)
    }
}

pub proof fn lemma_last_position(order: Seq<usize>, count: nat, led: int)
    requires
        count <= order.len(),
    ensures
        -1 <= last_position(order, count, led) < count,
        last_position(order, count, led) >= 0 ==> order[last_position(order, count, led)] == led,
        last_position(order, count, led) == -1 ==> forall|i: int|
            0 <= i < count ==> order[i] != led,
        forall|i: int| last_position(order, count, led) < i < count ==> order[i] != led,
    decreases count,
{
    if count > 0 {
        lemma_last_position(order, (count - 1) as nat, led);
    }
}

/// What drawing leaves at each LED: the colour of the last position that
/// names the LED, or what was there before.
pub proof fn lemma_painted(
    colors: Seq<RGB8>,
    order: Seq<usize>,
    color: RGB8,
    coefficient: u8,
    steps: nat,
    count: nat,
)
    requires
        count <= order.len(),
        order_fits(order, colors.len()),
    ensures
        painted(colors, order, color, coefficient, steps, count).len() == colors.len(),
        forall|led: int|
            0 <= led < colors.len() ==> #[trigger] painted(
                colors,
                order,
                color,
                coefficient,
                steps,
                count,
            )[led] == if last_position(order, count, led) >= 0 {
                trail_color(color, coefficient, steps, last_position(order, count, led) as nat)
            } else {
                colors[led]
            },
    decreases count,
{
    if count > 0 {
        let position = (count - 1) as nat;
        lemma_painted(colors, order, color, coefficient, steps, position);
        assert(order[position as int] < colors.len());
    }
}

/// Drawing the snake a second time changes nothing.
pub proof fn lemma_snake_frame_idempotent(
    order: Seq<usize>,
    color: RGB8,
    coefficient: u8,
    steps: nat,
    exhausted: bool,
    colors: Seq<RGB8>,
)
    requires
        order_fits(order, colors.len()),
    ensures
        snake_frame(order, color, coefficient, steps, exhausted, colors).len() == colors.len(),
        snake_frame(
            order,
            color,
            coefficient,
            steps,
            exhausted,
            snake_frame(order, color, coefficient, steps, exhausted, colors),
        ) == snake_frame(order, color, coefficient, steps, exhausted, colors),
{
    let once = snake_frame(order, color, coefficient, steps, exhausted, colors);
    let twice = snake_frame(order, color, coefficient, steps, exhausted, once);
    if exhausted {
        assert(twice =~= once);
    } else {
        let count = lit_count(order, steps);
        let start = if steps == 1 {
            blank(colors.len())
        } else {
            colors
        };
        lemma_painted(start, order, color, coefficient, steps, count);
        let again = if steps == 1 {
            blank(once.len())
        } else {
            once
        };
        lemma_painted(again, order, color, coefficient, steps, count);
        assert(twice =~= once);
    }
}

/// A light that runs along a fixed path over the display and leaves a
/// fading trail.
pub struct SnakeAnimation<const LEDS_COUNT: usize> {
    step: usize,
    finished: bool,
    order: [usize; LEDS_COUNT],
    previous_factor: u8,
    color: RGB8,
    step_duration: u64,
}

impl<const LEDS_COUNT: usize> SnakeAnimation<LEDS_COUNT> {
    /// The path: the LED at each traversal position.
    pub closed spec fn order(&self) -> Seq<usize> {
        self.order@
    }

    /// The colour of the head.
    pub closed spec fn color(&self) -> RGB8 {
        self.color
    }

    /// The part, in 255ths, of its brightness that a position keeps of the
    /// position before it.
    pub closed spec fn coefficient(&self) -> u8 {
        self.previous_factor
    }

    /// How long each frame stays, in microseconds.
    pub closed spec fn step_duration(&self) -> u64 {
        self.step_duration
    }

    /// Number of steps taken.
    pub closed spec fn step(&self) -> nat {
        self.step as nat
    }

    /// Whether the end was reported.
    pub closed spec fn finished(&self) -> bool {
        self.finished
    }

    /// The animation with the given path, fading and colour, before its
    /// first step.
    pub closed spec fn fresh(
        order: [usize; LEDS_COUNT],
        previous_factor: u8,
        color: RGB8,
        step_duration: u64,
    ) -> Self {
        Self { step: 0, finished: false, order, previous_factor, color, step_duration }
    }

    /// What a fresh animation holds.
    pub proof fn lemma_fresh(
        order: [usize; LEDS_COUNT],
        previous_factor: u8,
        color: RGB8,
        step_duration: u64,
    )
        ensures
            Self::fresh(order, previous_factor, color, step_duration).order() == order@,
            Self::fresh(order, previous_factor, color, step_duration).coefficient()
                == previous_factor,
            Self::fresh(order, previous_factor, color, step_duration).color() == color,
            Self::fresh(order, previous_factor, color, step_duration).step_duration()
                == step_duration,
            Self::fresh(order, previous_factor, color, step_duration).step() == 0,
            !Self::fresh(order, previous_factor, color, step_duration).finished(),
    {
    }

    /// `order` is the path, `previous_factor / 255` the part of its
    /// brightness that each position keeps of the one before it.
    pub fn new(
        order: [usize; LEDS_COUNT],
        previous_factor: u8,
        color: RGB8,
        step_duration: u64,
    ) -> (animation: Self)
        requires
            LEDS_COUNT + TAIL_STEPS + 2 <= usize::MAX,
        ensures
            animation == Self::fresh(order, previous_factor, color, step_duration),
            animation.wf(),
            animation.order() == order@,
            animation.coefficient() == previous_factor,
            animation.color() == color,
            animation.step_duration() == step_duration,
            animation.steps_taken() == 0,
            !animation.exhausted(),
    {
        Self { step: 0, finished: false, order, previous_factor, color, step_duration }
    }

    /// Whether every LED of the path is on a display of `leds` LEDs.
    pub fn fits(&self, leds: usize) -> (fits: bool)
        ensures
            fits == order_fits(self.order(), leds as nat),
    {
        let mut i: usize = 0;
        while i < LEDS_COUNT
            invariant
                i <= LEDS_COUNT,
                self.order@.len() == LEDS_COUNT,
                forall|k: int| 0 <= k < i ==> #[trigger] self.order@[k] < leds,
            decreases LEDS_COUNT - i,
        {
            if self.order[i] >= leds {
                return false;
            }
            i += 1;
        }
        true
    }

    fn is_first_step(&self) -> (first: bool)
        ensures
            first == (self.step() == 1),
    {
        self.step == 1
    }

    fn is_last_step(&self) -> (last: bool)
        ensures
            last == self.finished(),
    {
        self.finished
    }
}

impl<const LEDS_COUNT: usize> Animation for SnakeAnimation<LEDS_COUNT> {
    open spec fn wf(&self) -> bool {
        &&& self.order().len() == LEDS_COUNT
        &&& LEDS_COUNT + TAIL_STEPS + 2 <= usize::MAX
        &&& self.step() <= LEDS_COUNT + TAIL_STEPS
    }

    open spec fn script(&self) -> Script {
        Script {
            length: (LEDS_COUNT + TAIL_STEPS) as nat,
            fits: |leds: nat| order_fits(self.order(), leds),
            duration: |step: nat| self.step_duration(),
            frame: |steps: nat, exhausted: bool, colors: Seq<RGB8>|
                snake_frame(self.order(), self.color(), self.coefficient(), steps, exhausted, colors),
        }
    }

    open spec fn steps_taken(&self) -> nat {
        self.step()
    }

    open spec fn exhausted(&self) -> bool {
        self.finished()
    }

    fn is_started(&self) -> (started: bool) {
        self.step > 0
    }

    /// The snake needs no preparing: `init` succeeds and leaves it as it was.
    fn init(&mut self) -> (result: Result<(), AnimationError>)
        ensures
            result == Ok::<(), AnimationError>(()),
            *final(self) == *old(self),
    {
        Ok(())
    }

    fn next(&mut self) -> (result: Result<AnimationStep, AnimationError>) {
        if self.step == LEDS_COUNT + TAIL_STEPS {
            self.finished = true;
            return Err(AnimationError::LastStep);
        }
        self.step += 1;
        Ok(AnimationStep::new(self.step_duration))
    }

    fn apply(&mut self, map: &mut ColorMap) -> (result: Result<(), AnimationError>)
        ensures
            result is Ok,
    {
        if self.is_first_step() {
            map.clear();
        }
        let count = if self.step <= LEDS_COUNT {
            self.step
        } else {
            LEDS_COUNT
        };
        let ghost start = map.colors();
        let mut i: usize = 0;
        while i < count
            invariant
                i <= count,
                count == lit_count(self.order(), self.step()),
                count <= LEDS_COUNT,
                self.wf(),
                map.wf(),
                map.names() == old(map).names(),
                start.len() == old(map).colors().len(),
                order_fits(self.order(), start.len()),
                map.colors() == painted(
                    start,
                    self.order(),
                    self.color(),
                    self.coefficient(),
                    self.step(),
                    i as nat,
                ),
                map.colors().len() == start.len(),
            decreases count - i,
        {
            let led_index = self.order[i];
            let color = fade_color(self.color, self.previous_factor, self.step - i - 1);
            assert(self.order()[i as int] < start.len());
            let set = map.set(led_index, color);
            i += 1;
        }
        if self.is_last_step() {
            map.clear();
        }
        proof {
            assert(map.colors() =~= snake_frame(
                self.order(),
                self.color(),
                self.coefficient(),
                self.step(),
                self.finished(),
                old(map).colors(),
            ));
        }
        Ok(())
    }

    proof fn lemma_frame_idempotent(&self, steps: nat, exhausted: bool, colors: Seq<RGB8>) {
        lemma_snake_frame_idempotent(
            self.order(),
            self.color(),
            self.coefficient(),
            steps,
            exhausted,
            colors,
        );
    }
}

/// The frame of step `steps`, where no LED occurs twice on the path: each
/// lit position shows the base colour faded once for each position between
/// it and the head, the head itself shows the base colour, and every LED
/// that the lit part of the path does not name is dark at the first step and
/// keeps its colour at the later ones.
pub proof fn lemma_snake_step(
    order: Seq<usize>,
    color: RGB8,
    coefficient: u8,
    steps: nat,
    colors: Seq<RGB8>,
)
    requires
        order_fits(order, colors.len()),
        order_distinct(order),
        steps >= 1,
    ensures
        snake_frame(order, color, coefficient, steps, false, colors).len() == colors.len(),
        forall|position: int|
            0 <= position < lit_count(order, steps) ==> snake_frame(
                order,
                color,
                coefficient,
                steps,
                false,
                colors,
            )[#[trigger] order[position] as int] == faded_color(
                color,
                coefficient,
                (steps - 1 - position) as nat,
            ),
        steps <= order.len() ==> snake_frame(order, color, coefficient, steps, false, colors)[order[
            steps - 1
        ] as int] == color,
        forall|led: int|
            0 <= led < colors.len() && (forall|position: int|
                0 <= position < lit_count(order, steps) ==> order[position] != led)
                ==> #[trigger] snake_frame(order, color, coefficient, steps, false, colors)[led]
                == if steps == 1 {
                black()
            } else {
                colors[led]
            },
{
    let count = lit_count(order, steps);
    let start = if steps == 1 {
        blank(colors.len())
    } else {
        colors
    };
    let frame = snake_frame(order, color, coefficient, steps, false, colors);
    lemma_painted(start, order, color, coefficient, steps, count);
    assert forall|position: int| 0 <= position < count implies frame[#[trigger] order[position] as int]
        == faded_color(color, coefficient, (steps - 1 - position) as nat) by {
        let led = order[position] as int;
        lemma_last_position(order, count, led);
        let last = last_position(order, count, led);
        assert(last == position) by {
            if last < position {
                assert(order[position] != led);
            } else if last > position {
                assert(order[position] != order[last]);
            }
        }
        assert(frame[led] == painted(start, order, color, coefficient, steps, count)[led]);
    }
    if steps <= order.len() {
        let head = steps - 1;
        assert(frame[order[head] as int] == faded_color(color, coefficient, 0));
        lemma_faded_at_head(color.r, coefficient);
        lemma_faded_at_head(color.g, coefficient);
        lemma_faded_at_head(color.b, coefficient);
    }
    assert forall|led: int|
        0 <= led < colors.len() && (forall|position: int|
            0 <= position < count ==> order[position] != led) implies #[trigger] frame[led] == if steps
        == 1 {
        black()
    } else {
        colors[led]
    } by {
        lemma_last_position(order, count, led);
        let last = last_position(order, count, led);
        if last >= 0 {
            assert(order[last] == led);
        }
        assert(frame[led] == painted(start, order, color, coefficient, steps, count)[led]);
    }
}

/// Once the end was reported, drawing leaves the display dark.
pub proof fn lemma_snake_end(
    order: Seq<usize>,
    color: RGB8,
    coefficient: u8,
    steps: nat,
    colors: Seq<RGB8>,
)
    ensures
        snake_frame(order, color, coefficient, steps, true, colors) == blank(colors.len()),
        forall|led: int|
            0 <= led < colors.len() ==> #[trigger] snake_frame(
                order,
                color,
                coefficient,
                steps,
                true,
                colors,
            )[led] == black(),
{
}

} // verus!
