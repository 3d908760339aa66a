use led_map::animations::animation::Animation;
use led_map::animations::animation::AnimationError;
use led_map::animations::animation_manager::AnimationManager;
use led_map::animations::animation_step::AnimationStep;
use led_map::animations::animation_storage::AnimationStorage;
use led_map::animations::animation_storage::LoadedAnimation;
use led_map::animations::fade::fade_channel;
use led_map::animations::fade::fade_color;
use led_map::animations::snake_animation::SnakeAnimation;
use led_map::animations::snake_animation::TAIL_STEPS;
use led_map::commands::snake_command::SNAKE_ORDER;
use led_map::constants::LEDS_COUNT;
use led_map::map::ColorMap;
use led_map::map::INDEX_MAP;
use led_map::map::RGB8;
use led_map::nonblocking::NbError;

fn leak(colors: Vec<RGB8>) -> &'static mut [RGB8] {
    Box::leak(colors.into_boxed_slice())
}

const BLACK: RGB8 = RGB8 { r: 0, g: 0, b: 0 };
const NAMES: [&str; 4] = ["A", "B", "C", "D"];
const PATH: [usize; 4] = [2, 0, 3, 1];
const BASE: RGB8 = RGB8 { r: 200, g: 100, b: 50 };

fn small_map(color: RGB8) -> ColorMap<'static> {
    ColorMap::new(&NAMES, leak(vec![color; 4]))
}

fn small_snake() -> SnakeAnimation<4> {
    SnakeAnimation::new(PATH, 128, BASE, 2500)
}

fn trail(distance: usize) -> RGB8 {
    [
        RGB8 { r: 200, g: 100, b: 50 },
        RGB8 { r: 101, g: 51, b: 26 },
        RGB8 { r: 51, g: 26, b: 13 },
        RGB8 { r: 26, g: 13, b: 7 },
    ][distance]
}

#[test]
fn a_step_holds_its_duration() {
    assert_eq!(AnimationStep::new(1500).duration(), 1500);
    assert_eq!(AnimationStep::new(0).duration(), 0);
    assert_eq!(AnimationStep::new(u64::MAX).duration(), u64::MAX);
}

#[test]
fn nothing_fades_at_the_head() {
    assert_eq!(fade_channel(255, 128, 0), 255);
    assert_eq!(fade_channel(10, 0, 0), 10);
    assert_eq!(fade_channel(0, 77, 0), 0);
}

#[test]
fn fading_multiplies_by_the_coefficient_and_rounds_up() {
    assert_eq!(fade_channel(255, 128, 1), 128);
    assert_eq!(fade_channel(255, 254, 1), 254);
    assert_eq!(fade_channel(100, 128, 2), 26);
    assert_eq!(fade_channel(255, 200, 10), 23);
    assert_eq!(fade_channel(255, 128, 8), 2);
    assert_eq!(fade_channel(255, 128, 9), 1);
    assert_eq!(fade_channel(7, 254, 100), 5);
    assert_eq!(fade_channel(255, 254, 171), 131);
}

#[test]
fn a_product_that_is_whole_is_not_rounded_further() {
    assert_eq!(fade_channel(250, 51, 1), 50);
    assert_eq!(fade_channel(250, 51, 2), 10);
    assert_eq!(fade_channel(243, 85, 5), 1);
}

#[test]
fn what_is_left_of_a_lit_channel_never_falls_below_one() {
    assert_eq!(fade_channel(243, 85, 6), 1);
    assert_eq!(fade_channel(1, 1, 171), 1);
    assert_eq!(fade_channel(255, 1, 500), 1);
}

#[test]
fn the_coefficient_zero_switches_the_trail_off() {
    assert_eq!(fade_channel(10, 0, 1), 0);
    assert_eq!(fade_channel(255, 0, 171), 0);
}

#[test]
fn the_coefficient_255_keeps_the_brightness() {
    assert_eq!(fade_channel(200, 255, 171), 200);
    assert_eq!(fade_channel(1, 255, 1000), 1);
}

#[test]
fn a_dark_channel_stays_dark() {
    assert_eq!(fade_channel(0, 200, 3), 0);
    assert_eq!(fade_channel(0, 255, 3), 0);
}

#[test]
fn each_channel_of_a_colour_fades_on_its_own() {
    assert_eq!(fade_color(BASE, 128, 0), trail(0));
    assert_eq!(fade_color(BASE, 128, 1), trail(1));
    assert_eq!(fade_color(BASE, 128, 2), trail(2));
    assert_eq!(fade_color(BASE, 128, 3), trail(3));
    assert_eq!(fade_color(RGB8 { r: 0, g: 10, b: 255 }, 128, 1), RGB8 { r: 0, g: 6, b: 128 });
}

#[test]
fn a_new_snake_has_not_started() {
    let mut snake = small_snake();
    assert!(!snake.is_started());
    assert_eq!(snake.init(), Ok(()));
    assert_eq!(snake.init(), Ok(()));
    assert!(!snake.is_started());
}

#[test]
fn a_snake_that_has_not_started_draws_nothing() {
    let mut snake = small_snake();
    let mut map = small_map(RGB8 { r: 5, g: 5, b: 5 });
    assert_eq!(snake.apply(&mut map), Ok(()));
    assert_eq!(map.get_map(), vec![RGB8 { r: 5, g: 5, b: 5 }; 4].as_slice());
}

#[test]
fn the_first_step_clears_the_display_and_lights_the_head() {
    let mut snake = small_snake();
    let mut map = small_map(RGB8 { r: 5, g: 5, b: 5 });
    assert_eq!(snake.next(), Ok(AnimationStep::new(2500)));
    assert!(snake.is_started());
    assert_eq!(snake.apply(&mut map), Ok(()));
    assert_eq!(map.get_map(), &[BLACK, BLACK, trail(0), BLACK]);
}

#[test]
fn each_step_moves_the_head_on_and_fades_the_trail() {
    let mut snake = small_snake();
    let mut map = small_map(BLACK);
    snake.next().unwrap();
    snake.apply(&mut map).unwrap();
    snake.next().unwrap();
    snake.apply(&mut map).unwrap();
    assert_eq!(map.get_map(), &[trail(0), BLACK, trail(1), BLACK]);
    snake.next().unwrap();
    snake.apply(&mut map).unwrap();
    assert_eq!(map.get_map(), &[trail(1), BLACK, trail(2), trail(0)]);
    snake.next().unwrap();
    snake.apply(&mut map).unwrap();
    assert_eq!(map.get_map(), &[trail(2), trail(0), trail(3), trail(1)]);
}

#[test]
fn a_later_step_leaves_the_leds_ahead_of_the_head_alone() {
    let mut snake = small_snake();
    let mut map = small_map(BLACK);
    snake.next().unwrap();
    snake.next().unwrap();
    map.fill(RGB8 { r: 9, g: 9, b: 9 });
    snake.apply(&mut map).unwrap();
    assert_eq!(
        map.get_map(),
        &[trail(0), RGB8 { r: 9, g: 9, b: 9 }, trail(1), RGB8 { r: 9, g: 9, b: 9 }]
    );
}

#[test]
fn after_the_head_has_left_the_whole_path_goes_on_fading() {
    let mut snake = SnakeAnimation::new(PATH, 255, BASE, 1);
    let mut map = small_map(BLACK);
    for _ in 0..6 {
        snake.next().unwrap();
    }
    snake.apply(&mut map).unwrap();
    assert_eq!(map.get_map(), &[BASE; 4]);
    let mut snake = small_snake();
    for _ in 0..5 {
        snake.next().unwrap();
    }
    snake.apply(&mut map).unwrap();
    assert_eq!(
        map.get_map(),
        &[fade_color(BASE, 128, 3), trail(1), fade_color(BASE, 128, 4), trail(2)]
    );
}

#[test]
fn drawing_a_step_twice_gives_the_same_display() {
    for steps in 0..8 {
        let mut snake = small_snake();
        for _ in 0..steps {
            snake.next().unwrap();
        }
        let mut map = small_map(RGB8 { r: 3, g: 2, b: 1 });
        snake.apply(&mut map).unwrap();
        let once = map.get_map().to_vec();
        snake.apply(&mut map).unwrap();
        assert_eq!(map.get_map(), once.as_slice());
    }
}

#[test]
fn the_snake_ends_after_its_path_and_its_tail() {
    let mut snake = small_snake();
    for _ in 0..4 + TAIL_STEPS {
        assert_eq!(snake.next(), Ok(AnimationStep::new(2500)));
    }
    assert_eq!(snake.next(), Err(AnimationError::LastStep));
    assert_eq!(snake.next(), Err(AnimationError::LastStep));
    assert!(snake.is_started());
}

#[test]
fn once_the_end_was_reported_drawing_clears_the_display() {
    let mut snake = SnakeAnimation::new(PATH, 255, BASE, 1);
    let mut map = small_map(BLACK);
    for _ in 0..4 + TAIL_STEPS {
        snake.next().unwrap();
    }
    snake.apply(&mut map).unwrap();
    assert_eq!(map.get_map(), &[BASE; 4]);
    assert_eq!(snake.next(), Err(AnimationError::LastStep));
    snake.apply(&mut map).unwrap();
    assert_eq!(map.get_map(), &[BLACK; 4]);
    snake.apply(&mut map).unwrap();
    assert_eq!(map.get_map(), &[BLACK; 4]);
}

#[test]
fn a_path_that_names_an_led_twice_draws_the_later_position() {
    let mut snake = SnakeAnimation::new([1, 1, 0], 128, BASE, 1);
    let mut map = small_map(BLACK);
    snake.next().unwrap();
    snake.next().unwrap();
    snake.apply(&mut map).unwrap();
    assert_eq!(map.get_map(), &[BLACK, trail(0), BLACK, BLACK]);
}

#[test]
fn a_snake_without_leds_still_runs_its_tail() {
    let mut snake = SnakeAnimation::<0>::new([], 128, BASE, 7);
    let mut map = small_map(BASE);
    snake.next().unwrap();
    snake.apply(&mut map).unwrap();
    assert_eq!(map.get_map(), &[BLACK; 4]);
    for _ in 1..TAIL_STEPS {
        assert_eq!(snake.next(), Ok(AnimationStep::new(7)));
    }
    assert_eq!(snake.next(), Err(AnimationError::LastStep));
}

#[test]
fn a_storage_starts_empty_and_holds_what_is_set() {
    let mut storage = AnimationStorage::new();
    assert!(storage.animation().is_none());
    storage.set_animation(LoadedAnimation::Snake(SnakeAnimation::new(SNAKE_ORDER, 1, BASE, 9)));
    assert_eq!(storage.animation().unwrap().next(), Ok(AnimationStep::new(9)));
    assert!(storage.animation().unwrap().is_started());
    storage.set_animation(LoadedAnimation::Snake(SnakeAnimation::new(SNAKE_ORDER, 1, BASE, 8)));
    assert!(!storage.animation().unwrap().is_started());
    storage.remove_animation();
    assert!(storage.animation().is_none());
    storage.remove_animation();
    assert!(storage.animation().is_none());
}

#[test]
fn a_loaded_animation_steps_and_draws_as_its_kind_does() {
    let mut animation =
        LoadedAnimation::Snake(SnakeAnimation::new(SNAKE_ORDER, 128, BASE, 4));
    let mut map = ColorMap::new(&INDEX_MAP, leak(vec![BASE; LEDS_COUNT]));
    assert_eq!(animation.init(), Ok(()));
    assert_eq!(animation.next(), Ok(AnimationStep::new(4)));
    assert_eq!(animation.next(), Ok(AnimationStep::new(4)));
    assert_eq!(animation.apply(&mut map), Ok(()));
    assert_eq!(map.get(19), Ok(trail(0)));
    assert_eq!(map.get(24), Ok(trail(1)));
    assert_eq!(map.get(16), Ok(BASE));
}

#[test]
fn a_manager_without_an_animation_does_nothing() {
    let mut manager = AnimationManager::new();
    let mut map = ColorMap::new(&INDEX_MAP, leak(vec![BASE; LEDS_COUNT]));
    assert!(!manager.awaits_timer());
    assert_eq!(manager.update(&mut map, false), Ok(None));
    assert_eq!(manager.update(&mut map, true), Ok(None));
    assert_eq!(map.get_map(), vec![BASE; LEDS_COUNT].as_slice());
}

#[test]
fn a_manager_starts_a_new_animation_without_asking_the_timer() {
    let mut manager = AnimationManager::new();
    let mut map = ColorMap::new(&INDEX_MAP, leak(vec![BASE; LEDS_COUNT]));
    manager.storage().set_animation(LoadedAnimation::Snake(SnakeAnimation::new(
        SNAKE_ORDER,
        128,
        BASE,
        3000,
    )));
    assert!(!manager.awaits_timer());
    assert_eq!(manager.update(&mut map, false), Ok(Some(AnimationStep::new(3000))));
    assert!(manager.awaits_timer());
    let mut expected = vec![BLACK; LEDS_COUNT];
    expected[24] = BASE;
    assert_eq!(map.get_map(), expected.as_slice());
}

#[test]
fn a_manager_waits_until_the_timer_ran_off() {
    let mut manager = AnimationManager::new();
    let mut map = ColorMap::new(&INDEX_MAP, leak(vec![BLACK; LEDS_COUNT]));
    manager.storage().set_animation(LoadedAnimation::Snake(SnakeAnimation::new(
        SNAKE_ORDER,
        128,
        BASE,
        3000,
    )));
    manager.update(&mut map, false).unwrap();
    let shown = map.get_map().to_vec();
    assert_eq!(manager.update(&mut map, false), Err(NbError::WouldBlock));
    assert_eq!(manager.update(&mut map, false), Err(NbError::WouldBlock));
    assert_eq!(map.get_map(), shown.as_slice());
    assert_eq!(manager.update(&mut map, true), Ok(Some(AnimationStep::new(3000))));
    assert_eq!(map.get(19), Ok(trail(0)));
    assert_eq!(map.get(24), Ok(trail(1)));
}

#[test]
fn a_manager_unloads_the_animation_at_its_end_and_leaves_the_last_frame() {
    let mut manager = AnimationManager::new();
    let mut map = ColorMap::new(&INDEX_MAP, leak(vec![BLACK; LEDS_COUNT]));
    manager.storage().set_animation(LoadedAnimation::Snake(SnakeAnimation::new(
        SNAKE_ORDER,
        255,
        BASE,
        1,
    )));
    for _ in 0..LEDS_COUNT + TAIL_STEPS {
        assert_eq!(manager.update(&mut map, true), Ok(Some(AnimationStep::new(1))));
    }
    assert_eq!(map.get_map(), vec![BASE; LEDS_COUNT].as_slice());
    assert_eq!(manager.update(&mut map, true), Ok(None));
    assert!(manager.storage().animation().is_none());
    assert!(!manager.awaits_timer());
    assert_eq!(map.get_map(), vec![BASE; LEDS_COUNT].as_slice());
    assert_eq!(manager.update(&mut map, true), Ok(None));
}

#[test]
fn a_manager_holds_an_exhausted_animation_until_the_timer_ran_off() {
    let mut manager = AnimationManager::new();
    let mut map = ColorMap::new(&INDEX_MAP, leak(vec![BLACK; LEDS_COUNT]));
    manager.storage().set_animation(LoadedAnimation::Snake(SnakeAnimation::new(
        SNAKE_ORDER,
        255,
        BASE,
        1,
    )));
    for _ in 0..LEDS_COUNT + TAIL_STEPS {
        manager.update(&mut map, true).unwrap();
    }
    assert_eq!(manager.update(&mut map, false), Err(NbError::WouldBlock));
    assert!(manager.storage().animation().is_some());
}
