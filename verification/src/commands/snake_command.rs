use vstd::prelude::*;
use crate::animations::animation_storage::LoadedAnimation;
use crate::animations::snake_animation::SnakeAnimation;
use crate::commands::command_argument::parsed_integer;
use crate::commands::command_data::CommandData;
use crate::commands::command_handler::parsed_channel;
use crate::commands::command_handler::refused;
use crate::commands::command_handler::CommandHandleError;
use crate::commands::command_handler::Handled;
use crate::commands::command_handler::SpecificCommandHandler;
use crate::constants::LEDS_COUNT;
use crate::map::RGB8;

verus! {

/// The path of the snake over the display: the LED at each position.
pub const SNAKE_ORDER: [usize; LEDS_COUNT] = [
    24, 19, 16, 10, 15, 9, 6, 8, 3, 0, 4, 1, 2, 5, 11, 7, 12, 18, 21, 29, 27, 34, 38, 31, 17, 25,
    45, 30, 36, 35, 42, 44, 56, 48, 61, 57, 65, 68, 59, 49, 55, 63, 71, 69, 62, 47, 53, 46, 51,
    64, 52, 67, 70, 66, 60, 58, 54, 50, 37, 40, 41, 23, 22, 14, 13, 20, 28, 33, 39, 43, 32, 26,
];

/// `SNAKE <coeff> <R> <G> <B> <duration>`: starts the snake with the given
/// fading, in 255ths, colour of the head, and hold time of a frame in
/// milliseconds.
#[derive(Default)]
pub struct SnakeCommand;

impl SpecificCommandHandler for SnakeCommand {
    open spec fn handled(
        &self,
        line: Seq<char>,
        arguments: Seq<Seq<char>>,
        names: Seq<Seq<char>>,
        colors: Seq<RGB8>,
        animation: Option<LoadedAnimation>,
    ) -> Handled {
        if arguments.len() < 6 {
            refused(colors, animation)
        } else {
            match (
                parsed_channel(arguments[1]),
                parsed_channel(arguments[2]),
                parsed_channel(arguments[3]),
                parsed_channel(arguments[4]),
                parsed_integer(arguments[5]),
            ) {
                (Some(coefficient), Some(r), Some(g), Some(b), Some(duration)) => Handled {
                    result: Ok(Seq::empty()),
                    colors,
                    animation: Some(
                        LoadedAnimation::Snake(
                            SnakeAnimation::fresh(
                                SNAKE_ORDER,
                                coefficient,
                                RGB8 { r, g, b },
                                (duration * 1000) as u64,
                            ),
                        ),
                    ),
                },
                _ => refused(colors, animation),
            }
        }
    }

    open spec fn help_text(&self) -> Seq<char> {
        "<coeff> <R> <G> <B> <duration> - Let snake run with the given base color and coefficient of light off"@
    }

    fn handle(&self, command: CommandData) -> (result: Result<Vec<char>, CommandHandleError>) {
        let (cmd, animation) = command.deconstruct_animation();
        let arguments = cmd.parsed_arguments();
        if arguments.len() < 6 {
            return Err(CommandHandleError::WrongArguments);
        }
        assert(cmd.arguments()[1] == arguments@[1]@);
        assert(cmd.arguments()[2] == arguments@[2]@);
        assert(cmd.arguments()[3] == arguments@[3]@);
        assert(cmd.arguments()[4] == arguments@[4]@);
        assert(cmd.arguments()[5] == arguments@[5]@);
        let coeff = arguments[1].try_to_integer();
        let r = arguments[2].try_to_integer();
        let g = arguments[3].try_to_integer();
        let b = arguments[4].try_to_integer();
        let duration = arguments[5].try_to_integer();
        if r.is_none() || g.is_none() || b.is_none() || coeff.is_none() || duration.is_none() {
            return Err(CommandHandleError::WrongArguments);
        }
        let coeff = coeff.unwrap();
        let r = r.unwrap();
        let g = g.unwrap();
        let b = b.unwrap();
        let duration = duration.unwrap();
        if r > 255 || g > 255 || b > 255 || coeff > 255 {
            return Err(CommandHandleError::WrongArguments);
        }
        let micros: u64 = duration as u64 * 1000;
        animation.set_animation(
            LoadedAnimation::Snake(
                SnakeAnimation::<LEDS_COUNT>::new(
                    SNAKE_ORDER,
                    coeff as u8,
                    RGB8 { r: r as u8, g: g as u8, b: b as u8 },
                    micros,
                ),
            ),
        );
        Ok(Vec::new())
    }

    fn help(&self) -> (text: &'static str) {
        "<coeff> <R> <G> <B> <duration> - Let snake run with the given base color and coefficient of light off"
    }
}

/// A coefficient and three channels of at most 255 and a duration load a
/// fresh snake with them, whatever was loaded before and whatever the
/// display shows, and leave the display as it is.
pub proof fn lemma_snake_loads_a_fresh_snake(
    line: Seq<char>,
    arguments: Seq<Seq<char>>,
    names: Seq<Seq<char>>,
    colors: Seq<RGB8>,
    animation: Option<LoadedAnimation>,
    coefficient: u8,
    r: u8,
    g: u8,
    b: u8,
    duration: u32,
)
    requires
        arguments.len() >= 6,
        parsed_integer(arguments[1]) == Some(coefficient as u32),
        parsed_integer(arguments[2]) == Some(r as u32),
        parsed_integer(arguments[3]) == Some(g as u32),
        parsed_integer(arguments[4]) == Some(b as u32),
        parsed_integer(arguments[5]) == Some(duration),
    ensures
        SnakeCommand.handled(line, arguments, names, colors, animation).result == Ok::<
            Seq<char>,
            CommandHandleError,
        >(Seq::empty()),
        SnakeCommand.handled(line, arguments, names, colors, animation).colors == colors,
        SnakeCommand.handled(line, arguments, names, colors, animation).animation == Some(
            LoadedAnimation::Snake(
                SnakeAnimation::fresh(
                    SNAKE_ORDER,
                    coefficient,
                    RGB8 { r, g, b },
                    (duration * 1000) as u64,
                ),
            ),
        ),
{
}

/// `SNAKE` is refused exactly where words are missing, a word is no number,
/// or the coefficient or a channel is above 255; nothing changes then.
pub proof fn lemma_snake_refusal(
    line: Seq<char>,
    arguments: Seq<Seq<char>>,
    names: Seq<Seq<char>>,
    colors: Seq<RGB8>,
    animation: Option<LoadedAnimation>,
)
    ensures
        SnakeCommand.handled(line, arguments, names, colors, animation).result is Err <==> (
        arguments.len() < 6 || parsed_channel(arguments[1]) is None || parsed_channel(
            arguments[2],
        ) is None || parsed_channel(arguments[3]) is None || parsed_channel(arguments[4]) is None
            || parsed_integer(arguments[5]) is None),
        SnakeCommand.handled(line, arguments, names, colors, animation).result is Err
            ==> SnakeCommand.handled(line, arguments, names, colors, animation) == refused(
            colors,
            animation,
        ),
{
}

} // verus!
