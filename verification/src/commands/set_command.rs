use vstd::prelude::*;
use crate::animations::animation_storage::LoadedAnimation;
use crate::commands::command_argument::parsed_integer;
use crate::commands::command_data::CommandData;
use crate::commands::command_handler::parsed_channel;
use crate::commands::command_handler::refused;
use crate::commands::command_handler::CommandHandleError;
use crate::commands::command_handler::Handled;
use crate::commands::command_handler::SpecificCommandHandler;
use crate::map::has_name;
use crate::map::is_first_match;
use crate::map::RGB8;

verus! {

/// The LED that an argument names on a display with the region names
/// `names`: the LED of that index where the argument is a number, else the
/// first LED whose region has that name.
pub open spec fn named_led(names: Seq<Seq<char>>, argument: Seq<char>) -> Option<int> {
    match parsed_integer(argument) {
        Some(index) => Some(index as int),
        None => if has_name(names, argument) {
            Some(choose|i: int| is_first_match(names, argument, i))
        } else {
            None
        },
    }
}

/// `SET <id or name> <R> <G> <B>`: gives one LED a colour.
pub struct SetCommand {}

impl SetCommand {
    pub fn new() -> Self {
        Self {  }
    }
}

impl SpecificCommandHandler for SetCommand {
    open spec fn handled(
        &self,
        line: Seq<char>,
        arguments: Seq<Seq<char>>,
        names: Seq<Seq<char>>,
        colors: Seq<RGB8>,
        animation: Option<LoadedAnimation>,
    ) -> Handled {
        if arguments.len() < 5 {
            refused(colors, animation)
        } else {
            match (
                named_led(names, arguments[1]),
                parsed_channel(arguments[2]),
                parsed_channel(arguments[3]),
                parsed_channel(arguments[4]),
            ) {
                (Some(led), Some(r), Some(g), Some(b)) => if led < colors.len() {
                    Handled {
                        result: Ok(Seq::empty()),
                        colors: colors.update(led, RGB8 { r, g, b }),
                        animation,
                    }
                } else {
                    refused(colors, animation)
                },
                _ => refused(colors, animation),
            }
        }
    }

    open spec fn help_text(&self) -> Seq<char> {
        "<id or name> <R> <G> <B> - Set the specified LED to the given color levels"@
    }

    fn handle(&self, command: CommandData) -> (result: Result<Vec<char>, CommandHandleError>) {
        let (cmd, map, _) = command.deconstruct();
        let arguments = cmd.parsed_arguments();
        if arguments.len() < 5 {
            return Err(CommandHandleError::WrongArguments);
        }
        assert(cmd.arguments()[1] == arguments@[1]@);
        assert(cmd.arguments()[2] == arguments@[2]@);
        assert(cmd.arguments()[3] == arguments@[3]@);
        assert(cmd.arguments()[4] == arguments@[4]@);
        let led_id = arguments[1];
        let led_id = match led_id.try_to_integer() {
            Some(id) => id as usize,
            None => match map.get_index_by_name(led_id.chars()) {
                Ok(index) => index,
                Err(_) => {
                    return Err(CommandHandleError::WrongArguments);
                },
            },
        };
        assert(named_led(map.names(), arguments@[1]@) == Some(led_id as int));
        if led_id >= map.len() {
            return Err(CommandHandleError::WrongArguments);
        }
        let r = arguments[2].try_to_integer();
        let g = arguments[3].try_to_integer();
        let b = arguments[4].try_to_integer();
        if r.is_none() || g.is_none() || b.is_none() {
            return Err(CommandHandleError::WrongArguments);
        }
        let r = r.unwrap();
        let g = g.unwrap();
        let b = b.unwrap();
        if r > 255 || g > 255 || b > 255 {
            return Err(CommandHandleError::WrongArguments);
        }
        let set = map.set_rgb(led_id, Some(r as u8), Some(g as u8), Some(b as u8));
        Ok(Vec::new())
    }

    fn help(&self) -> (text: &'static str) {
        "<id or name> <R> <G> <B> - Set the specified LED to the given color levels"
    }
}

/// A name that no region has, and that is no number, is refused: wrong
/// arguments, and nothing changes.
pub proof fn lemma_set_refuses_unknown_name(
    line: Seq<char>,
    arguments: Seq<Seq<char>>,
    names: Seq<Seq<char>>,
    colors: Seq<RGB8>,
    animation: Option<LoadedAnimation>,
)
    requires
        arguments.len() >= 5,
        parsed_integer(arguments[1]) is None,
        !has_name(names, arguments[1]),
    ensures
        (SetCommand {  }).handled(line, arguments, names, colors, animation) == refused(
            colors,
            animation,
        ),
{
}

/// An index beyond the display is refused: wrong arguments, and nothing
/// changes.
pub proof fn lemma_set_refuses_index_out_of_range(
    line: Seq<char>,
    arguments: Seq<Seq<char>>,
    names: Seq<Seq<char>>,
    colors: Seq<RGB8>,
    animation: Option<LoadedAnimation>,
)
    requires
        arguments.len() >= 5,
        parsed_integer(arguments[1]) is Some,
        parsed_integer(arguments[1])->0 >= colors.len(),
    ensures
        (SetCommand {  }).handled(line, arguments, names, colors, animation) == refused(
            colors,
            animation,
        ),
{
}

/// A registered name stands for the first LED of that name.
pub proof fn lemma_named_led_by_name(names: Seq<Seq<char>>, argument: Seq<char>, led: int)
    requires
        parsed_integer(argument) is None,
        is_first_match(names, argument, led),
    ensures
        named_led(names, argument) == Some(led),
{
    let chosen = choose|i: int| is_first_match(names, argument, i);
    assert(is_first_match(names, argument, chosen));
    if chosen < led {
        assert(names[chosen] != argument);
    }
    if led < chosen {
        assert(names[led] != argument);
    }
}

/// With an LED of the display, by index or by name, and three channels of
/// at most 255, exactly that LED changes, to that colour.
pub proof fn lemma_set_changes_one_led(
    line: Seq<char>,
    arguments: Seq<Seq<char>>,
    names: Seq<Seq<char>>,
    colors: Seq<RGB8>,
    animation: Option<LoadedAnimation>,
    led: int,
    r: u8,
    g: u8,
    b: u8,
)
    requires
        arguments.len() >= 5,
        named_led(names, arguments[1]) == Some(led),
        0 <= led < colors.len(),
        parsed_integer(arguments[2]) == Some(r as u32),
        parsed_integer(arguments[3]) == Some(g as u32),
        parsed_integer(arguments[4]) == Some(b as u32),
    ensures
        (SetCommand {  }).handled(line, arguments, names, colors, animation).result == Ok::<
            Seq<char>,
            CommandHandleError,
        >(Seq::empty()),
        (SetCommand {  }).handled(line, arguments, names, colors, animation).animation == animation,
        (SetCommand {  }).handled(line, arguments, names, colors, animation).colors.len()
            == colors.len(),
        (SetCommand {  }).handled(line, arguments, names, colors, animation).colors[led] == (RGB8 {
            r,
            g,
            b,
        }),
        forall|other: int|
            0 <= other < colors.len() && other != led ==> #[trigger] (SetCommand {  }).handled(
                line,
                arguments,
                names,
                colors,
                animation,
            ).colors[other] == colors[other],
{
}

} // verus!
