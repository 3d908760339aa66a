use vstd::prelude::*;
use crate::animations::animation_storage::LoadedAnimation;
use crate::commands::command_argument::parsed_integer;
use crate::commands::command_data::CommandData;
use crate::commands::command_handler::parsed_channel;
use crate::commands::command_handler::refused;
use crate::commands::command_handler::CommandHandleError;
use crate::commands::command_handler::Handled;
use crate::commands::command_handler::SpecificCommandHandler;
use crate::map::RGB8;

verus! {

/// `ALL <R> <G> <B>`: gives every LED one colour.
#[derive(Default)]
pub struct AllCommand;

impl SpecificCommandHandler for AllCommand {
    open spec fn handled(
        &self,
        line: Seq<char>,
        arguments: Seq<Seq<char>>,
        names: Seq<Seq<char>>,
        colors: Seq<RGB8>,
        animation: Option<LoadedAnimation>,
    ) -> Handled {
        if arguments.len() < 4 {
            refused(colors, animation)
        } else {
            match (
                parsed_channel(arguments[1]),
                parsed_channel(arguments[2]),
                parsed_channel(arguments[3]),
            ) {
                (Some(r), Some(g), Some(b)) => Handled {
                    result: Ok(Seq::empty()),
                    colors: Seq::new(colors.len(), |i: int| RGB8 { r, g, b }),
                    animation,
                },
                _ => refused(colors, animation),
            }
        }
    }

    open spec fn help_text(&self) -> Seq<char> {
        "<R> <G> <B> - light up all LEDs to the given color"@
    }

    fn handle(&self, command: CommandData) -> (result: Result<Vec<char>, CommandHandleError>) {
        let (cmd, map, _) = command.deconstruct();
        let arguments = cmd.parsed_arguments();
        if arguments.len() < 4 {
            return Err(CommandHandleError::WrongArguments);
        }
        assert(cmd.arguments()[1] == arguments@[1]@);
        assert(cmd.arguments()[2] == arguments@[2]@);
        assert(cmd.arguments()[3] == arguments@[3]@);
        let r = arguments[1].try_to_integer();
        let g = arguments[2].try_to_integer();
        let b = arguments[3].try_to_integer();
        if r.is_none() || g.is_none() || b.is_none() {
            return Err(CommandHandleError::WrongArguments);
        }
        let r = r.unwrap();
        let g = g.unwrap();
        let b = b.unwrap();
        if r > 255 || g > 255 || b > 255 {
            return Err(CommandHandleError::WrongArguments);
        }
        map.fill(RGB8 { r: r as u8, g: g as u8, b: b as u8 });
        Ok(Vec::new())
    }

    fn help(&self) -> (text: &'static str) {
        "<R> <G> <B> - light up all LEDs to the given color"
    }
}

/// Three channels of at most 255 give every LED that colour, and leave the
/// animation alone.
pub proof fn lemma_all_sets_every_led(
    line: Seq<char>,
    arguments: Seq<Seq<char>>,
    names: Seq<Seq<char>>,
    colors: Seq<RGB8>,
    animation: Option<LoadedAnimation>,
    r: u8,
    g: u8,
    b: u8,
)
    requires
        arguments.len() >= 4,
        parsed_integer(arguments[1]) == Some(r as u32),
        parsed_integer(arguments[2]) == Some(g as u32),
        parsed_integer(arguments[3]) == Some(b as u32),
    ensures
        AllCommand.handled(line, arguments, names, colors, animation).result == Ok::<
            Seq<char>,
            CommandHandleError,
        >(Seq::empty()),
        AllCommand.handled(line, arguments, names, colors, animation).animation == animation,
        AllCommand.handled(line, arguments, names, colors, animation).colors.len() == colors.len(),
        forall|led: int|
            0 <= led < colors.len() ==> #[trigger] AllCommand.handled(
                line,
                arguments,
                names,
                colors,
                animation,
            ).colors[led] == (RGB8 { r, g, b }),
{
}

/// A channel above 255 is refused: wrong arguments, and nothing changes.
pub proof fn lemma_all_refuses_large_channel(
    line: Seq<char>,
    arguments: Seq<Seq<char>>,
    names: Seq<Seq<char>>,
    colors: Seq<RGB8>,
    animation: Option<LoadedAnimation>,
    channel: int,
)
    requires
        arguments.len() >= 4,
        1 <= channel <= 3,
        parsed_integer(arguments[channel]) is Some ==> parsed_integer(arguments[channel])->0 > 255,
    ensures
        AllCommand.handled(line, arguments, names, colors, animation) == refused(colors, animation),
{
}

} // verus!
