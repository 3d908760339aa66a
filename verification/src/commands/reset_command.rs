use vstd::prelude::*;
use crate::animations::animation_storage::LoadedAnimation;
use crate::animations::snake_animation::blank;
use crate::commands::command_data::CommandData;
use crate::commands::command_handler::CommandHandleError;
use crate::commands::command_handler::Handled;
use crate::commands::command_handler::SpecificCommandHandler;
use crate::map::black;
use crate::map::RGB8;

verus! {

/// `RESET`: switches every LED off and unloads the animation.
#[derive(Default)]
pub struct ResetCommand;

impl SpecificCommandHandler for ResetCommand {
    open spec fn handled(
        &self,
        line: Seq<char>,
        arguments: Seq<Seq<char>>,
        names: Seq<Seq<char>>,
        colors: Seq<RGB8>,
        animation: Option<LoadedAnimation>,
    ) -> Handled {
        Handled { result: Ok(Seq::empty()), colors: blank(colors.len()), animation: None }
    }

    open spec fn help_text(&self) -> Seq<char> {
        "- Resets the board, all leds set to 0, 0, 0"@
    }

    fn handle(&self, command: CommandData) -> (result: Result<Vec<char>, CommandHandleError>) {
        let (_, map, animation) = command.deconstruct();
        map.clear();
        animation.remove_animation();
        Ok(Vec::new())
    }

    fn help(&self) -> (text: &'static str) {
        "- Resets the board, all leds set to 0, 0, 0"
    }
}

/// Whatever was shown and loaded before, after `RESET` every LED is off and
/// no animation is loaded.
pub proof fn lemma_reset_clears_everything(
    line: Seq<char>,
    arguments: Seq<Seq<char>>,
    names: Seq<Seq<char>>,
    colors: Seq<RGB8>,
    animation: Option<LoadedAnimation>,
)
    ensures
        ResetCommand.handled(line, arguments, names, colors, animation).result is Ok,
        ResetCommand.handled(line, arguments, names, colors, animation).animation is None,
        ResetCommand.handled(line, arguments, names, colors, animation).colors.len()
            == colors.len(),
        forall|led: int|
            0 <= led < colors.len() ==> #[trigger] ResetCommand.handled(
                line,
                arguments,
                names,
                colors,
                animation,
            ).colors[led] == black(),
{
}

} // verus!
