use vstd::prelude::*;
use crate::animations::animation_storage::LoadedAnimation;
use crate::commands::command_data::CommandData;
use crate::commands::command_handler::after_first_word;
use crate::commands::command_handler::append_text;
use crate::commands::command_handler::is_delimiter;
use crate::commands::command_handler::is_delimiter_char;
use crate::commands::command_handler::lemma_word_end;
use crate::commands::command_handler::lemma_word_start;
use crate::commands::command_handler::refused;
use crate::commands::command_handler::CommandHandleError;
use crate::commands::command_handler::Handled;
use crate::commands::command_handler::SpecificCommandHandler;
use crate::map::RGB8;

verus! {

/// `HELLO_WORLD <x>`: answers with a greeting and the rest of the line.
#[derive(Default)]
pub struct HelloWorldCommand;

impl SpecificCommandHandler for HelloWorldCommand {
    open spec fn handled(
        &self,
        line: Seq<char>,
        arguments: Seq<Seq<char>>,
        names: Seq<Seq<char>>,
        colors: Seq<RGB8>,
        animation: Option<LoadedAnimation>,
    ) -> Handled {
        if arguments.len() == 0 {
            refused(colors, animation)
        } else {
            Handled {
                result: Ok("Hello world!"@ + after_first_word(line) + "\r\n"@),
                colors,
                animation,
            }
        }
    }

    open spec fn help_text(&self) -> Seq<char> {
        "<x> - prints Hello world! <x>"@
    }

    fn handle(&self, command: CommandData) -> (result: Result<Vec<char>, CommandHandleError>) {
        let (command, _, _) = command.deconstruct();
        let full = command.full();
        if command.parsed_arguments().len() == 0 {
            return Err(CommandHandleError::WrongArguments);
        }
        let mut begin: usize = 0;
        while begin < full.len() && is_delimiter_char(full[begin])
            invariant
                begin <= full@.len(),
                forall|k: int| 0 <= k < begin ==> is_delimiter(#[trigger] full@[k]),
            decreases full@.len() - begin,
        {
            begin += 1;
        }
        let mut end: usize = begin;
        while end < full.len() && !is_delimiter_char(full[end])
            invariant
                begin <= end <= full@.len(),
                forall|k: int| begin <= k < end ==> !is_delimiter(#[trigger] full@[k]),
            decreases full@.len() - end,
        {
            end += 1;
        }
        proof {
            lemma_word_start(full@, 0, begin as int);
            lemma_word_end(full@, begin as int, end as int);
        }
        let mut text: Vec<char> = Vec::new();
        append_text(&mut text, "Hello world!");
        let mut i: usize = end;
        while i < full.len()
            invariant
                end <= i <= full@.len(),
                text@ == "Hello world!"@ + full@.subrange(end as int, i as int),
            decreases full@.len() - i,
        {
            text.push(full[i]);
            assert(full@.subrange(end as int, i + 1) =~= full@.subrange(end as int, i as int).push(
                full@[i as int],
            ));
            i += 1;
        }
        assert(full@.subrange(end as int, full@.len() as int) =~= full@.skip(end as int));
        append_text(&mut text, "\r\n");
        Ok(text)
    }

    fn help(&self) -> (text: &'static str) {
        "<x> - prints Hello world! <x>"
    }
}

} // verus!
