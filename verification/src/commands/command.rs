use vstd::prelude::*;
use crate::commands::command_argument::CommandArgument;

verus! {

/// The views of a sequence of arguments.
pub open spec fn argument_views(arguments: Seq<CommandArgument>) -> Seq<Seq<char>> {
    Seq::new(arguments.len(), |i: int| arguments[i]@)
}

/// A command line and the words it was split into.
pub struct Command<'d> {
    full: &'d [char],
    parsed_arguments: &'d [CommandArgument<'d>],
}

impl<'d> Command<'d> {
    /// The whole line.
    pub closed spec fn line(&self) -> Seq<char> {
        self.full@
    }

    /// The words of the line, in order.
    pub closed spec fn arguments(&self) -> Seq<Seq<char>> {
        argument_views(self.parsed_arguments@)
    }

    /// No word is empty.
    pub open spec fn wf(&self) -> bool {
        forall|i: int| 0 <= i < self.arguments().len() ==> (#[trigger] self.arguments()[i]).len() > 0
    }

    pub fn new(full: &'d [char], parsed_arguments: &'d [CommandArgument<'d>]) -> (command: Self)
        ensures
            command.line() == full@,
            command.arguments() == argument_views(parsed_arguments@),
    {
        Self { full, parsed_arguments }
    }

    pub fn full(&self) -> (full: &'d [char])
        ensures
            full@ == self.line(),
    {
        self.full
    }

    pub fn parsed_arguments(&self) -> (arguments: &'d [CommandArgument<'d>])
        ensures
            argument_views(arguments@) == self.arguments(),
    {
        self.parsed_arguments
    }
}

} // verus!
