use vstd::prelude::*;
use vstd::slice::slice_subrange;
use vstd::string::StrSliceExecFns;
use crate::animations::animation::Animation;
use crate::animations::animation_storage::AnimationStorage;
use crate::animations::animation_storage::LoadedAnimation;
use crate::commands::command::argument_views;
use crate::commands::command::Command;
use crate::commands::command_argument::parsed_integer;
use crate::commands::command_argument::CommandArgument;
use crate::commands::command_data::CommandData;
use crate::map::has_name;
use crate::map::is_first_match;
use crate::map::ColorMap;
use crate::map::RGB8;
use crate::nonblocking::NbError;

verus! {

/// Why reading gave up a line, or could not go on.
#[derive(Clone, Copy, Debug, PartialEq, Eq, Structural)]
pub enum CommandReadError {
    /// The line ended before it held anything.
    UnexpectedEndOfLine,
    /// The line is longer than the buffer.
    BufferOverflowed,
    /// The line before was not handled yet.
    CommandLoadedAlready,
}

/// Why a line was not carried out.
#[derive(Clone, Copy, Debug, PartialEq, Eq, Structural)]
pub enum CommandHandleError {
    /// The line names no command that is known.
    NotFound,
    /// The command's handler found its arguments too few, no numbers, or out
    /// of range.
    WrongArguments,
    /// No complete line was there to handle.
    CommandNotRead,
}

/// What a handler did: its answer, with the text to print where it
/// succeeded, and what it left on the display and in the animation storage.
pub struct Handled {
    pub result: Result<Seq<char>, CommandHandleError>,
    pub colors: Seq<RGB8>,
    pub animation: Option<LoadedAnimation>,
}

/// A handler's refusal: wrong arguments, and nothing changed.
pub open spec fn refused(colors: Seq<RGB8>, animation: Option<LoadedAnimation>) -> Handled {
    Handled {
        result: Err(CommandHandleError::WrongArguments),
        colors,
        animation,
    }
}

/// What an argument reads as a colour channel: its number, where it is one
/// and at most 255.
pub open spec fn parsed_channel(argument: Seq<char>) -> Option<u8> {
    match parsed_integer(argument) {
        Some(value) => if value <= 255 {
            Some(value as u8)
        } else {
            None
        },
        None => None,
    }
}

/// Appends the characters of `text` to `out`.
pub fn append_text(out: &mut Vec<char>, text: &str)
    ensures
        final(out)@ == old(out)@ + text@,
{
    let n = text.unicode_len();
    let mut i: usize = 0;
    while i < n
        invariant
            i <= n,
            n == text@.len(),
            out@ == old(out)@ + text@.take(i as int),
        decreases n - i,
    {
        out.push(text.get_char(i));
        assert(text@.take(i + 1) =~= text@.take(i as int).push(text@[i as int]));
        i += 1;
    }
    assert(text@.take(n as int) =~= text@);
}

/// The part of a command that does its work. `handle` checks the arguments
/// itself, and changes nothing where it refuses them.
pub trait SpecificCommandHandler {
    /// What `handle` does to a command with the words `arguments` on the line
    /// `line`, on a display with the region names `names` that shows
    /// `colors`, while `animation` is loaded.
    spec fn handled(
        &self,
        line: Seq<char>,
        arguments: Seq<Seq<char>>,
        names: Seq<Seq<char>>,
        colors: Seq<RGB8>,
        animation: Option<LoadedAnimation>,
    ) -> Handled;

    /// The handler's line in the list of commands.
    spec fn help_text(&self) -> Seq<char>;

    fn handle(&self, command: CommandData) -> (result: Result<Vec<char>, CommandHandleError>)
        requires
            command.command.wf(),
            old(command.map).wf(),
            old(command.animation_storage).wf(),
        ensures
            final(command.map).wf(),
            final(command.map).names() == old(command.map).names(),
            final(command.map).colors().len() == old(command.map).colors().len(),
            final(command.animation_storage).wf(),
            final(command.map).colors() == self.handled(
                command.command.line(),
                command.command.arguments(),
                old(command.map).names(),
                old(command.map).colors(),
                old(command.animation_storage)@,
            ).colors,
            final(command.animation_storage)@ == self.handled(
                command.command.line(),
                command.command.arguments(),
                old(command.map).names(),
                old(command.map).colors(),
                old(command.animation_storage)@,
            ).animation,
            match result {
                Ok(text) => self.handled(
                    command.command.line(),
                    command.command.arguments(),
                    old(command.map).names(),
                    old(command.map).colors(),
                    old(command.animation_storage)@,
                ).result == Ok::<Seq<char>, CommandHandleError>(text@),
                Err(error) => {
                    &&& self.handled(
                        command.command.line(),
                        command.command.arguments(),
                        old(command.map).names(),
                        old(command.map).colors(),
                        old(command.animation_storage)@,
                    ).result == Err::<Seq<char>, CommandHandleError>(error)
                    &&& final(command.map).colors() == old(command.map).colors()
                    &&& final(command.animation_storage)@ == old(command.animation_storage)@
                },
            },
    ;

    fn help(&self) -> (text: &'static str)
        ensures
            text@ == self.help_text(),
    ;
}

/// Whether `c` parts two words of a command line: a space or a line end.
pub open spec fn is_delimiter(c: char) -> bool {
    c == ' ' || c == '\r' || c == '\n'
}

/// Whether `c` parts two words of a command line.
pub fn is_delimiter_char(c: char) -> (delimiter: bool)
    ensures
        delimiter == is_delimiter(c),
{
    c == ' ' || c == '\r' || c == '\n'
}

/// Where the word ends that holds position `start` of `line`: the first
/// delimiter from `start` on, or the end of the line.
pub open spec fn word_end(line: Seq<char>, start: int) -> int
    decreases line.len() - start,
{
    if start < 0 || start >= line.len() || is_delimiter(line[start]) {
        start
    } else {
        word_end(line, start + 1)
    }
}

/// Where the first word begins that `line` holds from position `start` on:
/// the first character from `start` on that is no delimiter, or the end of
/// the line.
pub open spec fn word_start(line: Seq<char>, start: int) -> int
    decreases line.len() - start,
{
    if start < 0 || start >= line.len() || !is_delimiter(line[start]) {
        start
    } else {
        word_start(line, start + 1)
    }
}

/// What follows the first word of `line`, from the delimiter that ends the
/// word on; nothing, where the line holds no word or ends with its first.
pub open spec fn after_first_word(line: Seq<char>) -> Seq<char> {
    line.skip(word_end(line, word_start(line, 0)))
}

/// The words of `line` from position `start` on: the longest runs of
/// characters without a delimiter, from left to right.
pub open spec fn tokens_from(line: Seq<char>, start: int) -> Seq<Seq<char>>
    decreases line.len() - start,
{
    if start < 0 || start >= line.len() {
        Seq::empty()
    } else if is_delimiter(line[start]) {
        tokens_from(line, start + 1)
    } else {
        let end = word_end(line, start);
        if start < end <= line.len() {
            seq![line.subrange(start, end)] + tokens_from(line, end)
        } else {
            Seq::empty()
        }
    }
}

/// The words of `line`.
pub open spec fn tokens(line: Seq<char>) -> Seq<Seq<char>> {
    tokens_from(line, 0)
}

/// Delimiters from `start` up to `begin`, and none at `begin`, make `begin`
/// the start of the next word.
pub proof fn lemma_word_start(line: Seq<char>, start: int, begin: int)
    requires
        0 <= start <= begin <= line.len(),
        forall|k: int| start <= k < begin ==> is_delimiter(#[trigger] line[k]),
        begin == line.len() || !is_delimiter(line[begin]),
    ensures
        word_start(line, start) == begin,
    decreases begin - start,
{
    if start < begin {
        lemma_word_start(line, start + 1, begin);
    }
}

/// A word that starts at `start` ends at the first delimiter after it.
pub proof fn lemma_word_end(line: Seq<char>, start: int, end: int)
    requires
        0 <= start <= end <= line.len(),
        forall|k: int| start <= k < end ==> !is_delimiter(#[trigger] line[k]),
        end == line.len() || is_delimiter(line[end]),
    ensures
        word_end(line, start) == end,
    decreases end - start,
{
    if start < end {
        lemma_word_end(line, start + 1, end);
    }
}

/// Every word holds a character, and none holds a delimiter.
pub proof fn lemma_tokens_are_words(line: Seq<char>, start: int)
    requires
        0 <= start,
    ensures
        forall|i: int|
            0 <= i < tokens_from(line, start).len() ==> (#[trigger] tokens_from(line, start)[i]).len()
                > 0,
        forall|i: int, k: int|
            0 <= i < tokens_from(line, start).len() && 0 <= k < tokens_from(line, start)[i].len()
                ==> !is_delimiter(#[trigger] tokens_from(line, start)[i][k]),
    decreases line.len() - start,
{
    if start < line.len() {
        if is_delimiter(line[start]) {
            lemma_tokens_are_words(line, start + 1);
            assert(tokens_from(line, start) == tokens_from(line, start + 1));
        } else {
            let end = word_end(line, start);
            lemma_word_bounds(line, start);
            lemma_tokens_are_words(line, end);
            let word = line.subrange(start, end);
            let rest = tokens_from(line, end);
            assert(tokens_from(line, start) == seq![word] + rest);
            assert(tokens_from(line, start)[0] == word);
            assert forall|i: int| 0 <= i < tokens_from(line, start).len() implies (
            #[trigger] tokens_from(line, start)[i]).len() > 0 by {
                if i > 0 {
                    assert(tokens_from(line, start)[i] == rest[i - 1]);
                }
            }
            assert forall|i: int, k: int|
                0 <= i < tokens_from(line, start).len() && 0 <= k < tokens_from(
                    line,
                    start,
                )[i].len() implies !is_delimiter(#[trigger] tokens_from(line, start)[i][k]) by {
                if i > 0 {
                    assert(tokens_from(line, start)[i] == rest[i - 1]);
                } else {
                    assert(word[k] == line[start + k]);
                }
            }
        }
    }
}

/// A word reaches from its first character up to, and not into, the next
/// delimiter.
pub proof fn lemma_word_bounds(line: Seq<char>, start: int)
    requires
        0 <= start < line.len(),
        !is_delimiter(line[start]),
    ensures
        start < word_end(line, start) <= line.len(),
        forall|k: int| start <= k < word_end(line, start) ==> !is_delimiter(#[trigger] line[k]),
        word_end(line, start) == line.len() || is_delimiter(line[word_end(line, start)]),
    decreases line.len() - start,
{
    assert(word_end(line, start) == word_end(line, start + 1));
    if start + 1 < line.len() && !is_delimiter(line[start + 1]) {
        lemma_word_bounds(line, start + 1);
    } else {
        assert(word_end(line, start + 1) == start + 1);
    }
}

/// Position `start` of a line lies in the same word, with the same end,
/// whatever follows the line after a delimiter.
proof fn lemma_word_end_in_front(front: Seq<char>, delimiter: char, back: Seq<char>, start: int)
    requires
        is_delimiter(delimiter),
        0 <= start <= front.len(),
    ensures
        word_end(front + seq![delimiter] + back, start) == word_end(front, start),
    decreases front.len() - start,
{
    let line = front + seq![delimiter] + back;
    if start < front.len() {
        assert(line[start] == front[start]);
        if !is_delimiter(front[start]) {
            lemma_word_end_in_front(front, delimiter, back, start + 1);
        }
    } else {
        assert(line[start] == delimiter);
    }
}

/// Words and their ends do not depend on what stands before them in the
/// line.
proof fn lemma_word_end_behind(front: Seq<char>, back: Seq<char>, start: int)
    requires
        0 <= start <= back.len(),
    ensures
        word_end(front + back, front.len() + start) == front.len() + word_end(back, start),
    decreases back.len() - start,
{
    let line = front + back;
    if start < back.len() {
        assert(line[front.len() + start] == back[start]);
        if !is_delimiter(back[start]) {
            lemma_word_end_behind(front, back, start + 1);
        }
    }
}

/// The words of the back of a line are the words of that back alone.
proof fn lemma_tokens_behind(front: Seq<char>, back: Seq<char>, start: int)
    requires
        0 <= start <= back.len(),
    ensures
        tokens_from(front + back, front.len() + start) == tokens_from(back, start),
    decreases back.len() - start,
{
    let line = front + back;
    let shifted = (front.len() + start) as int;
    if start < back.len() {
        assert(line[shifted] == back[start]);
        if is_delimiter(back[start]) {
            lemma_tokens_behind(front, back, start + 1);
        } else {
            let end = word_end(back, start);
            lemma_word_bounds(back, start);
            lemma_word_end_behind(front, back, start);
            lemma_tokens_behind(front, back, end);
            assert(line.subrange(shifted, front.len() + end) =~= back.subrange(start, end));
        }
    }
}

/// Up to a delimiter, the words of a line are those of the part before it.
proof fn lemma_tokens_in_front(front: Seq<char>, delimiter: char, back: Seq<char>, start: int)
    requires
        is_delimiter(delimiter),
        0 <= start <= front.len(),
    ensures
        tokens_from(front + seq![delimiter] + back, start) == tokens_from(front, start)
            + tokens_from(front + seq![delimiter] + back, (front.len() + 1) as int),
    decreases front.len() - start,
{
    let line = front + seq![delimiter] + back;
    let rest = tokens_from(line, (front.len() + 1) as int);
    if start < front.len() {
        assert(line[start] == front[start]);
        if is_delimiter(front[start]) {
            lemma_tokens_in_front(front, delimiter, back, start + 1);
        } else {
            let end = word_end(front, start);
            lemma_word_bounds(front, start);
            lemma_word_end_in_front(front, delimiter, back, start);
            lemma_tokens_in_front(front, delimiter, back, end);
            let word = front.subrange(start, end);
            assert(line.subrange(start, end) =~= word);
            assert(tokens_from(line, start) == seq![word] + tokens_from(line, end));
            assert(tokens_from(front, start) == seq![word] + tokens_from(front, end));
            assert(seq![word] + (tokens_from(front, end) + rest) =~= (seq![word] + tokens_from(
                front,
                end,
            )) + rest);
        }
    } else {
        assert(line[start] == delimiter);
        assert(tokens_from(front, start) =~= Seq::<Seq<char>>::empty());
        assert(tokens_from(line, start) == rest);
        assert(Seq::<Seq<char>>::empty() + rest =~= rest);
    }
}

/// The words of two lines joined by a delimiter are the words of the first
/// followed by the words of the second.
pub proof fn lemma_tokens_of_joined_lines(front: Seq<char>, delimiter: char, back: Seq<char>)
    requires
        is_delimiter(delimiter),
    ensures
        tokens(front + seq![delimiter] + back) == tokens(front) + tokens(back),
{
    lemma_tokens_in_front(front, delimiter, back, 0);
    lemma_tokens_behind(front + seq![delimiter], back, 0);
}

/// What a reader holds: the characters of the line so far, whether the line
/// is complete and waits to be handled, and how many bytes of an escape
/// sequence are still to be swallowed.
pub struct ReaderState {
    pub line: Seq<char>,
    pub loaded: bool,
    pub pending: nat,
}

/// The reader with nothing read.
pub open spec fn idle() -> ReaderState {
    ReaderState { line: Seq::empty(), loaded: false, pending: 0 }
}

/// What one call of the reader does: the state after it, its answer, and
/// the bytes to echo to the console.
pub struct ReadStep {
    pub state: ReaderState,
    pub result: Result<(), NbError<CommandReadError>>,
    pub echo: Seq<u8>,
}

/// Nothing to report yet: the caller calls again.
pub open spec fn waiting(state: ReaderState, echo: Seq<u8>) -> ReadStep {
    ReadStep { state, result: Err(NbError::WouldBlock), echo }
}

/// The reader gives up the line and starts anew.
pub open spec fn failed(error: CommandReadError, echo: Seq<u8>) -> ReadStep {
    ReadStep { state: idle(), result: Err(NbError::Other(error)), echo }
}

/// The byte that takes the last character of the line back.
pub const BACKSPACE: u8 = 0x08;

/// The byte that starts an escape sequence of three bytes.
pub const ESCAPE: u8 = 0x1b;

/// The byte that ends a line.
pub const CARRIAGE_RETURN: u8 = 0x0d;

/// The byte that is echoed after the end of a line.
pub const LINE_FEED: u8 = 0x0a;

/// The byte that blanks a character on the console.
pub const SPACE: u8 = 0x20;

/// One call of a reader whose line holds at most `capacity` characters, on
/// the byte `input`, if one has come.
pub open spec fn read_step(state: ReaderState, capacity: nat, input: Option<u8>) -> ReadStep {
    if state.loaded {
        ReadStep {
            state,
            result: Err(NbError::Other(CommandReadError::CommandLoadedAlready)),
            echo: Seq::empty(),
        }
    } else {
        match input {
            None => waiting(state, Seq::empty()),
            Some(byte) => if state.pending > 0 {
                waiting(
                    ReaderState { pending: (state.pending - 1) as nat, ..state },
                    Seq::empty(),
                )
            } else if byte == BACKSPACE {
                if state.line.len() > 0 {
                    waiting(
                        ReaderState { line: state.line.drop_last(), ..state },
                        seq![BACKSPACE, SPACE, BACKSPACE],
                    )
                } else {
                    waiting(state, Seq::empty())
                }
            } else if byte == ESCAPE {
                waiting(ReaderState { pending: 2, ..state }, Seq::empty())
            } else if state.line.len() >= capacity {
                failed(CommandReadError::BufferOverflowed, Seq::empty())
            } else if byte != CARRIAGE_RETURN {
                waiting(ReaderState { line: state.line.push(byte as char), ..state }, seq![byte])
            } else if state.line.len() == 0 {
                failed(CommandReadError::UnexpectedEndOfLine, seq![CARRIAGE_RETURN, LINE_FEED])
            } else {
                ReadStep {
                    state: ReaderState {
                        line: state.line.push(byte as char),
                        loaded: true,
                        pending: 0,
                    },
                    result: Ok(()),
                    echo: seq![CARRIAGE_RETURN, LINE_FEED],
                }
            },
        }
    }
}

/// The names of the commands in a table of handlers.
pub open spec fn handler_names(handlers: Seq<(&str, &dyn SpecificCommandHandler)>) -> Seq<
    Seq<char>,
> {
    Seq::new(handlers.len(), |i: int| handlers[i].0@)
}

/// The list of the first `count` commands of a table, as `HELP` prints it:
/// a heading, then one line for each command with its name and its help.
pub open spec fn help_listing(
    handlers: Seq<(&str, &dyn SpecificCommandHandler)>,
    count: nat,
) -> Seq<char>
    decreases count,
{
    if count == 0 {
        "Available commands:\r\n"@
    } else {
        help_listing(handlers, (count - 1) as nat) + "  "@ + handlers[count - 1].0@ + " "@
            + handlers[count - 1].1.help_text() + "\r\n"@
    }
}

/// What handling the line `line` does with the handlers `handlers`: `HELP`
/// lists the commands, any other first word goes to the first handler of
/// that name, and a line without words or with an unknown first word is not
/// found.
pub open spec fn dispatched(
    handlers: Seq<(&str, &dyn SpecificCommandHandler)>,
    line: Seq<char>,
    names: Seq<Seq<char>>,
    colors: Seq<RGB8>,
    animation: Option<LoadedAnimation>,
) -> Handled {
    let words = tokens(line);
    if words.len() == 0 {
        Handled { result: Err(CommandHandleError::NotFound), colors, animation }
    } else if words[0] == "HELP"@ {
        Handled { result: Ok(help_listing(handlers, handlers.len())), colors, animation }
    } else if has_name(handler_names(handlers), words[0]) {
        let index = choose|i: int| is_first_match(handler_names(handlers), words[0], i);
        handlers[index].1.handled(line, words, names, colors, animation)
    } else {
        Handled { result: Err(CommandHandleError::NotFound), colors, animation }
    }
}

/// Reads command lines from a console byte by byte, and hands each complete
/// line to the handler of its first word.
pub struct CommandHandler<'d, const BUFFER_SIZE: usize, const HANDLERS_COUNT: usize> {
    buffer_position: usize,
    command_loaded: bool,
    buffer: [char; BUFFER_SIZE],
    handlers: [(&'d str, &'d dyn SpecificCommandHandler); HANDLERS_COUNT],
    handling_special: u8,
}

impl<'d, const BUFFER_SIZE: usize, const HANDLERS_COUNT: usize> CommandHandler<
    'd,
    BUFFER_SIZE,
    HANDLERS_COUNT,
> {
    /// What the reader holds.
    pub closed spec fn reader(&self) -> ReaderState {
        ReaderState {
            line: self.buffer@.take(self.buffer_position as int),
            loaded: self.command_loaded,
            pending: self.handling_special as nat,
        }
    }

    /// The table of commands.
    pub closed spec fn handlers(&self) -> Seq<(&'d str, &'d dyn SpecificCommandHandler)> {
        self.handlers@
    }

    /// The line fits the buffer.
    pub closed spec fn wf(&self) -> bool {
        self.buffer_position <= BUFFER_SIZE
    }

    pub fn new(
        handlers: [(&'d str, &'d dyn SpecificCommandHandler); HANDLERS_COUNT],
        buffer: [char; BUFFER_SIZE],
    ) -> (handler: Self)
        ensures
            handler.wf(),
            handler.reader() == idle(),
            handler.handlers() == handlers@,
    {
        let handler = Self {
            command_loaded: false,
            handling_special: 0,
            buffer_position: 0,
            buffer,
            handlers,
        };
        assert(handler.buffer@.take(0) =~= Seq::<char>::empty());
        handler
    }

    /// Forgets what was read.
    pub fn reset(&mut self)
        ensures
            final(self).wf(),
            final(self).reader() == idle(),
            final(self).handlers() == old(self).handlers(),
    {
        self.buffer_position = 0;
        self.command_loaded = false;
        self.handling_special = 0;
        assert(self.buffer@.take(0) =~= Seq::<char>::empty());
    }

    /// Whether a complete line waits to be handled.
    pub fn is_command_loaded(&self) -> (loaded: bool)
        ensures
            loaded == self.reader().loaded,
    {
        self.command_loaded
    }

    /// Takes the bytes that edit the line or belong to an escape sequence.
    /// Gives true for a byte that is left to go into the line.
    fn handle_special(&mut self, data: u8, echo: &mut Vec<u8>) -> (ordinary: bool)
        requires
            old(self).wf(),
            !old(self).reader().loaded,
            old(echo)@.len() == 0,
        ensures
            final(self).wf(),
            final(self).handlers() == old(self).handlers(),
            ordinary == (old(self).reader().pending == 0 && data != BACKSPACE && data != ESCAPE),
            ordinary ==> *final(self) == *old(self) && final(echo)@ == old(echo)@,
            !ordinary ==> read_step(old(self).reader(), BUFFER_SIZE as nat, Some(data)) == waiting(
                final(self).reader(),
                final(echo)@,
            ),
    {
        assert(echo@ =~= Seq::<u8>::empty());
        if self.handling_special > 0 {
            self.handling_special -= 1;
            return false;
        }
        if data == BACKSPACE {
            if self.buffer_position > 0 {
                self.buffer_position -= 1;
                echo.push(BACKSPACE);
                echo.push(SPACE);
                echo.push(BACKSPACE);
                assert(self.buffer@.take(self.buffer_position as int) =~= old(
                    self,
                ).reader().line.drop_last());
                assert(echo@ =~= seq![BACKSPACE, SPACE, BACKSPACE]);
            }
            false
        } else if data == ESCAPE {
            self.handling_special = 2;
            false
        } else {
            true
        }
    }

    /// Takes the next byte of the console, if one has come, into the line.
    /// Gives the answer and the bytes to echo. The answer is `Ok` once a
    /// line is complete.
    pub fn read_command(&mut self, input: Option<u8>) -> (result: (
        Result<(), NbError<CommandReadError>>,
        Vec<u8>,
    ))
        requires
            old(self).wf(),
        ensures
            final(self).wf(),
            final(self).handlers() == old(self).handlers(),
            final(self).reader() == read_step(old(self).reader(), BUFFER_SIZE as nat, input).state,
            result.0 == read_step(old(self).reader(), BUFFER_SIZE as nat, input).result,
            result.1@ == read_step(old(self).reader(), BUFFER_SIZE as nat, input).echo,
    {
        let mut echo: Vec<u8> = Vec::new();
        if self.command_loaded {
            return (Err(NbError::Other(CommandReadError::CommandLoadedAlready)), echo);
        }
        let data = match input {
            Some(data) => data,
            None => {
                return (Err(NbError::WouldBlock), echo);
            },
        };
        if !self.handle_special(data, &mut echo) {
            return (Err(NbError::WouldBlock), echo);
        }
        if self.buffer_position >= BUFFER_SIZE {
            self.reset();
            return (Err(NbError::Other(CommandReadError::BufferOverflowed)), echo);
        }
        let ghost before = self.reader().line;
        self.buffer[self.buffer_position] = data as char;
        self.buffer_position += 1;
        assert(self.buffer@.take(self.buffer_position as int) =~= before.push(data as char));
        echo.push(data);
        if data != CARRIAGE_RETURN {
            assert(echo@ =~= seq![data]);
            return (Err(NbError::WouldBlock), echo);
        }
        echo.push(LINE_FEED);
        assert(echo@ =~= seq![CARRIAGE_RETURN, LINE_FEED]);
        if self.buffer_position <= 1 {
            self.reset();
            return (Err(NbError::Other(CommandReadError::UnexpectedEndOfLine)), echo);
        }
        self.command_loaded = true;
        (Ok(()), echo)
    }

    /// Splits a line into its words.
    pub fn parse_command<'a>(buffer: &'a [char]) -> (arguments: Vec<CommandArgument<'a>>)
        ensures
            argument_views(arguments@) == tokens(buffer@),
            forall|i: int| 0 <= i < arguments@.len() ==> (#[trigger] arguments@[i])@.len() > 0,
    {
        let mut arguments: Vec<CommandArgument<'a>> = Vec::new();
        let mut last_arg_index: usize = 0;
        let mut i: usize = 0;
        assert(argument_views(arguments@) =~= Seq::<Seq<char>>::empty());
        while i < buffer.len()
            invariant
                last_arg_index <= i <= buffer@.len(),
                forall|k: int| last_arg_index <= k < i ==> !is_delimiter(#[trigger] buffer@[k]),
                tokens(buffer@) == argument_views(arguments@) + tokens_from(
                    buffer@,
                    last_arg_index as int,
                ),
                forall|k: int| 0 <= k < arguments@.len() ==> (#[trigger] arguments@[k])@.len() > 0,
            decreases buffer@.len() - i,
        {
            if is_delimiter_char(buffer[i]) {
                if i > last_arg_index {
                    let ghost collected = arguments@;
                    arguments.push(CommandArgument::new(slice_subrange(buffer, last_arg_index, i)));
                    proof {
                        lemma_word_end(buffer@, last_arg_index as int, i as int);
                        let word = buffer@.subrange(last_arg_index as int, i as int);
                        assert(argument_views(arguments@) =~= argument_views(collected) + seq![
                            word,
                        ]);
                        assert(tokens_from(buffer@, last_arg_index as int) == seq![word]
                            + tokens_from(buffer@, i as int));
                        assert(tokens_from(buffer@, i as int) == tokens_from(buffer@, i + 1));
                        assert(tokens(buffer@) =~= argument_views(arguments@) + tokens_from(
                            buffer@,
                            i + 1,
                        ));
                    }
                } else {
                    assert(tokens_from(buffer@, i as int) == tokens_from(buffer@, i + 1));
                }
                last_arg_index = i + 1;
            }
            i += 1;
        }
        if i > last_arg_index {
            let ghost collected = arguments@;
            arguments.push(CommandArgument::new(slice_subrange(buffer, last_arg_index, i)));
            proof {
                lemma_word_end(buffer@, last_arg_index as int, i as int);
                let word = buffer@.subrange(last_arg_index as int, i as int);
                assert(argument_views(arguments@) =~= argument_views(collected) + seq![word]);
                assert(tokens_from(buffer@, last_arg_index as int) == seq![word] + tokens_from(
                    buffer@,
                    i as int,
                ));
                assert(tokens_from(buffer@, i as int) =~= Seq::<Seq<char>>::empty());
                assert(tokens(buffer@) =~= argument_views(arguments@));
            }
        } else {
            assert(tokens_from(buffer@, last_arg_index as int) =~= Seq::<Seq<char>>::empty());
            assert(tokens(buffer@) =~= argument_views(arguments@));
        }
        arguments
    }

    /// The list of commands.
    fn handle_help(&self) -> (result: Result<Vec<char>, CommandHandleError>)
        ensures
            result is Ok,
            result->Ok_0@ == help_listing(self.handlers(), self.handlers().len()),
    {
        let mut text: Vec<char> = Vec::new();
        append_text(&mut text, "Available commands:\r\n");
        let mut i: usize = 0;
        while i < HANDLERS_COUNT
            invariant
                i <= HANDLERS_COUNT,
                self.handlers@.len() == HANDLERS_COUNT,
                text@ == help_listing(self.handlers(), i as nat),
            decreases HANDLERS_COUNT - i,
        {
            let (cmd, handler) = self.handlers[i];
            append_text(&mut text, "  ");
            append_text(&mut text, cmd);
            append_text(&mut text, " ");
            append_text(&mut text, handler.help());
            append_text(&mut text, "\r\n");
            i += 1;
        }
        Ok(text)
    }

    /// Handles the line that was read, and makes the reader ready for the
    /// next one. Gives the text to print.
    #[verifier::loop_isolation(false)]
    pub fn handle_command(
        &mut self,
        map: &mut ColorMap,
        animation_storage: &mut AnimationStorage,
    ) -> (result: Result<Vec<char>, CommandHandleError>)
        requires
            old(self).wf(),
            old(map).wf(),
            old(animation_storage).wf(),
        ensures
            final(self).wf(),
            final(self).handlers() == old(self).handlers(),
            final(map).wf(),
            final(map).names() == old(map).names(),
            final(map).colors().len() == old(map).colors().len(),
            final(animation_storage).wf(),
            !old(self).reader().loaded ==> {
                &&& result == Err::<Vec<char>, CommandHandleError>(
                    CommandHandleError::CommandNotRead,
                )
                &&& final(self).reader() == old(self).reader()
                &&& final(map).colors() == old(map).colors()
                &&& final(animation_storage)@ == old(animation_storage)@
            },
            old(self).reader().loaded ==> {
                let handled = dispatched(
                    old(self).handlers(),
                    old(self).reader().line,
                    old(map).names(),
                    old(map).colors(),
                    old(animation_storage)@,
                );
                &&& final(self).reader() == idle()
                &&& final(map).colors() == handled.colors
                &&& final(animation_storage)@ == handled.animation
                &&& match result {
                    Ok(text) => handled.result == Ok::<Seq<char>, CommandHandleError>(text@),
                    Err(error) => handled.result == Err::<Seq<char>, CommandHandleError>(error),
                }
            },
    {
        if !self.command_loaded {
            return Err(CommandHandleError::CommandNotRead);
        }
        let buffer = slice_subrange(self.buffer.as_slice(), 0, self.buffer_position);
        let arguments = Self::parse_command(buffer);
        let command = Command::new(buffer, arguments.as_slice());
        assert(command.wf()) by {
            assert forall|k: int| 0 <= k < command.arguments().len() implies (
            #[trigger] command.arguments()[k]).len() > 0 by {
                assert(command.arguments()[k] == arguments@[k]@);
            }
        }
        if arguments.len() == 0 {
            self.reset();
            return Err(CommandHandleError::NotFound);
        }
        let first_argument = arguments[0];
        assert(first_argument@ == tokens(buffer@)[0]) by {
            assert(argument_views(arguments@)[0] == arguments@[0]@);
        }
        if first_argument.compare("HELP") {
            let help_handled = self.handle_help();
            self.reset();
            return help_handled;
        }
        let mut i: usize = 0;
        while i < HANDLERS_COUNT
            invariant
                i <= HANDLERS_COUNT,
                self.handlers@.len() == HANDLERS_COUNT,
                *self == *old(self),
                *map == *old(map),
                *animation_storage == *old(animation_storage),
                forall|k: int|
                    0 <= k < i ==> (#[trigger] handler_names(self.handlers())[k])
                        != first_argument@,
            decreases HANDLERS_COUNT - i,
        {
            let (handler_command, handler) = self.handlers[i];
            if first_argument.compare(handler_command) {
                proof {
                    let names = handler_names(self.handlers());
                    assert(names[i as int] == first_argument@);
                    assert(is_first_match(names, first_argument@, i as int));
                }
                let command_data = CommandData::new(&command, map, animation_storage);
                let handled = handler.handle(command_data);
                self.reset();
                return handled;
            }
            i += 1;
        }
        self.reset();
        Err(CommandHandleError::NotFound)
    }
}

/// A byte that goes into the line and does not end it.
pub open spec fn is_ordinary(byte: u8) -> bool {
    byte != BACKSPACE && byte != ESCAPE && byte != CARRIAGE_RETURN
}

/// The characters that the bytes `bytes` stand for.
pub open spec fn as_chars(bytes: Seq<u8>) -> Seq<char> {
    Seq::new(bytes.len(), |i: int| bytes[i] as char)
}

/// The reader after it was called once on each byte of `bytes`, in order.
pub open spec fn fed(state: ReaderState, capacity: nat, bytes: Seq<u8>) -> ReaderState
    decreases bytes.len(),
{
    if bytes.len() == 0 {
        state
    } else {
        read_step(fed(state, capacity, bytes.drop_last()), capacity, Some(bytes.last())).state
    }
}

/// Ordinary bytes, as long as they fit, are gathered in the line.
pub proof fn lemma_fed_ordinary(capacity: nat, bytes: Seq<u8>)
    requires
        bytes.len() <= capacity,
        forall|i: int| 0 <= i < bytes.len() ==> is_ordinary(#[trigger] bytes[i]),
    ensures
        fed(idle(), capacity, bytes) == (ReaderState {
            line: as_chars(bytes),
            loaded: false,
            pending: 0,
        }),
    decreases bytes.len(),
{
    if bytes.len() == 0 {
        assert(as_chars(bytes) =~= Seq::<char>::empty());
    } else {
        let front = bytes.drop_last();
        assert forall|i: int| 0 <= i < front.len() implies is_ordinary(#[trigger] front[i]) by {
            assert(front[i] == bytes[i]);
        }
        lemma_fed_ordinary(capacity, front);
        assert(is_ordinary(bytes[bytes.len() - 1]));
        assert(as_chars(front).push(bytes.last() as char) =~= as_chars(bytes));
    }
}

/// The byte that no longer fits the line is answered with `BufferOverflowed`,
/// and the reader starts anew: after as many ordinary bytes as the line
/// holds, one more byte that is meant for the line overflows it.
pub proof fn lemma_overflow(capacity: nat, bytes: Seq<u8>, extra: u8)
    requires
        bytes.len() == capacity,
        forall|i: int| 0 <= i < bytes.len() ==> is_ordinary(#[trigger] bytes[i]),
        extra != BACKSPACE,
        extra != ESCAPE,
    ensures
        read_step(fed(idle(), capacity, bytes), capacity, Some(extra)) == failed(
            CommandReadError::BufferOverflowed,
            Seq::empty(),
        ),
        fed(idle(), capacity, bytes.push(extra)) == idle(),
{
    lemma_fed_ordinary(capacity, bytes);
    assert(bytes.push(extra).drop_last() =~= bytes);
}

/// A line end alone is answered with `UnexpectedEndOfLine`, and the reader
/// starts anew.
pub proof fn lemma_empty_line(capacity: nat)
    requires
        capacity > 0,
    ensures
        read_step(idle(), capacity, Some(CARRIAGE_RETURN)) == failed(
            CommandReadError::UnexpectedEndOfLine,
            seq![CARRIAGE_RETURN, LINE_FEED],
        ),
{
}

/// A backspace on an empty line changes nothing and echoes nothing.
pub proof fn lemma_backspace_on_empty_line(state: ReaderState, capacity: nat)
    requires
        state.line.len() == 0,
        !state.loaded,
        state.pending == 0,
    ensures
        read_step(state, capacity, Some(BACKSPACE)) == waiting(state, Seq::empty()),
{
}

/// The two bytes after an escape are swallowed: they leave the line as it
/// was and echo nothing.
pub proof fn lemma_escape_swallows_two(state: ReaderState, capacity: nat, first: u8, second: u8)
    requires
        !state.loaded,
        state.pending == 0,
    ensures
        fed(state, capacity, seq![ESCAPE, first, second]) == state,
{
    let bytes = seq![ESCAPE, first, second];
    let two = bytes.drop_last();
    let one = two.drop_last();
    assert(one.drop_last() =~= Seq::<u8>::empty());
    assert(fed(state, capacity, one.drop_last()) == state);
    assert(one.last() == ESCAPE);
    assert(fed(state, capacity, one) == (ReaderState { pending: 2, ..state }));
    assert(two.last() == first);
    assert(fed(state, capacity, two) == (ReaderState { pending: 1, ..state }));
    assert(bytes.last() == second);
}

} // verus!
