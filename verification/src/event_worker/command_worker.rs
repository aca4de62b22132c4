//! Command mode: keystrokes build up a command line, which `Enter` runs.

use crate::event_worker::edit_worker::EditWorker;
use crate::event_worker::{
    magenta_bg, mode_label, reset_bg, EventWorker, InputEvent, Step, WorkerView,
};
use crate::lines::text_of;
use crate::state::{SaveRequest, State, StateView};
use crate::text::{
    chars_of, number_of, parse_number, push_char, same_chars, string_of, tokenize, tokens,
    words_view,
};
use crate::util::Direction;
use vstd::prelude::*;
use vstd::string::{StrSliceExecFns, StringExecFns};

verus! {

/// The worker of command mode: the command line typed so far.
#[derive(Debug)]
pub struct CommandWorker {
    input: String,
}

impl View for CommandWorker {
    type V = Seq<char>;

    /// The command line typed so far.
    closed spec fn view(&self) -> Seq<char> {
        self.input@
    }
}

impl Default for CommandWorker {
    fn default() -> (r: CommandWorker)
        ensures
            r@ == Seq::<char>::empty(),
    {
        CommandWorker { input: String::new() }
    }
}

/// A command line, read.
#[derive(Debug, Clone, PartialEq, Eq)]
pub enum Command {
    /// `go <direction> <distance>`: move the cursor.
    Go(Direction, usize),
    /// `go` with two arguments that are no direction and distance.
    Usage,
    /// `edit`: change to edit mode.
    Edit,
    /// `save-as <path>`: write the current buffer to a file.
    SaveAs(String),
    /// `quit`: leave the editor.
    Quit,
    /// Anything else; it holds the message that says so.
    Unknown(String),
    /// A line without a token.
    Empty,
}

/// A command with its texts as plain characters.
pub enum CommandView {
    Go(Direction, usize),
    Usage,
    Edit,
    SaveAs(Seq<char>),
    Quit,
    Unknown(Seq<char>),
    Empty,
}

impl View for Command {
    type V = CommandView;

    open spec fn view(&self) -> CommandView {
        match self {
            Command::Go(dir, distance) => CommandView::Go(*dir, *distance),
            Command::Usage => CommandView::Usage,
            Command::Edit => CommandView::Edit,
            Command::SaveAs(path) => CommandView::SaveAs(path@),
            Command::Quit => CommandView::Quit,
            Command::Unknown(message) => CommandView::Unknown(message@),
            Command::Empty => CommandView::Empty,
        }
    }
}

/// The message for a `go` whose arguments cannot be read.
pub open spec fn usage_message() -> Seq<char> {
    "usage: go <direction> <distance>"@
}

/// The words of `words`, each with a blank before it.
pub open spec fn spaced(words: Seq<Seq<char>>) -> Seq<char>
    decreases words.len(),
{
    if words.len() == 0 {
        Seq::empty()
    } else {
        spaced(words.drop_last()) + seq![' '] + words.last()
    }
}

/// The message for a command that is not known, or has the wrong number
/// of arguments: it names the command and its arguments.
pub open spec fn unknown_message(name: Seq<char>, args: Seq<Seq<char>>) -> Seq<char> {
    "unknown command: "@ + name + spaced(args)
}

/// The command that a line holds. The line is cut into tokens at blanks;
/// the first token names the command, the others are its arguments.
pub open spec fn command_of(line: Seq<char>) -> CommandView {
    let words = tokens(line);
    if words.len() == 0 {
        CommandView::Empty
    } else {
        let name = words[0];
        let args = words.skip(1);
        if name == "go"@ && args.len() == 2 {
            match (Direction::named(args[0]), number_of(args[1])) {
                (Some(dir), Some(distance)) => CommandView::Go(dir, distance),
                _ => CommandView::Usage,
            }
        } else if name == "edit"@ && args.len() == 0 {
            CommandView::Edit
        } else if name == "save-as"@ && args.len() == 1 {
            CommandView::SaveAs(args[0])
        } else if name == "quit"@ && args.len() == 0 {
            CommandView::Quit
        } else {
            CommandView::Unknown(unknown_message(name, args))
        }
    }
}

/// The direction that a command line of a single letter moves the cursor
/// in, by one step and without `Enter`: `i` up, `j` left, `k` down, `l` right.
pub open spec fn shortcut_of(line: Seq<char>) -> Option<Direction> {
    if line == seq!['i'] {
        Some(Direction::Up)
    } else if line == seq!['j'] {
        Some(Direction::Left)
    } else if line == seq!['k'] {
        Some(Direction::Down)
    } else if line == seq!['l'] {
        Some(Direction::Right)
    } else {
        None
    }
}

/// The state after a command is run. A command that cannot be read
/// changes nothing but the message.
pub open spec fn run(state: StateView, command: CommandView) -> StateView {
    match command {
        CommandView::Go(dir, distance) => state.with_cursor(state.cursor().moved(dir, distance)),
        CommandView::Usage => state.with_message(usage_message()),
        CommandView::Edit => state,
        CommandView::SaveAs(path) => StateView {
            save_request: Some((path, text_of(state.current_buffer()))),
            ..state
        },
        CommandView::Quit => StateView { is_quit: true, ..state },
        CommandView::Unknown(message) => state.with_message(message),
        CommandView::Empty => state,
    }
}

/// What an event does in command mode. A character is added to the
/// command line, which is shown as the message; if the line is then a
/// shortcut, the cursor moves and the line is cleared. `Backspace` takes the
/// last character off the line. `Enter` runs the line and clears it; the
/// command `edit` changes to edit mode. Anything else does nothing.
pub open spec fn command_step(input: Seq<char>, state: StateView, e: InputEvent) -> Step {
    if e.is_enter() {
        Step {
            worker: WorkerView::Command(Seq::<char>::empty()),
            state: run(state, command_of(input)),
            next: if command_of(input) is Edit {
                Some(WorkerView::Edit)
            } else {
                None
            },
        }
    } else {
        match e {
            InputEvent::Char(c) => {
                let line = input.push(c);
                let shown = state.with_message(line);
                match shortcut_of(line) {
                    Some(dir) => Step {
                        worker: WorkerView::Command(Seq::<char>::empty()),
                        state: shown.with_cursor(shown.cursor().moved(dir, 1)),
                        next: None,
                    },
                    None => Step { worker: WorkerView::Command(line), state: shown, next: None },
                }
            },
            InputEvent::Backspace => Step {
                worker: WorkerView::Command(
                    if input.len() > 0 {
                        input.drop_last()
                    } else {
                        input
                    },
                ),
                state,
                next: None,
            },
            _ => Step { worker: WorkerView::Command(input), state, next: None },
        }
    }
}

/// Reads a command line.
pub fn parse_command(line: &str) -> (r: Command)
    ensures
        r@ == command_of(line@),
{
    let chars: Vec<char> = chars_of(line);
    let words: Vec<Vec<char>> = tokenize(&chars);
    assert(words_view(words@).len() == words@.len());
    if words.len() == 0 {
        return Command::Empty;
    }
    let ghost name = tokens(line@)[0];
    let ghost args = tokens(line@).skip(1);
    assert(words@[0]@ == name);
    let n_args: usize = words.len() - 1;
    if same_chars(&words[0], &chars_of("go")) && n_args == 2 {
        assert(words_view(words@)[1] == args[0]);
        assert(words_view(words@)[2] == args[1]);
        match (Direction::from_chars(&words[1]), parse_number(&words[2])) {
            (Some(dir), Some(distance)) => Command::Go(dir, distance),
            _ => Command::Usage,
        }
    } else if same_chars(&words[0], &chars_of("edit")) && n_args == 0 {
        Command::Edit
    } else if same_chars(&words[0], &chars_of("save-as")) && n_args == 1 {
        assert(words_view(words@)[1] == args[0]);
        let path: String = string_of(&words[1], 0, words[1].len());
        assert(path@ =~= words@[1]@);
        Command::SaveAs(path)
    } else if same_chars(&words[0], &chars_of("quit")) && n_args == 0 {
        Command::Quit
    } else {
        let mut message: String = String::from_str("unknown command: ");
        let shown: String = string_of(&words[0], 0, words[0].len());
        assert(shown@ =~= name);
        message.append(shown.as_str());
        let mut i: usize = 1;
        assert(args.take(0) =~= Seq::<Seq<char>>::empty());
        while i < words.len()
            invariant
                1 <= i <= words.len(),
                words_view(words@) == tokens(line@),
                args == tokens(line@).skip(1),
                message@ == "unknown command: "@ + name + spaced(args.take(i - 1)),
            decreases words.len() - i,
        {
            let word: String = string_of(&words[i], 0, words[i].len());
            proof {
                assert(word@ =~= words@[i as int]@);
                assert(words_view(words@)[i as int] == args[i - 1]);
                assert(args.take(i as int).drop_last() =~= args.take(i - 1));
                assert(args.take(i as int).last() == args[i - 1]);
            }
            push_char(&mut message, ' ');
            message.append(word.as_str());
            i += 1;
            assert(message@ =~= "unknown command: "@ + name + spaced(args.take(i - 1)));
        }
        assert(args.take(i - 1) =~= args);
        Command::Unknown(message)
    }
}

/// Reads the shortcut that a command line is, if it is one.
pub fn parse_shortcut(line: &str) -> (r: Option<Direction>)
    ensures
        r == shortcut_of(line@),
{
    let chars: Vec<char> = chars_of(line);
    if chars.len() != 1 {
        return None;
    }
    let c: char = chars[0];
    assert(chars@ =~= seq![c]);
    if c == 'i' {
        Some(Direction::Up)
    } else if c == 'j' {
        assert(seq!['j'][0] != 'i');
        Some(Direction::Left)
    } else if c == 'k' {
        assert(seq!['k'][0] != 'i' && seq!['k'][0] != 'j');
        Some(Direction::Down)
    } else if c == 'l' {
        assert(seq!['l'][0] != 'i' && seq!['l'][0] != 'j' && seq!['l'][0] != 'k');
        Some(Direction::Right)
    } else {
        assert(seq![c][0] == c);
        None
    }
}

/// Moves the cursor of the current panel.
fn move_cursor(state: &mut State, dir: Direction, distance: usize)
    requires
        old(state).wf(),
    ensures
        final(state).wf(),
        final(state)@ == old(state)@.with_cursor(old(state)@.cursor().moved(dir, distance)),
{
    proof {
        let v = state@;
        v.lemma_current();
        v.lemma_with_current_panel(v.current_panel());
    }
    let panel = state.current_panel_mut();
    panel.cursor.go(dir, distance);
}

/// Runs a command on the state.
pub fn run_command(state: &mut State, command: Command)
    requires
        old(state).wf(),
    ensures
        final(state).wf(),
        final(state)@ == run(old(state)@, command@),
{
    match command {
        Command::Go(dir, distance) => {
            move_cursor(state, dir, distance);
        },
        Command::Usage => {
            state.update_message("usage: go <direction> <distance>");
        },
        Command::Edit => {},
        Command::SaveAs(path) => {
            let text: String = state.current_buffer().text();
            state.save_request = Some(SaveRequest { path, text });
        },
        Command::Quit => {
            state.is_quit = true;
        },
        Command::Unknown(message) => {
            state.update_message(message.as_str());
        },
        Command::Empty => {},
    }
}

impl CommandWorker {
    /// The label of command mode for the status line.
    pub fn mode(&self) -> (r: String)
        ensures
            r@ == mode_label(WorkerView::Command(self@)),
    {
        let mut label: String = String::from_str(magenta_bg());
        label.append(" Cmd  ");
        label.append(reset_bg());
        label
    }

    /// Where the command line is a shortcut, moves the cursor by one step
    /// and clears the line.
    fn apply_immediately_command(&mut self, state: &mut State) -> (r: Option<EventWorker>)
        requires
            old(state).wf(),
        ensures
            final(state).wf(),
            r is None,
            match shortcut_of(old(self)@) {
                Some(dir) => {
                    &&& final(self)@ == Seq::<char>::empty()
                    &&& final(state)@ == old(state)@.with_cursor(
                        old(state)@.cursor().moved(dir, 1),
                    )
                },
                None => final(self)@ == old(self)@ && final(state)@ == old(state)@,
            },
    {
        match parse_shortcut(self.input.as_str()) {
            Some(dir) => {
                move_cursor(state, dir, 1);
                self.input = String::new();
            },
            None => {},
        }
        None
    }

    /// Runs the command line.
    fn apply_buildin_command(&mut self, state: &mut State) -> (r: Option<EventWorker>)
        requires
            old(state).wf(),
        ensures
            final(state).wf(),
            final(self)@ == old(self)@,
            final(state)@ == run(old(state)@, command_of(old(self)@)),
            r is Some <==> command_of(old(self)@) is Edit,
            r matches Some(next) ==> next@ == WorkerView::Edit,
    {
        let command = parse_command(self.input.as_str());
        let to_edit: bool = match &command {
            Command::Edit => true,
            _ => false,
        };
        run_command(state, command);
        if to_edit {
            Some(EventWorker::Edit(EditWorker::default()))
        } else {
            None
        }
    }

    /// Interprets one event in command mode.
    pub fn update(&mut self, state: &mut State, e: InputEvent) -> (r: Option<EventWorker>)
        requires
            old(state).wf(),
        ensures
            final(state).wf(),
            WorkerView::Command(final(self)@) == command_step(old(self)@, old(state)@, e).worker,
            final(state)@ == command_step(old(self)@, old(state)@, e).state,
            match r {
                Some(next) => command_step(old(self)@, old(state)@, e).next == Some(next@),
                None => command_step(old(self)@, old(state)@, e).next is None,
            },
    {
        match e {
            InputEvent::Enter | InputEvent::Char('\n') => {
                let next_worker = self.apply_buildin_command(state);
                self.input = String::new();
                return next_worker;
            },
            InputEvent::Backspace => {
                let n: usize = self.input.as_str().unicode_len();
                if n > 0 {
                    let shorter: String = String::from_str(
                        self.input.as_str().substring_char(0, n - 1),
                    );
                    assert(shorter@ =~= self.input@.drop_last());
                    self.input = shorter;
                }
            },
            InputEvent::Char(c) => {
                push_char(&mut self.input, c);
                state.update_message(self.input.as_str());
                return self.apply_immediately_command(state);
            },
            _ => {},
        }
        None
    }
}

} // verus!
