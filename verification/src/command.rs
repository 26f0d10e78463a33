//! A simple command: one program invocation, the words that make it up and
//! the files that may stand in for its standard input and output.

use crate::action::{Action, ActionView, Builtin, Launch, LaunchView, Stream, StreamView};
use crate::text::{
    is_word, join, lemma_join_push, lemma_tokens_are_words, push_joined, texts, tokenize, tokens,
};
use std::collections::VecDeque;
use vstd::prelude::*;
use vstd::std_specs::cmp::PartialEqSpecImpl;
use vstd::string::*;

verus! {

/// The mathematical model of a [`SimpleCommand`].
pub struct CommandView {
    /// The words of the invocation; the first one names the program.
    pub arguments: Seq<Seq<char>>,
    /// The file that replaces standard input, if any.
    pub input_path: Option<Seq<char>>,
    /// The file that replaces standard output, if any.
    pub output_path: Option<Seq<char>>,
}

impl CommandView {
    /// The command that holds nothing.
    pub open spec fn empty() -> CommandView {
        CommandView { arguments: Seq::empty(), input_path: None, output_path: None }
    }

    /// This command with `word` as one more argument.
    pub open spec fn with_argument(self, word: Seq<char>) -> CommandView {
        CommandView { arguments: self.arguments.push(word), ..self }
    }

    /// This command reading from `path`.
    pub open spec fn with_input(self, path: Option<Seq<char>>) -> CommandView {
        CommandView { input_path: path, ..self }
    }

    /// This command writing to `path`.
    pub open spec fn with_output(self, path: Option<Seq<char>>) -> CommandView {
        CommandView { output_path: path, ..self }
    }

    /// This command without its first argument.
    pub open spec fn without_front(self) -> CommandView {
        CommandView { arguments: self.arguments.drop_first(), ..self }
    }

    /// The words that this command is written with: its arguments, then what
    /// redirects its input, then what redirects its output.
    pub open spec fn words(self) -> Seq<Seq<char>> {
        self.arguments + redirection(input_mark(), self.input_path) + redirection(
            output_mark(),
            self.output_path,
        )
    }
}

/// The word that redirects standard input.
pub open spec fn input_mark() -> Seq<char> {
    seq!['<']
}

/// The word that redirects standard output.
pub open spec fn output_mark() -> Seq<char> {
    seq!['>']
}

/// The path that a stored text stands for: an empty text means that there is
/// none.
pub open spec fn path_of(text: Seq<char>) -> Option<Seq<char>> {
    if text.len() == 0 {
        None
    } else {
        Some(text)
    }
}

/// The text that a path is stored as, and read back as: the empty text where
/// there is no path.
pub open spec fn text_of(path: Option<Seq<char>>) -> Seq<char> {
    match path {
        Some(text) => text,
        None => Seq::empty(),
    }
}

/// Reads `words` from left to right into `command`. A redirection mark takes
/// the word after it as a path, replacing any earlier path of its kind; a mark
/// with no word after it is dropped. Every other word becomes an argument.
pub open spec fn scan(words: Seq<Seq<char>>, command: CommandView) -> CommandView
    decreases words.len(),
{
    if words.len() == 0 {
        command
    } else if words[0] == input_mark() {
        if words.len() == 1 {
            command
        } else {
            scan(words.skip(2), command.with_input(Some(words[1])))
        }
    } else if words[0] == output_mark() {
        if words.len() == 1 {
            command
        } else {
            scan(words.skip(2), command.with_output(Some(words[1])))
        }
    } else {
        scan(words.skip(1), command.with_argument(words[0]))
    }
}

/// The command that the text of one pipeline segment stands for.
pub open spec fn parse_command(text: Seq<char>) -> CommandView {
    scan(tokens(text), CommandView::empty())
}

/// The words that redirect a stream to `path`: the mark and the path, or
/// nothing where there is no path.
pub open spec fn redirection(mark: Seq<char>, path: Option<Seq<char>>) -> Seq<Seq<char>> {
    match path {
        Some(text) => seq![mark, text],
        None => Seq::empty(),
    }
}

/// The text of a command: its words with one space between neighbours.
pub open spec fn render_command(command: CommandView) -> Seq<char> {
    join(command.words(), seq![' '])
}

/// The program name of the directive that changes the working directory.
pub open spec fn cd_word() -> Seq<char> {
    seq!['c', 'd']
}

/// The program name of the directive that ends the shell.
pub open spec fn exit_word() -> Seq<char> {
    seq!['e', 'x', 'i', 't']
}

/// The directive that a command stands for, if its program name is one.
pub open spec fn builtin_of(command: CommandView) -> Option<Builtin> {
    if command.arguments.len() > 0 && command.arguments[0] == cd_word() {
        Some(Builtin::ChangeDirectory)
    } else if command.arguments.len() > 0 && command.arguments[0] == exit_word() {
        Some(Builtin::Exit)
    } else {
        None
    }
}

/// Whether running the command starts a process.
pub open spec fn spawns(command: CommandView) -> bool {
    command.arguments.len() > 0 && builtin_of(command) is None
}

/// Where a process reads from: the pipe from its predecessor if there is one,
/// else the file that its command names, else the shell's own input.
pub open spec fn input_of(path: Option<Seq<char>>, in_piped: bool) -> StreamView {
    if in_piped {
        StreamView::Pipe
    } else {
        match path {
            Some(text) => StreamView::File(text),
            None => StreamView::Inherit,
        }
    }
}

/// Where a process writes to: the pipe to its successor if there is one, else
/// the file that its command names, else the shell's own output.
pub open spec fn output_of(path: Option<Seq<char>>, out_piped: bool) -> StreamView {
    if out_piped {
        StreamView::Pipe
    } else {
        match path {
            Some(text) => StreamView::File(text),
            None => StreamView::Inherit,
        }
    }
}

/// What running `command` comes to: nothing for a command without words, the
/// directive for `cd` and `exit`, and otherwise one process, started with the
/// first word as its program and the other words as its arguments.
pub open spec fn action_of(
    command: CommandView,
    in_piped: bool,
    out_piped: bool,
    should_wait: bool,
) -> ActionView {
    if command.arguments.len() == 0 {
        ActionView::Skip
    } else {
        match builtin_of(command) {
            Some(Builtin::ChangeDirectory) => ActionView::ChangeDirectory(
                if command.arguments.len() > 1 {
                    Some(command.arguments[1])
                } else {
                    None
                },
            ),
            Some(Builtin::Exit) => ActionView::Exit,
            None => ActionView::Spawn(
                LaunchView {
                    program: command.arguments[0],
                    arguments: command.arguments.skip(1),
                    stdin: input_of(command.input_path, in_piped),
                    stdout: output_of(command.output_path, out_piped),
                    wait: should_wait,
                },
            ),
        }
    }
}

/// One program invocation: its words, the first of which names the program,
/// and the paths of the files that replace its standard input and output. An
/// empty path means that the stream is not redirected.
#[derive(Debug)]
pub struct SimpleCommand {
    args: VecDeque<String>,
    out: String,
    input: String,
}

impl View for SimpleCommand {
    type V = CommandView;

    closed spec fn view(&self) -> CommandView {
        CommandView {
            arguments: texts(self.args@),
            input_path: path_of(self.input@),
            output_path: path_of(self.out@),
        }
    }
}

impl Clone for SimpleCommand {
    /// A command with the same words and the same redirections.
    fn clone(&self) -> (copy: SimpleCommand)
        ensures
            copy@ == self@,
    {
        let mut args: VecDeque<String> = VecDeque::new();
        let n: usize = self.args.len();
        let mut i: usize = 0;
        while i < n
            invariant
                n == self.args.len(),
                i <= n,
                args@ == self.args@.take(i as int),
            decreases n - i,
        {
            args.push_back(self.args[i].clone());
            i += 1;
        }
        assert(args@ =~= self.args@);
        SimpleCommand { args, out: self.out.clone(), input: self.input.clone() }
    }
}

impl PartialEq for SimpleCommand {
    /// Whether both commands hold the same words and the same redirections.
    fn eq(&self, other: &SimpleCommand) -> (same: bool) {
        if self.args.len() != other.args.len() || self.input != other.input || self.out
            != other.out {
            assert(self@ != other@) by {
                if self.args@.len() != other.args@.len() {
                    assert(self@.arguments.len() != other@.arguments.len());
                } else if self.input@ != other.input@ {
                    assert(path_of(self.input@) == path_of(other.input@) ==> self.input@
                        =~= other.input@);
                } else {
                    assert(path_of(self.out@) == path_of(other.out@) ==> self.out@ =~= other.out@);
                }
            }
            return false;
        }
        let n: usize = self.args.len();
        let mut i: usize = 0;
        while i < n
            invariant
                n == self.args.len(),
                n == other.args.len(),
                i <= n,
                forall|k: int| 0 <= k < i ==> self.args@[k]@ == other.args@[k]@,
            decreases n - i,
        {
            if self.args[i] != other.args[i] {
                assert(self@.arguments[i as int] != other@.arguments[i as int]);
                return false;
            }
            i += 1;
        }
        assert(self@.arguments =~= other@.arguments);
        true
    }
}

impl Eq for SimpleCommand {

}

impl PartialEqSpecImpl for SimpleCommand {
    open spec fn obeys_eq_spec() -> bool {
        true
    }

    open spec fn eq_spec(&self, other: &SimpleCommand) -> bool {
        self@ == other@
    }
}

impl SimpleCommand {
    /// A command that holds nothing yet.
    pub fn new() -> (command: SimpleCommand)
        ensures
            command@ == CommandView::empty(),
    {
        let command = SimpleCommand {
            args: VecDeque::new(),
            out: String::new(),
            input: String::new(),
        };
        assert(texts(command.args@) =~= Seq::empty());
        command
    }

    /// Appends `arg` to the arguments.
    pub fn push_back(&mut self, arg: String)
        ensures
            final(self)@ == old(self)@.with_argument(arg@),
    {
        assert(texts(self.args@.push(arg)) =~= texts(self.args@).push(arg@));
        self.args.push_back(arg);
    }

    /// Removes the first argument and returns it; `None`, and no change, where
    /// there is no argument.
    pub fn pop_front(&mut self) -> (front: Option<String>)
        ensures
            match front {
                Some(word) => {
                    &&& old(self)@.arguments.len() > 0
                    &&& word@ == old(self)@.arguments[0]
                    &&& final(self)@ == old(self)@.without_front()
                },
                None => {
                    &&& old(self)@.arguments.len() == 0
                    &&& final(self)@ == old(self)@
                },
            },
    {
        assert(self.args@.len() > 0 ==> texts(self.args@.subrange(1, self.args@.len() as int))
            =~= texts(self.args@).drop_first());
        self.args.pop_front()
    }

    /// The first argument, which names the program.
    pub fn front(&self) -> (front: Option<&String>)
        ensures
            match front {
                Some(word) => self@.arguments.len() > 0 && word@ == self@.arguments[0],
                None => self@.arguments.len() == 0,
            },
    {
        if self.args.len() == 0 {
            None
        } else {
            Some(&self.args[0])
        }
    }

    /// The number of arguments.
    pub fn length(&self) -> (n: usize)
        ensures
            n == self@.arguments.len(),
    {
        self.args.len()
    }

    /// Whether there is no argument.
    pub fn is_empty(&self) -> (empty: bool)
        ensures
            empty == (self@.arguments.len() == 0),
    {
        self.args.len() == 0
    }

    /// Redirects standard input to the file at `path`; an empty `path` takes
    /// the redirection away.
    pub fn set_redir_in(&mut self, path: String)
        ensures
            final(self)@ == old(self)@.with_input(path_of(path@)),
    {
        self.input = path;
    }

    /// Redirects standard output to the file at `path`; an empty `path` takes
    /// the redirection away.
    pub fn set_redir_out(&mut self, path: String)
        ensures
            final(self)@ == old(self)@.with_output(path_of(path@)),
    {
        self.out = path;
    }

    /// The path that standard input is redirected to; empty where it is not
    /// redirected.
    pub fn get_redir_in(&self) -> (path: &str)
        ensures
            path@ == text_of(self@.input_path),
    {
        self.input.as_str()
    }

    /// The path that standard output is redirected to; empty where it is not
    /// redirected.
    pub fn get_redir_out(&self) -> (path: &str)
        ensures
            path@ == text_of(self@.output_path),
    {
        self.out.as_str()
    }

    /// Reads the text of one pipeline segment.
    pub fn parse(command_str: &str) -> (command: SimpleCommand)
        ensures
            command@ == parse_command(command_str@),
    {
        let input_mark = String::from_str("<");
        let output_mark = String::from_str(">");
        proof {
            reveal_strlit("<");
            reveal_strlit(">");
            lemma_tokens_are_words(command_str@);
        }
        let mut parts = tokenize(command_str);
        let mut command = SimpleCommand::new();
        while parts.len() > 0
            invariant
                input_mark@ == self::input_mark(),
                output_mark@ == self::output_mark(),
                forall|k: int| 0 <= k < parts@.len() ==> is_word(#[trigger] texts(parts@)[k]),
                scan(texts(parts@), command@) == parse_command(command_str@),
            decreases parts.len(),
        {
            let ghost before = texts(parts@);
            let part = parts.pop_front().unwrap();
            assert(texts(parts@) =~= before.skip(1));
            if part == input_mark {
                if parts.len() > 0 {
                    let path = parts.pop_front().unwrap();
                    assert(texts(parts@) =~= before.skip(2));
                    command.input = path;
                }
            } else if part == output_mark {
                if parts.len() > 0 {
                    let path = parts.pop_front().unwrap();
                    assert(texts(parts@) =~= before.skip(2));
                    command.out = path;
                }
            } else {
                command.push_back(part);
            }
        }
        command
    }

    /// The text of this command.
    pub fn to_string(&self) -> (text: String)
        ensures
            text@ == render_command(self@),
    {
        let mut text = String::new();
        let ghost mut written: Seq<Seq<char>> = Seq::empty();
        proof {
            reveal_strlit(" ");
            reveal_strlit("<");
            reveal_strlit(">");
        }
        let n: usize = self.args.len();
        let mut i: usize = 0;
        while i < n
            invariant
                n == self.args.len(),
                i <= n,
                " "@ == seq![' '],
                written == texts(self.args@).take(i as int),
                text@ == join(written, seq![' ']),
            decreases n - i,
        {
            proof {
                lemma_join_push(written, self.args@[i as int]@, seq![' ']);
            }
            push_joined(&mut text, self.args[i].as_str(), " ", i == 0);
            proof {
                written = written.push(self.args@[i as int]@);
            }
            i += 1;
        }
        if !self.input.as_str().is_empty() {
            proof {
                lemma_join_push(written, input_mark(), seq![' ']);
                lemma_join_push(written.push(input_mark()), self.input@, seq![' ']);
            }
            push_joined(&mut text, "<", " ", n == 0);
            push_joined(&mut text, self.input.as_str(), " ", false);
            proof {
                written = written.push(input_mark()).push(self.input@);
            }
        }
        if !self.out.as_str().is_empty() {
            proof {
                lemma_join_push(written, output_mark(), seq![' ']);
                lemma_join_push(written.push(output_mark()), self.out@, seq![' ']);
            }
            push_joined(&mut text, ">", " ", n == 0 && self.input.as_str().is_empty());
            push_joined(&mut text, self.out.as_str(), " ", false);
            proof {
                written = written.push(output_mark()).push(self.out@);
            }
        }
        assert(written =~= self@.words());
        text
    }

    /// Tells whether the shell carries this command out itself, and as which
    /// directive.
    pub fn handle_builtins(&self) -> (builtin: Option<Builtin>)
        ensures
            builtin == builtin_of(self@),
    {
        if self.args.len() == 0 {
            return None;
        }
        let cd = String::from_str("cd");
        let exit = String::from_str("exit");
        proof {
            reveal_strlit("cd");
            reveal_strlit("exit");
            assert(cd@ =~= cd_word());
            assert(exit@ =~= exit_word());
        }
        if self.args[0] == cd {
            Some(Builtin::ChangeDirectory)
        } else if self.args[0] == exit {
            Some(Builtin::Exit)
        } else {
            None
        }
    }

    /// The arguments that a process is started with.
    fn set_args(args: VecDeque<String>) -> (arguments: Vec<String>)
        ensures
            arguments@ == args@,
    {
        let mut args = args;
        let mut arguments: Vec<String> = Vec::new();
        let ghost all = args@;
        while args.len() > 0
            invariant
                arguments@ + args@ == all,
            decreases args.len(),
        {
            let ghost before = args@;
            let arg = args.pop_front().unwrap();
            arguments.push(arg);
        }
        arguments
    }

    /// The standard input of a process whose command reads from `input`.
    fn set_in_pipe(input: String, in_piped: bool) -> (stdin: Stream)
        ensures
            stdin@ == input_of(path_of(input@), in_piped),
    {
        if in_piped {
            Stream::Pipe
        } else if !input.as_str().is_empty() {
            Stream::File(input)
        } else {
            Stream::Inherit
        }
    }

    /// The standard output of a process whose command writes to `out`.
    fn set_out_pipe(out: String, out_piped: bool) -> (stdout: Stream)
        ensures
            stdout@ == output_of(path_of(out@), out_piped),
    {
        if out_piped {
            Stream::Pipe
        } else if !out.as_str().is_empty() {
            Stream::File(out)
        } else {
            Stream::Inherit
        }
    }

    /// Decides what running this command comes to, and hands its words over to
    /// the action: the command is left empty. `in_piped` tells whether the
    /// output of a process started just before is at hand, `out_piped` whether
    /// another command follows, `should_wait` whether to wait for the process.
    pub fn execute(&mut self, in_piped: bool, out_piped: bool, should_wait: bool) -> (action:
        Action)
        ensures
            action@ == action_of(old(self)@, in_piped, out_piped, should_wait),
            final(self)@ == CommandView::empty(),
    {
        let mut taken = SimpleCommand::new();
        std::mem::swap(self, &mut taken);
        let builtin = taken.handle_builtins();
        let SimpleCommand { mut args, out, input } = taken;
        let ghost words = texts(args@);
        match args.pop_front() {
            None => Action::Skip,
            Some(program) => {
                assert(texts(args@) =~= words.skip(1));
                match builtin {
                    Some(Builtin::ChangeDirectory) => Action::ChangeDirectory(args.pop_front()),
                    Some(Builtin::Exit) => Action::Exit,
                    None => Action::Spawn(
                        Launch {
                            program,
                            arguments: Self::set_args(args),
                            stdin: Self::set_in_pipe(input, in_piped),
                            stdout: Self::set_out_pipe(out, out_piped),
                            wait: should_wait,
                        },
                    ),
                }
            },
        }
    }
}

} // verus!
