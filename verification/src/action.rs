//! What running a command asks of the operating system, as plain data: the
//! library decides, the caller performs.

use crate::text::texts;
use vstd::prelude::*;
use vstd::std_specs::cmp::PartialEqSpecImpl;

verus! {

/// Where a process reads its standard input from, or writes its standard
/// output to.
#[derive(Debug)]
pub enum Stream {
    /// The stream of the shell itself.
    Inherit,
    /// A pipe shared with the neighbouring process of the chain.
    Pipe,
    /// The file at this path.
    File(String),
}

/// The mathematical model of a [`Stream`].
pub enum StreamView {
    Inherit,
    Pipe,
    File(Seq<char>),
}

impl View for Stream {
    type V = StreamView;

    open spec fn view(&self) -> StreamView {
        match self {
            Stream::Inherit => StreamView::Inherit,
            Stream::Pipe => StreamView::Pipe,
            Stream::File(path) => StreamView::File(path@),
        }
    }
}

impl Clone for Stream {
    /// The same stream.
    fn clone(&self) -> (copy: Stream)
        ensures
            copy@ == self@,
    {
        match self {
            Stream::Inherit => Stream::Inherit,
            Stream::Pipe => Stream::Pipe,
            Stream::File(path) => Stream::File(path.clone()),
        }
    }
}

impl PartialEq for Stream {
    /// Whether both are the same stream.
    fn eq(&self, other: &Stream) -> (same: bool) {
        match self {
            Stream::Inherit => match other {
                Stream::Inherit => true,
                _ => false,
            },
            Stream::Pipe => match other {
                Stream::Pipe => true,
                _ => false,
            },
            Stream::File(path) => match other {
                Stream::File(other_path) => *path == *other_path,
                _ => false,
            },
        }
    }
}

impl Eq for Stream {

}

impl PartialEqSpecImpl for Stream {
    open spec fn obeys_eq_spec() -> bool {
        true
    }

    open spec fn eq_spec(&self, other: &Stream) -> bool {
        self@ == other@
    }
}

/// One process to start.
#[derive(Debug)]
pub struct Launch {
    /// The program to run.
    pub program: String,
    /// The arguments handed to it, the program's own name not among them.
    pub arguments: Vec<String>,
    /// Its standard input.
    pub stdin: Stream,
    /// Its standard output.
    pub stdout: Stream,
    /// Whether to block until the process has ended.
    pub wait: bool,
}

/// The mathematical model of a [`Launch`].
pub struct LaunchView {
    pub program: Seq<char>,
    pub arguments: Seq<Seq<char>>,
    pub stdin: StreamView,
    pub stdout: StreamView,
    pub wait: bool,
}

impl View for Launch {
    type V = LaunchView;

    open spec fn view(&self) -> LaunchView {
        LaunchView {
            program: self.program@,
            arguments: texts(self.arguments@),
            stdin: self.stdin@,
            stdout: self.stdout@,
            wait: self.wait,
        }
    }
}

impl Clone for Launch {
    /// The same process to start.
    fn clone(&self) -> (copy: Launch)
        ensures
            copy@ == self@,
    {
        let mut arguments: Vec<String> = Vec::new();
        let n: usize = self.arguments.len();
        let mut i: usize = 0;
        while i < n
            invariant
                n == self.arguments.len(),
                i <= n,
                arguments@ == self.arguments@.take(i as int),
            decreases n - i,
        {
            assert(self.arguments@.take(i + 1) =~= self.arguments@.take(i as int).push(
                self.arguments@[i as int],
            ));
            arguments.push(self.arguments[i].clone());
            i += 1;
        }
        assert(arguments@ =~= self.arguments@);
        Launch {
            program: self.program.clone(),
            arguments,
            stdin: self.stdin.clone(),
            stdout: self.stdout.clone(),
            wait: self.wait,
        }
    }
}

impl PartialEq for Launch {
    /// Whether both start the same process in the same way.
    fn eq(&self, other: &Launch) -> (same: bool) {
        if self.program != other.program || self.stdin != other.stdin || self.stdout
            != other.stdout || self.wait != other.wait || self.arguments.len()
            != other.arguments.len() {
            assert(self@ != other@) by {
                if self.arguments@.len() != other.arguments@.len() {
                    assert(self@.arguments.len() != other@.arguments.len());
                }
            }
            return false;
        }
        let n: usize = self.arguments.len();
        let mut i: usize = 0;
        while i < n
            invariant
                n == self.arguments.len(),
                n == other.arguments.len(),
                i <= n,
                forall|k: int| 0 <= k < i ==> self.arguments@[k]@ == other.arguments@[k]@,
            decreases n - i,
        {
            if self.arguments[i] != other.arguments[i] {
                assert(self@.arguments[i as int] != other@.arguments[i as int]);
                return false;
            }
            i += 1;
        }
        assert(self@.arguments =~= other@.arguments);
        true
    }
}

impl Eq for Launch {

}

impl PartialEqSpecImpl for Launch {
    open spec fn obeys_eq_spec() -> bool {
        true
    }

    open spec fn eq_spec(&self, other: &Launch) -> bool {
        self@ == other@
    }
}

/// The directives that the shell carries out itself.
#[derive(Clone, Copy, Debug, PartialEq, Eq, Structural)]
pub enum Builtin {
    /// `cd`: change the working directory.
    ChangeDirectory,
    /// `exit`: end the shell.
    Exit,
}

/// What the caller is to do for one command of a pipeline.
#[derive(Debug)]
pub enum Action {
    /// Nothing: the command holds no word.
    Skip,
    /// Change the working directory to the given path; `None` where the
    /// command names no directory, which the caller reports as an error.
    ChangeDirectory(Option<String>),
    /// End the shell, successfully.
    Exit,
    /// Start a process.
    Spawn(Launch),
}

/// The mathematical model of an [`Action`].
pub enum ActionView {
    Skip,
    ChangeDirectory(Option<Seq<char>>),
    Exit,
    Spawn(LaunchView),
}

impl View for Action {
    type V = ActionView;

    open spec fn view(&self) -> ActionView {
        match self {
            Action::Skip => ActionView::Skip,
            Action::ChangeDirectory(None) => ActionView::ChangeDirectory(None),
            Action::ChangeDirectory(Some(path)) => ActionView::ChangeDirectory(Some(path@)),
            Action::Exit => ActionView::Exit,
            Action::Spawn(launch) => ActionView::Spawn(launch@),
        }
    }
}

impl Clone for Action {
    /// The same action.
    fn clone(&self) -> (copy: Action)
        ensures
            copy@ == self@,
    {
        match self {
            Action::Skip => Action::Skip,
            Action::ChangeDirectory(None) => Action::ChangeDirectory(None),
            Action::ChangeDirectory(Some(path)) => Action::ChangeDirectory(Some(path.clone())),
            Action::Exit => Action::Exit,
            Action::Spawn(launch) => Action::Spawn(launch.clone()),
        }
    }
}

impl PartialEq for Action {
    /// Whether both ask for the same.
    fn eq(&self, other: &Action) -> (same: bool) {
        match self {
            Action::Skip => match other {
                Action::Skip => true,
                _ => false,
            },
            Action::ChangeDirectory(None) => match other {
                Action::ChangeDirectory(None) => true,
                _ => false,
            },
            Action::ChangeDirectory(Some(path)) => match other {
                Action::ChangeDirectory(Some(other_path)) => *path == *other_path,
                _ => false,
            },
            Action::Exit => match other {
                Action::Exit => true,
                _ => false,
            },
            Action::Spawn(launch) => match other {
                Action::Spawn(other_launch) => *launch == *other_launch,
                _ => false,
            },
        }
    }
}

impl Eq for Action {

}

impl PartialEqSpecImpl for Action {
    open spec fn obeys_eq_spec() -> bool {
        true
    }

    open spec fn eq_spec(&self, other: &Action) -> bool {
        self@ == other@
    }
}

/// The models of `actions`, in the same order.
pub open spec fn action_views(actions: Seq<Action>) -> Seq<ActionView> {
    actions.map_values(|a: Action| a@)
}

} // verus!
