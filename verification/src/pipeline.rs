//! A pipeline: the commands of one input line, from left to right, and
//! whether the shell waits for them.

use crate::action::{action_views, Action, ActionView, StreamView};
use crate::command::{
    action_of, builtin_of, parse_command, render_command, spawns, CommandView, SimpleCommand,
};
use crate::text::{
    chars_of, join, lemma_join_push, lemma_segment_len_is, push_joined, split, trim, trim_bounds,
};
use std::collections::VecDeque;
use vstd::prelude::*;
use vstd::std_specs::cmp::PartialEqSpecImpl;
use vstd::string::*;

verus! {

/// The mathematical model of a [`Pipeline`].
pub struct PipelineView {
    /// The commands, in the order in which they are piped into each other.
    pub commands: Seq<CommandView>,
    /// Whether the shell waits for the pipeline to end.
    pub wait: bool,
}

impl PipelineView {
    /// The pipeline without commands that the shell waits for.
    pub open spec fn empty() -> PipelineView {
        PipelineView { commands: Seq::empty(), wait: true }
    }

    /// This pipeline with `command` as one more command.
    pub open spec fn with_command(self, command: CommandView) -> PipelineView {
        PipelineView { commands: self.commands.push(command), ..self }
    }

    /// This pipeline with these commands in place of its own.
    pub open spec fn with_commands(self, commands: Seq<CommandView>) -> PipelineView {
        PipelineView { commands, ..self }
    }

    /// This pipeline with `wait` as its wait flag.
    pub open spec fn with_wait(self, wait: bool) -> PipelineView {
        PipelineView { wait, ..self }
    }

    /// This pipeline without its first command.
    pub open spec fn without_front(self) -> PipelineView {
        PipelineView { commands: self.commands.drop_first(), ..self }
    }
}

/// The character between the commands of a pipeline.
pub open spec fn pipe_mark() -> char {
    '|'
}

/// The character that, at the end of a line, sends the pipeline to the
/// background.
pub open spec fn background_mark() -> char {
    '&'
}

/// The command of one segment of a line: none where the segment holds only
/// whitespace.
pub open spec fn parse_segment(segment: Seq<char>) -> Option<CommandView> {
    let text = trim(segment);
    if text.len() == 0 {
        None
    } else {
        Some(parse_command(text))
    }
}

/// The commands of the segments of a line, in order; segments without a
/// command leave no trace.
pub open spec fn parse_segments(segments: Seq<Seq<char>>) -> Seq<CommandView>
    decreases segments.len(),
{
    if segments.len() == 0 {
        Seq::empty()
    } else {
        let rest = parse_segments(segments.drop_first());
        match parse_segment(segments[0]) {
            Some(command) => seq![command] + rest,
            None => rest,
        }
    }
}

/// The pipeline that a line of input stands for. The line is trimmed; a
/// background mark at its end is taken off and means that the shell does not
/// wait; what is left is cut at every pipe mark, and each piece gives a command.
pub open spec fn parse_line(line: Seq<char>) -> PipelineView {
    let text = trim(line);
    if text.len() > 0 && text.last() == background_mark() {
        PipelineView { commands: parse_segments(split(text.drop_last(), pipe_mark())), wait: false }
    } else {
        PipelineView { commands: parse_segments(split(text, pipe_mark())), wait: true }
    }
}

/// The texts of `commands`, in the same order.
pub open spec fn render_commands(commands: Seq<CommandView>) -> Seq<Seq<char>> {
    commands.map_values(|c: CommandView| render_command(c))
}

/// The text of a pipeline: the texts of its commands with ` | ` between
/// neighbours, followed by ` &` where the shell does not wait.
pub open spec fn render_pipeline(pipeline: PipelineView) -> Seq<char> {
    let chain = join(render_commands(pipeline.commands), seq![' ', pipe_mark(), ' ']);
    if pipeline.wait {
        chain
    } else {
        chain + seq![' ', background_mark()]
    }
}

/// What running the command at position `i` of `pipeline` comes to. It reads
/// from a pipe where the command before it started a process, writes to a pipe
/// where a command follows it, and is waited for where it is the last one of a
/// pipeline that the shell waits for.
pub open spec fn step(pipeline: PipelineView, i: int) -> ActionView {
    action_of(
        pipeline.commands[i],
        i > 0 && spawns(pipeline.commands[i - 1]),
        i + 1 < pipeline.commands.len(),
        pipeline.wait && i + 1 == pipeline.commands.len(),
    )
}

/// What running `pipeline` comes to: one action for each command, in order.
pub open spec fn plan(pipeline: PipelineView) -> Seq<ActionView> {
    Seq::new(pipeline.commands.len(), |i: int| step(pipeline, i))
}

/// The models of `commands`, in the same order.
pub open spec fn command_views(commands: Seq<SimpleCommand>) -> Seq<CommandView> {
    commands.map_values(|c: SimpleCommand| c@)
}

/// The commands of a single segment: its own, if it has one.
pub proof fn lemma_parse_segments_one(segment: Seq<char>)
    ensures
        parse_segments(seq![segment]) == match parse_segment(segment) {
            Some(command) => seq![command],
            None => Seq::empty(),
        },
{
    assert(parse_segments(seq![segment].drop_first()) =~= Seq::empty());
}

/// Where the first pipe mark of `text` stands at `n`, the commands of `text`
/// are that of what stands before the mark, then those of what follows it.
pub proof fn lemma_parse_segments_step(text: Seq<char>, n: int)
    requires
        0 <= n < text.len(),
        forall|k: int| 0 <= k < n ==> #[trigger] text[k] != pipe_mark(),
        text[n] == pipe_mark(),
    ensures
        parse_segments(split(text, pipe_mark())) == parse_segments(seq![text.take(n)])
            + parse_segments(split(text.skip(n + 1), pipe_mark())),
{
    lemma_segment_len_is(text, pipe_mark(), n);
    let tail = split(text.skip(n + 1), pipe_mark());
    assert((seq![text.take(n)] + tail).drop_first() =~= tail);
    lemma_parse_segments_one(text.take(n));
}

/// A text without a pipe mark is a single segment.
pub proof fn lemma_parse_segments_last(text: Seq<char>)
    requires
        forall|k: int| 0 <= k < text.len() ==> #[trigger] text[k] != pipe_mark(),
    ensures
        split(text, pipe_mark()) == seq![text],
{
    lemma_segment_len_is(text, pipe_mark(), text.len() as int);
}

/// How a plan wires its processes. A process reads from a pipe exactly where
/// the action before it starts a process, and that process then writes to a
/// pipe; it writes to a pipe exactly where a command follows it. So a file
/// replaces the input only of a process that no process feeds, and the output
/// only of the last command. A process is waited for exactly where it belongs
/// to the last command of a pipeline that the shell waits for.
pub proof fn lemma_wiring(pipeline: PipelineView, i: int)
    requires
        0 <= i < pipeline.commands.len(),
    ensures
        plan(pipeline)[i] matches ActionView::Spawn(launch) ==> {
            &&& launch.stdin is Pipe <==> i > 0 && plan(pipeline)[i - 1] is Spawn
            &&& launch.stdout is Pipe <==> i + 1 < pipeline.commands.len()
            &&& launch.wait <==> pipeline.wait && i + 1 == pipeline.commands.len()
            &&& launch.stdin is File ==> launch.stdin == StreamView::File(
                pipeline.commands[i].input_path->0,
            )
            &&& launch.stdout is File ==> launch.stdout == StreamView::File(
                pipeline.commands[i].output_path->0,
            )
        },
        i > 0 && plan(pipeline)[i - 1] is Spawn ==> plan(pipeline)[i - 1]->Spawn_0.stdout is Pipe,
        !(plan(pipeline)[i] is Spawn) <==> pipeline.commands[i].arguments.len() == 0 || builtin_of(
            pipeline.commands[i],
        ) is Some,
{
}

/// The commands of one input line and whether the shell waits for them.
#[derive(Debug)]
pub struct Pipeline {
    commands: VecDeque<SimpleCommand>,
    should_wait: bool,
}

impl View for Pipeline {
    type V = PipelineView;

    closed spec fn view(&self) -> PipelineView {
        PipelineView { commands: command_views(self.commands@), wait: self.should_wait }
    }
}

impl Clone for Pipeline {
    /// A pipeline with the same commands and the same wait flag.
    fn clone(&self) -> (copy: Pipeline)
        ensures
            copy@ == self@,
    {
        let mut commands: VecDeque<SimpleCommand> = VecDeque::new();
        let n: usize = self.commands.len();
        let mut i: usize = 0;
        while i < n
            invariant
                n == self.commands.len(),
                i <= n,
                command_views(commands@) == command_views(self.commands@).take(i as int),
            decreases n - i,
        {
            let command = self.commands[i].clone();
            assert(command_views(self.commands@).take(i + 1) =~= command_views(
                self.commands@,
            ).take(i as int).push(command@));
            commands.push_back(command);
            i += 1;
        }
        assert(command_views(commands@) =~= command_views(self.commands@));
        Pipeline { commands, should_wait: self.should_wait }
    }
}

impl PartialEq for Pipeline {
    /// Whether both pipelines hold the same commands and the same wait flag.
    fn eq(&self, other: &Pipeline) -> (same: bool) {
        if self.commands.len() != other.commands.len() || self.should_wait != other.should_wait {
            assert(self@ != other@) by {
                if self.commands@.len() != other.commands@.len() {
                    assert(self@.commands.len() != other@.commands.len());
                }
            }
            return false;
        }
        let n: usize = self.commands.len();
        let mut i: usize = 0;
        while i < n
            invariant
                n == self.commands.len(),
                n == other.commands.len(),
                i <= n,
                forall|k: int| 0 <= k < i ==> self.commands@[k]@ == other.commands@[k]@,
            decreases n - i,
        {
            if !(self.commands[i] == other.commands[i]) {
                assert(self@.commands[i as int] != other@.commands[i as int]);
                return false;
            }
            i += 1;
        }
        assert(self@.commands =~= other@.commands);
        true
    }
}

impl Eq for Pipeline {

}

impl PartialEqSpecImpl for Pipeline {
    open spec fn obeys_eq_spec() -> bool {
        true
    }

    open spec fn eq_spec(&self, other: &Pipeline) -> bool {
        self@ == other@
    }
}

impl Pipeline {
    /// A pipeline without commands, which the shell waits for.
    pub fn new() -> (pipeline: Pipeline)
        ensures
            pipeline@ == PipelineView::empty(),
    {
        let pipeline = Pipeline { commands: VecDeque::new(), should_wait: true };
        assert(command_views(pipeline.commands@) =~= Seq::empty());
        pipeline
    }

    /// Appends `command` as the last of the chain.
    pub fn push_back(&mut self, command: SimpleCommand)
        ensures
            final(self)@ == old(self)@.with_command(command@),
    {
        assert(command_views(self.commands@.push(command)) =~= command_views(self.commands@).push(
            command@,
        ));
        self.commands.push_back(command);
    }

    /// Removes the first command and returns it; `None`, and no change, where
    /// there is no command.
    pub fn pop_front(&mut self) -> (front: Option<SimpleCommand>)
        ensures
            match front {
                Some(command) => {
                    &&& old(self)@.commands.len() > 0
                    &&& command@ == old(self)@.commands[0]
                    &&& final(self)@ == old(self)@.without_front()
                },
                None => {
                    &&& old(self)@.commands.len() == 0
                    &&& final(self)@ == old(self)@
                },
            },
    {
        assert(self.commands@.len() > 0 ==> command_views(
            self.commands@.subrange(1, self.commands@.len() as int),
        ) =~= command_views(self.commands@).drop_first());
        self.commands.pop_front()
    }

    /// The first command.
    pub fn front(&self) -> (front: Option<&SimpleCommand>)
        ensures
            match front {
                Some(command) => self@.commands.len() > 0 && command@ == self@.commands[0],
                None => self@.commands.len() == 0,
            },
    {
        if self.commands.len() == 0 {
            None
        } else {
            Some(&self.commands[0])
        }
    }

    /// Whether there is no command.
    pub fn is_empty(&self) -> (empty: bool)
        ensures
            empty == (self@.commands.len() == 0),
    {
        self.commands.len() == 0
    }

    /// The number of commands.
    pub fn length(&self) -> (n: usize)
        ensures
            n == self@.commands.len(),
    {
        self.commands.len()
    }

    /// Sets whether the shell waits for the pipeline to end.
    pub fn set_wait(&mut self, wait: bool)
        ensures
            final(self)@ == old(self)@.with_wait(wait),
    {
        self.should_wait = wait;
    }

    /// Whether the shell waits for the pipeline to end.
    pub fn get_wait(&self) -> (wait: bool)
        ensures
            wait == self@.wait,
    {
        self.should_wait
    }

    /// The text of this pipeline.
    pub fn to_string(&self) -> (text: String)
        ensures
            text@ == render_pipeline(self@),
    {
        let mut text = String::new();
        proof {
            reveal_strlit(" | ");
            reveal_strlit(" &");
        }
        let ghost sep = seq![' ', pipe_mark(), ' '];
        let ghost all = render_commands(self@.commands);
        let n: usize = self.commands.len();
        let mut i: usize = 0;
        while i < n
            invariant
                n == self.commands.len(),
                i <= n,
                " | "@ == sep,
                all == render_commands(self@.commands),
                text@ == join(all.take(i as int), sep),
            decreases n - i,
        {
            let piece = self.commands[i].to_string();
            proof {
                lemma_join_push(all.take(i as int), piece@, sep);
                assert(all.take(i + 1) =~= all.take(i as int).push(piece@));
            }
            push_joined(&mut text, piece.as_str(), " | ", i == 0);
            i += 1;
        }
        assert(all.take(n as int) =~= all);
        if !self.should_wait {
            text.append(" &");
        }
        text
    }

    /// Appends the command of the segment of `chars` from `lo` up to `hi`, if
    /// the segment has one.
    fn push_segment(&mut self, input: &str, chars: &Vec<char>, lo: usize, hi: usize)
        requires
            chars@ == input@,
            lo <= hi <= chars.len(),
        ensures
            final(self)@ == old(self)@.with_commands(
                old(self)@.commands + parse_segments(seq![chars@.subrange(lo as int, hi as int)]),
            ),
    {
        let ghost segment = chars@.subrange(lo as int, hi as int);
        proof {
            lemma_parse_segments_one(segment);
        }
        let (a, b) = trim_bounds(chars, lo, hi);
        if a < b {
            let command = SimpleCommand::parse(input.substring_char(a, b));
            assert(self@.commands + seq![command@] =~= self@.commands.push(command@));
            self.push_back(command);
        }
    }

    /// Reads one line of input.
    pub fn parse(input: &str) -> (pipeline: Pipeline)
        ensures
            pipeline@ == parse_line(input@),
    {
        let chars = chars_of(input);
        let (lo, hi) = trim_bounds(&chars, 0, chars.len());
        assert(chars@.subrange(0, chars@.len() as int) =~= chars@);
        let mut pipeline = Pipeline::new();
        let mut end: usize = hi;
        if lo < hi && chars[hi - 1] == '&' {
            pipeline.should_wait = false;
            end = hi - 1;
            assert(chars@.subrange(lo as int, hi as int).drop_last() =~= chars@.subrange(
                lo as int,
                end as int,
            ));
        }
        let ghost body = chars@.subrange(lo as int, end as int);
        let ghost wait = pipeline@.wait;
        let ghost all = parse_segments(split(body, pipe_mark()));
        let mut start: usize = lo;
        let mut i: usize = lo;
        while i < end
            invariant
                chars@ == input@,
                lo <= start <= i <= end <= chars.len(),
                forall|k: int| start <= k < i ==> #[trigger] chars@[k] != pipe_mark(),
                pipeline@.wait == wait,
                all == pipeline@.commands + parse_segments(
                    split(chars@.subrange(start as int, end as int), pipe_mark()),
                ),
            decreases end - i,
        {
            if chars[i] == '|' {
                proof {
                    let rest = chars@.subrange(start as int, end as int);
                    assert(rest.take(i - start) =~= chars@.subrange(start as int, i as int));
                    assert(rest.skip(i - start + 1) =~= chars@.subrange(i + 1, end as int));
                    lemma_parse_segments_step(rest, i - start);
                }
                pipeline.push_segment(input, &chars, start, i);
                start = i + 1;
            }
            i += 1;
        }
        proof {
            lemma_parse_segments_last(chars@.subrange(start as int, end as int));
        }
        pipeline.push_segment(input, &chars, start, end);
        pipeline
    }

    /// Plans the run of this pipeline: takes its commands out, from the first
    /// to the last, and returns what each of them comes to, in the same order.
    /// A pipeline without commands gives no action, so that nothing is started
    /// for it. The caller performs the actions one after the other and gives
    /// up the rest at the first that fails.
    pub fn execute(&mut self) -> (actions: Vec<Action>)
        ensures
            action_views(actions@) == plan(old(self)@),
            actions@.len() == old(self)@.commands.len(),
            old(self)@.commands.len() == 0 ==> actions@.len() == 0,
            final(self)@ == old(self)@.with_commands(Seq::empty()),
    {
        let ghost all = self@;
        let mut actions: Vec<Action> = Vec::new();
        let mut previous_child = false;
        while !self.is_empty()
            invariant
                self@.wait == all.wait,
                actions@.len() + self@.commands.len() == all.commands.len(),
                self@.commands == all.commands.skip(actions@.len() as int),
                action_views(actions@) == plan(all).take(actions@.len() as int),
                previous_child == (actions@.len() > 0 && spawns(
                    all.commands[actions@.len() - 1],
                )),
            decreases self@.commands.len(),
        {
            let mut command = self.pop_front().unwrap();
            let out_piped = !self.is_empty();
            let action = command.execute(previous_child, out_piped, self.should_wait && !out_piped);
            previous_child = match action {
                Action::Spawn(_) => true,
                _ => false,
            };
            actions.push(action);
        }
        assert(self@.commands =~= Seq::empty());
        actions
    }
}

} // verus!
