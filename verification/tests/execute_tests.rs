use shell_pipeline::action::{Action, Builtin, Launch, Stream};
use shell_pipeline::command::SimpleCommand;
use shell_pipeline::pipeline::Pipeline;

fn launch(program: &str, arguments: &[&str], stdin: Stream, stdout: Stream, wait: bool) -> Action {
    Action::Spawn(Launch {
        program: program.to_string(),
        arguments: arguments.iter().map(|a| a.to_string()).collect(),
        stdin,
        stdout,
        wait,
    })
}

fn file(path: &str) -> Stream {
    Stream::File(path.to_string())
}

#[test]
fn plan_of_three_stages() {
    let mut pipeline = Pipeline::parse("echo hola | grep hola | grep hola");
    let actions = pipeline.execute();
    assert_eq!(
        actions,
        vec![
            launch("echo", &["hola"], Stream::Inherit, Stream::Pipe, false),
            launch("grep", &["hola"], Stream::Pipe, Stream::Pipe, false),
            launch("grep", &["hola"], Stream::Pipe, Stream::Inherit, true),
        ]
    );
}

#[test]
fn plan_of_nothing() {
    let mut pipeline = Pipeline::new();
    assert_eq!(pipeline.execute(), vec![]);
    let mut blank = Pipeline::parse("   ");
    assert_eq!(blank.execute(), vec![]);
    let mut background = Pipeline::parse("&");
    assert_eq!(background.execute(), vec![]);
    assert!(!background.get_wait());
}

#[test]
fn plan_drains_the_pipeline() {
    let mut pipeline = Pipeline::parse("a | b &");
    assert_eq!(pipeline.execute().len(), 2);
    assert!(pipeline.is_empty());
    assert!(!pipeline.get_wait());
    assert_eq!(pipeline.execute(), vec![]);
}

#[test]
fn plan_in_the_background_waits_for_nothing() {
    let mut pipeline = Pipeline::parse("a | b &");
    assert_eq!(
        pipeline.execute(),
        vec![
            launch("a", &[], Stream::Inherit, Stream::Pipe, false),
            launch("b", &[], Stream::Pipe, Stream::Inherit, false),
        ]
    );
}

#[test]
fn plan_honours_redirections_at_the_ends() {
    let mut pipeline = Pipeline::parse("sort < in.txt > mid.txt | uniq < other.txt > out.txt");
    assert_eq!(
        pipeline.execute(),
        vec![
            launch("sort", &[], file("in.txt"), Stream::Pipe, false),
            launch("uniq", &[], Stream::Pipe, file("out.txt"), true),
        ]
    );
}

#[test]
fn plan_of_one_command_with_both_redirections() {
    let mut pipeline = Pipeline::parse("grep foo < in.txt > out.txt");
    assert_eq!(
        pipeline.execute(),
        vec![launch("grep", &["foo"], file("in.txt"), file("out.txt"), true)]
    );
}

#[test]
fn plan_keeps_builtins_out_of_the_piping() {
    let mut pipeline = Pipeline::parse("ls | cd sub | cat < notes.txt");
    assert_eq!(
        pipeline.execute(),
        vec![
            launch("ls", &[], Stream::Inherit, Stream::Pipe, false),
            Action::ChangeDirectory(Some("sub".to_string())),
            launch("cat", &[], file("notes.txt"), Stream::Inherit, true),
        ]
    );
}

#[test]
fn plan_of_change_directory() {
    let mut valid = Pipeline::parse("cd /tmp");
    assert_eq!(valid.execute(), vec![Action::ChangeDirectory(Some("/tmp".to_string()))]);
    let mut bare = Pipeline::parse("cd");
    assert_eq!(bare.execute(), vec![Action::ChangeDirectory(None)]);
    let mut many = Pipeline::parse("cd a b > c");
    assert_eq!(many.execute(), vec![Action::ChangeDirectory(Some("a".to_string()))]);
}

#[test]
fn plan_of_exit() {
    let mut pipeline = Pipeline::parse("exit");
    assert_eq!(pipeline.execute(), vec![Action::Exit]);
    let mut chained = Pipeline::parse("exit 3 | ls");
    assert_eq!(
        chained.execute(),
        vec![Action::Exit, launch("ls", &[], Stream::Inherit, Stream::Inherit, true)]
    );
}

#[test]
fn plan_skips_a_command_without_words() {
    let mut pipeline = Pipeline::new();
    pipeline.push_back(SimpleCommand::parse("a"));
    pipeline.push_back(SimpleCommand::new());
    pipeline.push_back(SimpleCommand::parse("b"));
    assert_eq!(
        pipeline.execute(),
        vec![
            launch("a", &[], Stream::Inherit, Stream::Pipe, false),
            Action::Skip,
            launch("b", &[], Stream::Inherit, Stream::Inherit, true),
        ]
    );
}

#[test]
fn plan_of_last_builtin_waits_for_nothing() {
    let mut pipeline = Pipeline::parse("ls | cd");
    assert_eq!(
        pipeline.execute(),
        vec![
            launch("ls", &[], Stream::Inherit, Stream::Pipe, false),
            Action::ChangeDirectory(None),
        ]
    );
}

#[test]
fn builtin_is_told_apart() {
    assert_eq!(SimpleCommand::parse("cd /tmp").handle_builtins(), Some(Builtin::ChangeDirectory));
    assert_eq!(SimpleCommand::parse("cd").handle_builtins(), Some(Builtin::ChangeDirectory));
    assert_eq!(SimpleCommand::parse("exit").handle_builtins(), Some(Builtin::Exit));
    assert_eq!(SimpleCommand::parse("exit 1").handle_builtins(), Some(Builtin::Exit));
    assert_eq!(SimpleCommand::parse("ls").handle_builtins(), None);
    assert_eq!(SimpleCommand::parse("cdx").handle_builtins(), None);
    assert_eq!(SimpleCommand::parse("c").handle_builtins(), None);
    assert_eq!(SimpleCommand::parse("ls cd").handle_builtins(), None);
    assert_eq!(SimpleCommand::parse("EXIT").handle_builtins(), None);
    assert_eq!(SimpleCommand::new().handle_builtins(), None);
}

#[test]
fn execute_prefers_the_pipe_to_the_file() {
    let mut command = SimpleCommand::parse("sort -r < in.txt > out.txt");
    assert_eq!(
        command.execute(true, true, false),
        launch("sort", &["-r"], Stream::Pipe, Stream::Pipe, false)
    );
    let mut command = SimpleCommand::parse("sort -r < in.txt > out.txt");
    assert_eq!(
        command.execute(false, false, true),
        launch("sort", &["-r"], file("in.txt"), file("out.txt"), true)
    );
    let mut command = SimpleCommand::parse("sort -r");
    assert_eq!(
        command.execute(false, false, true),
        launch("sort", &["-r"], Stream::Inherit, Stream::Inherit, true)
    );
    let mut command = SimpleCommand::parse("sort < in.txt");
    assert_eq!(
        command.execute(true, false, false),
        launch("sort", &[], Stream::Pipe, Stream::Inherit, false)
    );
}

#[test]
fn execute_leaves_the_command_empty() {
    let mut command = SimpleCommand::parse("sort -r < in.txt > out.txt");
    command.execute(false, false, true);
    assert_eq!(command, SimpleCommand::new());
    assert_eq!(command.execute(false, false, true), Action::Skip);
    let mut directive = SimpleCommand::parse("cd somewhere > out.txt");
    assert_eq!(
        directive.execute(true, true, true),
        Action::ChangeDirectory(Some("somewhere".to_string()))
    );
    assert_eq!(directive, SimpleCommand::new());
}

#[test]
fn execute_of_a_command_with_paths_only_is_skipped() {
    let mut command = SimpleCommand::parse("< in.txt > out.txt");
    assert!(command.is_empty());
    assert_eq!(command.execute(false, false, true), Action::Skip);
}

#[test]
fn change_directory_then_relative_path() {
    let mut first = Pipeline::parse("cd work");
    assert_eq!(first.execute(), vec![Action::ChangeDirectory(Some("work".to_string()))]);
    let mut second = Pipeline::parse("cat < notes/today.txt");
    assert_eq!(
        second.execute(),
        vec![launch("cat", &[], file("notes/today.txt"), Stream::Inherit, true)]
    );
}
