use codecrafters_shell::executor::{handle_builtin_redirection, BuiltinOutput, PipelineRun};
use codecrafters_shell::lexer::run_lexer;
use codecrafters_shell::parser::parse;
use codecrafters_shell::{Commands, Describe, Echo};

/// Runs a one-stage line whose command is `echo` or `type`.
fn run_builtin_line(line: &str) -> BuiltinOutput {
    let stages = parse(&run_lexer(line).unwrap()).unwrap();
    assert_eq!(stages.len(), 1);
    let stage = &stages[0];
    let result = match &stage.cmd {
        Commands::Echo(_) => Ok(Echo.execute(&stage.args)),
        Commands::Type(_) => Ok(Describe.execute(&stage.args, &None)),
        Commands::External(e) => Err(e.not_found()),
        other => panic!("unexpected {:?}", other),
    };
    handle_builtin_redirection(&stage.redirects, &result)
}

#[test]
fn scenario_echo_hello_world() {
    let out = run_builtin_line("echo hello world");
    assert_eq!(out.stdout, Some("hello world\n".to_string()));
}

#[test]
fn scenario_echo_quotes() {
    let out = run_builtin_line("echo 'a  b'   \"c d\"");
    assert_eq!(out.stdout, Some("a  b c d\n".to_string()));
}

#[test]
fn scenario_echo_into_file() {
    let out = run_builtin_line("echo foo > /tmp/x");
    assert_eq!(out.stdout, None);
    assert_eq!(out.files.len(), 1);
    assert_eq!(out.files[0].path, "/tmp/x");
    assert_eq!(out.files[0].content, "foo\n");
}

#[test]
fn scenario_type_echo() {
    let out = run_builtin_line("type echo");
    assert_eq!(out.stdout, Some("echo is a shell builtin\n".to_string()));
}

#[test]
fn scenario_unknown_command_goes_to_stderr() {
    let out = run_builtin_line("nosuch");
    assert_eq!(out.stdout, None);
    assert_eq!(out.stderr, Some("nosuch: command not found\n".to_string()));
}

#[test]
fn scenario_echo_without_arguments_prints_newline() {
    let out = run_builtin_line("echo");
    assert_eq!(out.stdout, Some("\n".to_string()));
}

#[test]
fn scenario_builtin_output_feeds_next_stage() {
    let stages = parse(&run_lexer("echo one | echo two | wc -l").unwrap()).unwrap();
    let mut run = PipelineRun::new(stages.len());
    for stage in stages.iter().take(2) {
        let text = Echo.execute(&stage.args);
        let out = handle_builtin_redirection(&stage.redirects, &Ok(text));
        run.builtin_ran(out.stdout);
    }
    match run.input() {
        codecrafters_shell::executor::StageInput::Bytes(b) => assert_eq!(b, "two\n"),
        other => panic!("unexpected {:?}", other),
    }
    assert!(run.is_last());
}
