use codecrafters_shell::executor::{handle_builtin_redirection, plan_stage, PipelineRun, Sink};
use codecrafters_shell::external::{is_executable, resolve};
use codecrafters_shell::{Commands, External, Redirect, Redirection, ShellError};

#[test]
fn echo_to_terminal_without_redirects() {
    let out = handle_builtin_redirection(&Vec::new(), &Ok(Some("hello world".to_string())));
    assert_eq!(out.stdout, Some("hello world\n".to_string()));
    assert!(out.files.is_empty());
    assert_eq!(out.stderr, None);
}

#[test]
fn stdout_redirect_takes_all_text() {
    let reds = vec![Redirection::new(Redirect::StdOut(false), "/tmp/x")];
    let out = handle_builtin_redirection(&reds, &Ok(Some("foo".to_string())));
    assert_eq!(out.stdout, None);
    assert_eq!(out.files.len(), 1);
    assert_eq!(out.files[0].path, "/tmp/x");
    assert_eq!(out.files[0].content, "foo\n");
    assert!(!out.files[0].append);
}

#[test]
fn only_last_redirect_per_stream_gets_bytes() {
    let reds = vec![
        Redirection::new(Redirect::StdOut(false), "a"),
        Redirection::new(Redirect::StdErr(true), "e"),
        Redirection::new(Redirect::StdOut(true), "b"),
    ];
    let out = handle_builtin_redirection(&reds, &Ok(Some("t".to_string())));
    assert_eq!(out.files[0].content, "");
    assert_eq!(out.files[1].content, "");
    assert_eq!(out.files[2].content, "t\n");
    assert!(out.files[2].append);
    let err = handle_builtin_redirection(&reds, &Err(ShellError::Execution("bad".to_string())));
    assert_eq!(err.files[1].content, "bad\n");
    assert_eq!(err.stderr, None);
}

#[test]
fn stderr_redirect_keeps_text_on_terminal() {
    let reds = vec![Redirection::new(Redirect::StdErr(false), "e")];
    let out = handle_builtin_redirection(&reds, &Ok(Some("shown".to_string())));
    assert_eq!(out.stdout, Some("shown\n".to_string()));
    assert_eq!(out.files[0].content, "");
}

#[test]
fn stage_streams() {
    let reds = vec![Redirection::new(Redirect::StdOut(false), "f")];
    let plan = plan_stage(&reds, false);
    assert_eq!(plan.stdout, Sink::File(0));
    assert_eq!(plan.stderr, Sink::Terminal);
    assert_eq!(plan_stage(&Vec::new(), false).stdout, Sink::NextStage);
    assert_eq!(plan_stage(&Vec::new(), true).stdout, Sink::Terminal);
}

#[test]
fn every_stage_counted_and_reaped() {
    let mut run = PipelineRun::new(3);
    assert_eq!(run.current(), Some(0));
    run.builtin_ran(Some("one\n".to_string()));
    run.spawned(true);
    assert!(run.is_last());
    run.spawned(false);
    assert_eq!(run.current(), None);
    assert_eq!(run.unreaped(), 2);
    assert!(!run.finished());
    run.reaped();
    run.reaped();
    assert!(run.finished());
}

#[test]
fn unknown_command_message() {
    let e = External::new("nosuch".to_string());
    assert_eq!(e.not_found().message(), "nosuch: command not found");
    assert!(matches!(Commands::from_cmd("nosuch"), Commands::External(_)));
}

#[test]
fn path_candidates_and_resolution() {
    let e = External::new("ls".to_string());
    let dirs = vec!["/usr/bin".to_string(), "/bin/".to_string(), "".to_string()];
    let c = e.candidates(&dirs);
    assert_eq!(c, vec!["/usr/bin/ls", "/bin/ls", "ls"]);
    assert_eq!(resolve(&c, &vec![None, Some(0o644), Some(0o755)]), Some("ls".to_string()));
    assert_eq!(resolve(&c, &vec![Some(0o100), Some(0o755), None]), Some("/usr/bin/ls".to_string()));
    assert_eq!(resolve(&c, &vec![None, None, Some(0o600)]), None);
    assert!(is_executable(0o001));
    assert!(!is_executable(0o666));
}
