use codecrafters_shell::lexer::run_lexer;
use codecrafters_shell::parser::{parse, process_escaped, ParsedInput};
use codecrafters_shell::{Commands, Redirect, ShellError};

fn parse_line(line: &str) -> Result<Vec<ParsedInput>, ShellError> {
    parse(&run_lexer(line).unwrap())
}

#[test]
fn args_fuse_across_quotes() {
    let stages = parse_line("echo a\"bc\"\\d e").unwrap();
    assert_eq!(stages.len(), 1);
    assert!(matches!(stages[0].cmd, Commands::Echo(_)));
    assert_eq!(stages[0].args, vec!["abcd".to_string(), "e".to_string()]);
}

#[test]
fn quoted_spaces_stay_in_one_argument() {
    let stages = parse_line("echo 'a  b'   \"c d\"").unwrap();
    assert_eq!(stages[0].args, vec!["a  b".to_string(), "c d".to_string()]);
}

#[test]
fn redirections_are_collected() {
    let stages = parse_line("echo foo > /tmp/x 2>> err").unwrap();
    let r = &stages[0].redirects;
    assert_eq!(r.len(), 2);
    assert_eq!(r[0].redirect, Redirect::StdOut(false));
    assert_eq!(r[0].path, "/tmp/x");
    assert_eq!(r[1].redirect, Redirect::StdErr(true));
    assert_eq!(r[1].path, "err");
    assert_eq!(stages[0].args, vec!["foo".to_string()]);
}

#[test]
fn pipeline_has_one_stage_per_command() {
    let stages = parse_line("echo one | echo two | wc -l").unwrap();
    assert_eq!(stages.len(), 3);
    assert!(matches!(stages[1].cmd, Commands::Echo(_)));
    match &stages[2].cmd {
        Commands::External(e) => assert_eq!(e.name(), "wc"),
        other => panic!("unexpected command {:?}", other),
    }
    assert_eq!(stages[2].args, vec!["-l".to_string()]);
}

#[test]
fn empty_line_has_no_stages() {
    assert_eq!(parse_line("   ").unwrap().len(), 0);
}

#[test]
fn redirect_without_path_is_missing_arg() {
    assert_eq!(parse_line("echo a >").unwrap_err(), ShellError::MissingArg);
}

#[test]
fn empty_stage_is_a_parsing_error() {
    assert_eq!(parse_line("a || b").unwrap_err(), ShellError::Parsing);
    assert_eq!(parse_line("a |").unwrap_err(), ShellError::Parsing);
}

#[test]
fn escapes_inside_double_quotes() {
    assert_eq!(process_escaped("a\\\"b\\\\c\\$d\\xe"), "a\"b\\c$d\\xe");
    assert_eq!(process_escaped("end\\"), "end\\");
}

#[test]
fn backslash_newline_vanishes_in_double_quotes() {
    assert_eq!(process_escaped("a\\\nb"), "ab");
    assert_eq!(process_escaped("\\\n"), "");
}
