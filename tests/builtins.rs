use codecrafters_shell::text::{parse_i32, parse_usize};
use codecrafters_shell::commands::HistoryRequest;
use codecrafters_shell::{Cd, Commands, Describe, Echo, Exit, History, Pwd, ShellCtx, ShellError};

fn strings(v: &[&str]) -> Vec<String> {
    v.iter().map(|s| s.to_string()).collect()
}

#[test]
fn echo_joins_arguments() {
    assert_eq!(Echo.execute(&strings(&["hello", "world"])), Some("hello world".to_string()));
    assert_eq!(Echo.execute(&Vec::new()), Some(String::new()));
}

#[test]
fn type_of_builtin_and_external() {
    let d = Describe.execute(&strings(&["echo"]), &None);
    assert_eq!(d, Some("echo is a shell builtin".to_string()));
    let d = Describe.execute(&strings(&["ls"]), &Some("/bin/ls".to_string()));
    assert_eq!(d, Some("ls is /bin/ls".to_string()));
    let d = Describe.execute(&strings(&["nosuch"]), &None);
    assert_eq!(d, Some("nosuch: not found".to_string()));
    assert_eq!(Describe.execute(&Vec::new(), &None), None);
}

#[test]
fn from_cmd_names_builtins() {
    assert!(matches!(Commands::from_cmd("history"), Commands::History(_)));
    assert!(matches!(Commands::from_cmd("type"), Commands::Type(_)));
    assert!(matches!(Commands::from_cmd("cat"), Commands::External(_)));
    assert_eq!(Commands::all_commands().len(), 6);
}

#[test]
fn cd_targets() {
    let home = Some("/home/u".to_string());
    assert_eq!(Cd.execute(&Vec::new(), &home), Ok("/home/u".to_string()));
    assert_eq!(Cd.execute(&strings(&["~"]), &home), Ok("/home/u".to_string()));
    assert_eq!(Cd.execute(&strings(&["~/src"]), &home), Ok("/home/u/src".to_string()));
    assert_eq!(Cd.execute(&strings(&["/tmp"]), &home), Ok("/tmp".to_string()));
    assert_eq!(
        Cd.execute(&strings(&["a", "b"]), &home),
        Err(ShellError::Execution("cd: too many arguments".to_string()))
    );
    assert_eq!(
        Cd::missing_dir("nowhere").message(),
        "cd: nowhere: No such file or directory"
    );
}

#[test]
fn pwd_rejects_arguments() {
    assert_eq!(Pwd.execute(&Vec::new(), Some("/tmp".to_string())), Ok(Some("/tmp".to_string())));
    assert_eq!(
        Pwd.execute(&strings(&["x"]), Some("/tmp".to_string())),
        Err(ShellError::Execution("pwd: too many arguments".to_string()))
    );
}

#[test]
fn exit_code_from_argument() {
    assert_eq!(Exit.execute(&Vec::new()), 0);
    assert_eq!(Exit.execute(&strings(&["3"])), 3);
    assert_eq!(Exit.execute(&strings(&["-2"])), -2);
    assert_eq!(Exit.execute(&strings(&["x"])), 0);
}

#[test]
fn history_listing_after_three_lines() {
    let mut ctx = ShellCtx::build(None, "");
    ctx.handle_history("ls");
    ctx.handle_history("pwd");
    ctx.handle_history("history");
    match History.execute(&Vec::new(), &ctx) {
        Ok(HistoryRequest::Print(t)) => {
            assert_eq!(format!("{}\n", t), "    1  ls\n    2  pwd\n    3  history\n")
        }
        other => panic!("unexpected {:?}", other),
    }
    match History.execute(&strings(&["2"]), &ctx) {
        Ok(HistoryRequest::Print(t)) => assert_eq!(t, "    2  pwd\n    3  history"),
        other => panic!("unexpected {:?}", other),
    }
}

#[test]
fn history_file_requests() {
    let ctx = ShellCtx::build(None, "");
    assert!(matches!(
        History.execute(&strings(&["-r", "f"]), &ctx),
        Ok(HistoryRequest::Read(p)) if p == "f"
    ));
    assert!(matches!(
        History.execute(&strings(&["-w", "f"]), &ctx),
        Ok(HistoryRequest::Write(p)) if p == "f"
    ));
    assert!(matches!(
        History.execute(&strings(&["-a", "f"]), &ctx),
        Ok(HistoryRequest::Append(p)) if p == "f"
    ));
    assert_eq!(History.execute(&strings(&["-w"]), &ctx).unwrap_err(), ShellError::MissingArg);
}

#[test]
fn error_messages() {
    assert_eq!(ShellError::MissingQuote.message(), "Missing endquote");
    assert_eq!(ShellError::CreateFile("f".to_string()).message(), "f: Failed to create file");
}

#[test]
fn number_reading_follows_from_str() {
    for s in ["0", "7", "+12", "007", "", "+", "-1", "1a", " 1", "18446744073709551616"] {
        assert_eq!(parse_usize(s), s.parse::<usize>().ok(), "{s:?}");
    }
    for s in ["0", "-0", "+5", "-2147483648", "2147483647", "2147483648", "-2147483649", "-", "+-1", "x"] {
        assert_eq!(parse_i32(s), s.parse::<i32>().ok(), "{s:?}");
    }
}
