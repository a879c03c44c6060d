use codecrafters_shell::ShellCtx;

#[test]
fn accepted_line_is_newest() {
    let mut ctx = ShellCtx::build(Some("h".to_string()), "a\nb\n");
    ctx.handle_history("history -r f");
    ctx.set_read_history("f", "x\ny\n");
    let entries = ctx.get_history();
    assert_eq!(entries, &vec!["x", "y", "a", "b", "history -r f"]);
    assert_eq!(entries.last().unwrap(), "history -r f");
}

#[test]
fn build_loads_lines() {
    let ctx = ShellCtx::build(Some("h".to_string()), "ls\n\npwd");
    assert_eq!(ctx.get_history(), &vec!["ls", "", "pwd"]);
    let ctx = ShellCtx::build(None, "ignored\n");
    assert!(ctx.get_history().is_empty());
}

#[test]
fn write_then_load_round_trip() {
    let mut ctx = ShellCtx::build(None, "");
    ctx.handle_history("echo a");
    ctx.handle_history("ls -l");
    let flush = ctx.set_write_history("P");
    assert_eq!(flush.path, "P");
    assert!(!flush.append);
    assert_eq!(flush.text, "echo a\nls -l\n");
    ctx.set_breakpoint(flush.persisted);
    let fresh = ShellCtx::build(Some("P".to_string()), &flush.text);
    assert_eq!(fresh.get_history(), ctx.get_history());
}

#[test]
fn append_writes_only_unsaved() {
    let mut ctx = ShellCtx::build(Some("h".to_string()), "old\n");
    ctx.handle_history("new");
    let flush = ctx.set_append_history("A");
    assert!(flush.append);
    assert_eq!(flush.text, "new\n");
    assert_eq!(flush.persisted, 2);
    ctx.set_breakpoint(flush.persisted);
    let end = ctx.shut_down().unwrap();
    assert_eq!(end.path, "A");
    assert_eq!(end.text, "");
}

#[test]
fn shut_down_without_file_writes_nothing() {
    let mut ctx = ShellCtx::build(None, "");
    ctx.handle_history("ls");
    assert!(ctx.shut_down().is_none());
}

#[test]
fn recall_walks_back_then_returns_saved_line() {
    let mut ctx = ShellCtx::build(None, "");
    ctx.handle_history("one");
    ctx.handle_history("two");
    assert_eq!(ctx.get_history_entry(1, "typing".to_string()), "two");
    assert_eq!(ctx.get_history_entry(2, "two".to_string()), "one");
    assert_eq!(ctx.get_history_entry(3, "one".to_string()), "typing");
}
