use codecrafters_shell::completion::common_prefix_ascii;
use codecrafters_shell::{AutoCompleter, EditAction, EditKey, Shell, ShellCtx};

fn type_text(shell: &mut Shell, ctx: &mut ShellCtx, text: &str) {
    for c in text.chars() {
        shell.handle_key(EditKey::Char(c), &Vec::new(), ctx);
    }
}

#[test]
fn completion_is_sorted_and_unique() {
    let execs = vec!["echoer".to_string(), "ls".to_string(), "echoer".to_string()];
    let c = AutoCompleter.complete("ec", &execs);
    assert_eq!(c, vec!["echo", "echoer"]);
    assert_eq!(common_prefix_ascii(&c), "echo");
    assert!(AutoCompleter.complete("zz", &execs).is_empty());
}

#[test]
fn common_prefix_of_names() {
    let v = vec!["abcd".to_string(), "abxy".to_string(), "abc".to_string()];
    assert_eq!(common_prefix_ascii(&v), "ab");
    assert_eq!(common_prefix_ascii(&Vec::new()), "");
}

#[test]
fn typing_and_moving() {
    let mut ctx = ShellCtx::build(None, "");
    let mut shell = Shell::new();
    type_text(&mut shell, &mut ctx, "ac");
    shell.handle_key(EditKey::Left, &Vec::new(), &mut ctx);
    shell.handle_key(EditKey::Char('b'), &Vec::new(), &mut ctx);
    assert_eq!(shell.current_buffer(), "abc");
    shell.handle_key(EditKey::Home, &Vec::new(), &mut ctx);
    shell.handle_key(EditKey::Delete, &Vec::new(), &mut ctx);
    shell.handle_key(EditKey::End, &Vec::new(), &mut ctx);
    shell.handle_key(EditKey::Backspace, &Vec::new(), &mut ctx);
    assert_eq!(shell.current_buffer(), "b");
    match shell.handle_key(EditKey::Char('\r'), &Vec::new(), &mut ctx) {
        EditAction::Submit(line) => assert_eq!(line, "b"),
        other => panic!("unexpected {:?}", other),
    }
    assert_eq!(shell.current_buffer(), "");
}

#[test]
fn redraw_puts_cursor_after_prompt() {
    let mut ctx = ShellCtx::build(None, "");
    let mut shell = Shell::new();
    type_text(&mut shell, &mut ctx, "ab");
    assert_eq!(shell.redraw("$ "), "\r$ ab\x1b[J\r\x1b[4C");
}

#[test]
fn tab_with_one_candidate_completes_with_space() {
    let mut ctx = ShellCtx::build(None, "");
    let mut shell = Shell::new();
    type_text(&mut shell, &mut ctx, "ech");
    let cands = AutoCompleter.complete("ech", &Vec::new());
    assert!(matches!(shell.handle_key(EditKey::Char('\t'), &cands, &mut ctx), EditAction::Redraw));
    assert_eq!(shell.current_buffer(), "echo ");
}

#[test]
fn tab_extends_to_common_prefix_then_lists() {
    let mut ctx = ShellCtx::build(None, "");
    let mut shell = Shell::new();
    type_text(&mut shell, &mut ctx, "xy");
    let cands = vec!["xyz_a".to_string(), "xyz_b".to_string()];
    assert!(matches!(shell.handle_key(EditKey::Char('\t'), &cands, &mut ctx), EditAction::Redraw));
    assert_eq!(shell.current_buffer(), "xyz_");
    match shell.handle_key(EditKey::Char('\t'), &cands, &mut ctx) {
        EditAction::ShowCandidates(s) => assert_eq!(s, "xyz_a  xyz_b"),
        other => panic!("unexpected {:?}", other),
    }
}

#[test]
fn tab_without_matches_rings_bell() {
    let mut ctx = ShellCtx::build(None, "");
    let mut shell = Shell::new();
    type_text(&mut shell, &mut ctx, "zzq");
    assert!(matches!(shell.handle_key(EditKey::Char('\t'), &Vec::new(), &mut ctx), EditAction::Bell));
    assert_eq!(shell.current_buffer(), "zzq");
}

#[test]
fn history_recall_up_and_down() {
    let mut ctx = ShellCtx::build(None, "");
    ctx.handle_history("first");
    ctx.handle_history("second");
    let mut shell = Shell::new();
    type_text(&mut shell, &mut ctx, "draft");
    shell.handle_key(EditKey::Up, &Vec::new(), &mut ctx);
    assert_eq!(shell.current_buffer(), "second");
    shell.handle_key(EditKey::Up, &Vec::new(), &mut ctx);
    assert_eq!(shell.current_buffer(), "first");
    assert!(matches!(shell.handle_key(EditKey::Up, &Vec::new(), &mut ctx), EditAction::Nothing));
    shell.handle_key(EditKey::Down, &Vec::new(), &mut ctx);
    assert_eq!(shell.current_buffer(), "second");
    shell.handle_key(EditKey::Down, &Vec::new(), &mut ctx);
    assert_eq!(shell.current_buffer(), "draft");
}

#[test]
fn ctrl_keys() {
    let mut ctx = ShellCtx::build(None, "");
    let mut shell = Shell::new();
    assert!(matches!(shell.handle_key(EditKey::Ctrl('d'), &Vec::new(), &mut ctx), EditAction::EndOfInput));
    type_text(&mut shell, &mut ctx, "abc");
    assert!(matches!(shell.handle_key(EditKey::Ctrl('c'), &Vec::new(), &mut ctx), EditAction::Cancel));
    assert_eq!(shell.current_buffer(), "");
}
