use codecrafters_shell::lexer::{is_blank, run_lexer, Lexer, TokenType};
use codecrafters_shell::ShellError;

fn origins(line: &str) -> Vec<String> {
    run_lexer(line).unwrap().into_iter().map(|t| t.origin).collect()
}

#[test]
fn lexes_words_and_quotes() {
    let toks = run_lexer("echo 'a  b'   \"c d\"").unwrap();
    assert_eq!(toks.len(), 3);
    assert_eq!(toks[0].origin, "echo");
    assert_eq!(toks[0].token_type, TokenType::Word);
    assert_eq!(toks[1].origin, "a  b");
    assert_eq!(toks[1].token_type, TokenType::Word);
    assert_eq!(toks[2].origin, "c d");
    assert_eq!(toks[2].token_type, TokenType::DoubleQuote);
    assert!(!toks[1].is_adjacent);
}

#[test]
fn adjacency_glues_quoted_pieces() {
    let toks = run_lexer("a\"b\"\\c d").unwrap();
    assert_eq!(origins("a\"b\"\\c d"), vec!["a", "b", "c", "d"]);
    assert!(toks[0].is_adjacent);
    assert!(toks[1].is_adjacent);
    assert_eq!(toks[2].token_type, TokenType::Escaped);
    assert!(!toks[2].is_adjacent);
}

#[test]
fn redirect_and_pipe_tokens() {
    let toks = run_lexer("echo x 2>>err | wc >out").unwrap();
    let kinds: Vec<TokenType> = toks.iter().map(|t| t.token_type).collect();
    assert_eq!(
        kinds,
        vec![
            TokenType::Word,
            TokenType::Word,
            TokenType::Redirects,
            TokenType::Word,
            TokenType::Pipe,
            TokenType::Word,
            TokenType::Redirects,
            TokenType::Word,
        ]
    );
    assert_eq!(toks[2].origin, "2>>");
    assert_eq!(toks[4].origin, "|");
    assert!(!toks[1].is_adjacent);
}

#[test]
fn double_quote_keeps_escapes_raw() {
    let toks = run_lexer("\"a\\\"b\"").unwrap();
    assert_eq!(toks.len(), 1);
    assert_eq!(toks[0].origin, "a\\\"b");
}

#[test]
fn missing_quote_is_an_error() {
    assert_eq!(run_lexer("echo 'abc").unwrap_err(), ShellError::MissingQuote);
    assert_eq!(run_lexer("echo \"abc").unwrap_err(), ShellError::MissingQuote);
}

#[test]
fn long_redirect_run_is_a_parsing_error() {
    assert_eq!(run_lexer("echo a >>> f").unwrap_err(), ShellError::Parsing);
}

#[test]
fn spans_rebuild_line_without_gaps() {
    let line = "  echo  'a b'\"c\"  > out |  wc ";
    let chars: Vec<char> = line.chars().collect();
    let toks = run_lexer(line).unwrap();
    let mut rebuilt = String::new();
    let mut covered = vec![false; chars.len()];
    let mut last_end = 0;
    for t in &toks {
        assert!(last_end <= t.start && t.start < t.end);
        last_end = t.end;
        for i in t.start..t.end {
            covered[i] = true;
            rebuilt.push(chars[i]);
        }
    }
    for (i, c) in chars.iter().enumerate() {
        if !covered[i] {
            assert!(c.is_whitespace());
        }
    }
    let expected: String = "echo'a b'\"c\">out|wc".to_string();
    assert_eq!(rebuilt, expected);
}

#[test]
fn lexer_hands_out_tokens_one_by_one() {
    let mut lexer = Lexer::new("ls  -l");
    let first = lexer.next().unwrap().unwrap();
    assert_eq!(first.origin, "ls");
    let second = lexer.next().unwrap().unwrap();
    assert_eq!(second.origin, "-l");
    assert!(lexer.next().is_none());
}

#[test]
fn blank_lines_have_no_tokens() {
    assert!(is_blank(" \t "));
    assert!(is_blank(""));
    assert!(!is_blank("  x"));
    assert!(run_lexer(" \t ").unwrap().is_empty());
}

#[test]
fn trailing_backslash_is_kept() {
    let toks = run_lexer("a \\").unwrap();
    assert_eq!(toks[1].origin, "\\");
    assert_eq!(toks[1].token_type, TokenType::Word);
    assert_eq!((toks[1].start, toks[1].end), (2, 3));
}

#[test]
fn next_reports_bad_redirect_at_cursor() {
    let mut lexer = Lexer::new("a >>> 'x");
    assert_eq!(lexer.next().unwrap().unwrap().origin, "a");
    assert_eq!(lexer.next().unwrap().unwrap_err(), ShellError::Parsing);
    let mut lexer = Lexer::new("> 'x");
    let t = lexer.next().unwrap().unwrap();
    assert_eq!(t.origin, ">");
    assert_eq!(t.token_type, TokenType::Redirects);
    assert!(!t.is_adjacent);
    assert_eq!(lexer.next().unwrap().unwrap_err(), ShellError::MissingQuote);
}
