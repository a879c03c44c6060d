use vstd::prelude::*;

use crate::error::ShellError;
use crate::text::{chars_of, string_of};

verus! {

/// What a token is, as far as the parser cares.
#[derive(PartialEq, Eq, Clone, Copy, Debug, Structural)]
pub enum TokenType {
    /// A bare word, the content of a single-quoted span, or a backslash that
    /// ends the line and so escapes nothing.
    Word,
    /// The raw content of a double-quoted span; escapes are still in it.
    DoubleQuote,
    /// One of `>`, `>>`, `1>`, `1>>`, `2>`, `2>>`.
    Redirects,
    /// The one character that follows a backslash outside quotes.
    Escaped,
    /// `|`.
    Pipe,
}

/// One lexeme of a command line.
///
/// `start..end` is the lexeme's span in the line, counted in characters and
/// including its quotes or backslash; `origin` is its text without them.
#[derive(Debug)]
pub struct Token {
    pub origin: String,
    pub token_type: TokenType,
    pub is_adjacent: bool,
    pub start: usize,
    pub end: usize,
}

/// The mathematical value of a [`Token`].
pub struct TokenView {
    pub origin: Seq<char>,
    pub token_type: TokenType,
    pub is_adjacent: bool,
    pub start: int,
    pub end: int,
}

impl View for Token {
    type V = TokenView;

    open spec fn view(&self) -> TokenView {
        TokenView {
            origin: self.origin@,
            token_type: self.token_type,
            is_adjacent: self.is_adjacent,
            start: self.start as int,
            end: self.end as int,
        }
    }
}

pub open spec fn tokens_view(v: Seq<Token>) -> Seq<TokenView> {
    v.map_values(|t: Token| t@)
}

pub open spec fn token_result_view(r: Result<Token, ShellError>) -> Result<TokenView, ShellError> {
    match r {
        Ok(t) => Ok(t@),
        Err(e) => Err(e),
    }
}

/// Whitespace that separates tokens.
pub open spec fn is_space(c: char) -> bool {
    c == ' ' || c == '\t' || c == '\n' || c == '\r' || c == '\x0C'
}

/// A redirection operator starts at `i`: `>`, or `1` / `2` right before `>`.
pub open spec fn is_redirect_start(s: Seq<char>, i: int) -> bool {
    0 <= i < s.len() && (s[i] == '>' || ((s[i] == '1' || s[i] == '2') && i + 1 < s.len() && s[i
        + 1] == '>'))
}

/// A pipe or a redirection operator starts at `i`.
pub open spec fn starts_operator(s: Seq<char>, i: int) -> bool {
    (0 <= i < s.len() && s[i] == '|') || is_redirect_start(s, i)
}

/// The token that ends right before `i` is glued to what follows it.
pub open spec fn is_adjacent_at(s: Seq<char>, i: int) -> bool {
    0 <= i < s.len() && !is_space(s[i]) && !starts_operator(s, i)
}

/// A character that continues a bare word.
pub open spec fn is_word_char(c: char) -> bool {
    !is_space(c) && c != '\'' && c != '"' && c != '\\' && c != '|' && c != '>'
}

/// The end of the bare word that starts at `i`.
pub open spec fn word_end(s: Seq<char>, i: int) -> int
    decreases s.len() - i,
{
    if i < 0 || i >= s.len() || !is_word_char(s[i]) {
        i
    } else {
        word_end(s, i + 1)
    }
}

/// The first position at or after `i` that does not hold `c`.
pub open spec fn run_end(s: Seq<char>, i: int, c: char) -> int
    decreases s.len() - i,
{
    if i < 0 || i >= s.len() || s[i] != c {
        i
    } else {
        run_end(s, i + 1, c)
    }
}

/// The first `'` at or after `i`, or the length of `s` if there is none.
pub open spec fn quote_end(s: Seq<char>, i: int) -> int
    decreases s.len() - i,
{
    if i < 0 || i >= s.len() {
        s.len() as int
    } else if s[i] == '\'' {
        i
    } else {
        quote_end(s, i + 1)
    }
}

/// The first `"` at or after `i` that no backslash escapes, or the length of
/// `s` if there is none.
pub open spec fn dquote_end(s: Seq<char>, i: int) -> int
    decreases s.len() - i,
{
    if i < 0 || i >= s.len() {
        s.len() as int
    } else if s[i] == '"' {
        i
    } else if s[i] == '\\' {
        if i + 1 < s.len() {
            dquote_end(s, i + 2)
        } else {
            s.len() as int
        }
    } else {
        dquote_end(s, i + 1)
    }
}

/// The first position at or after `i` that holds no whitespace, or the length
/// of `s` if there is none.
pub open spec fn skip_spaces(s: Seq<char>, i: int) -> int
    decreases s.len() - i,
{
    if i < 0 || i >= s.len() || !is_space(s[i]) {
        i
    } else {
        skip_spaces(s, i + 1)
    }
}

/// The token that starts at `i`, where `s[i]` is not whitespace.
pub open spec fn token_at(s: Seq<char>, i: int) -> Result<TokenView, ShellError> {
    let c = s[i];
    if c == '"' {
        let e = dquote_end(s, i + 1);
        if e >= s.len() {
            Err(ShellError::MissingQuote)
        } else {
            Ok(
                TokenView {
                    origin: s.subrange(i + 1, e),
                    token_type: TokenType::DoubleQuote,
                    is_adjacent: is_adjacent_at(s, e + 1),
                    start: i,
                    end: e + 1,
                },
            )
        }
    } else if c == '\'' {
        let e = quote_end(s, i + 1);
        if e >= s.len() {
            Err(ShellError::MissingQuote)
        } else {
            Ok(
                TokenView {
                    origin: s.subrange(i + 1, e),
                    token_type: TokenType::Word,
                    is_adjacent: is_adjacent_at(s, e + 1),
                    start: i,
                    end: e + 1,
                },
            )
        }
    } else if c == '\\' {
        if i + 1 < s.len() {
            Ok(
                TokenView {
                    origin: s.subrange(i + 1, i + 2),
                    token_type: TokenType::Escaped,
                    is_adjacent: is_adjacent_at(s, i + 2),
                    start: i,
                    end: i + 2,
                },
            )
        } else {
            Ok(
                TokenView {
                    origin: s.subrange(i, i + 1),
                    token_type: TokenType::Word,
                    is_adjacent: false,
                    start: i,
                    end: i + 1,
                },
            )
        }
    } else if c == '|' {
        Ok(
            TokenView {
                origin: s.subrange(i, i + 1),
                token_type: TokenType::Pipe,
                is_adjacent: false,
                start: i,
                end: i + 1,
            },
        )
    } else if is_redirect_start(s, i) {
        let p = if c == '>' {
            i
        } else {
            i + 1
        };
        let e = run_end(s, p, '>');
        if e - p > 2 {
            Err(ShellError::Parsing)
        } else {
            Ok(
                TokenView {
                    origin: s.subrange(i, e),
                    token_type: TokenType::Redirects,
                    is_adjacent: false,
                    start: i,
                    end: e,
                },
            )
        }
    } else {
        let e = word_end(s, i);
        Ok(
            TokenView {
                origin: s.subrange(i, e),
                token_type: TokenType::Word,
                is_adjacent: is_adjacent_at(s, e),
                start: i,
                end: e,
            },
        )
    }
}

/// Puts `t` in front of a lexing result; an error stays as it is.
pub open spec fn cons_token(t: TokenView, r: Result<Seq<TokenView>, ShellError>) -> Result<
    Seq<TokenView>,
    ShellError,
> {
    match r {
        Ok(ts) => Ok(seq![t] + ts),
        Err(e) => Err(e),
    }
}

/// Puts `ts` in front of a lexing result; an error stays as it is.
pub open spec fn prepend_tokens(ts: Seq<TokenView>, r: Result<Seq<TokenView>, ShellError>) -> Result<
    Seq<TokenView>,
    ShellError,
> {
    match r {
        Ok(rest) => Ok(ts + rest),
        Err(e) => Err(e),
    }
}

/// The tokens of `s` from position `i` on, or the first error met.
pub open spec fn lex_from(s: Seq<char>, i: int) -> Result<Seq<TokenView>, ShellError>
    decreases s.len() - i,
    via lex_from_decreases
{
    if i < 0 || i >= s.len() {
        Ok(Seq::empty())
    } else if is_space(s[i]) {
        lex_from(s, i + 1)
    } else {
        match token_at(s, i) {
            Err(e) => Err(e),
            Ok(t) => cons_token(t, lex_from(s, t.end)),
        }
    }
}

/// The tokens of a whole line.
pub open spec fn lex(s: Seq<char>) -> Result<Seq<TokenView>, ShellError> {
    lex_from(s, 0)
}

/// Where the gap before the `k`-th token begins: where the token before it
/// ends, or `from` for the first one.
pub open spec fn gap_start(ts: Seq<TokenView>, k: int, from: int) -> int {
    if k == 0 {
        from
    } else {
        ts[k - 1].end
    }
}

/// The spans of `ts` follow one another, in order, inside `s[from..]`, and
/// every character of `s[from..]` outside them is whitespace.
pub open spec fn spans_cover(s: Seq<char>, ts: Seq<TokenView>, from: int) -> bool {
    &&& forall|k: int|
        0 <= k < ts.len() ==> gap_start(ts, k, from) <= #[trigger] ts[k].start < ts[k].end
            <= s.len()
    &&& forall|k: int, j: int|
        0 <= k < ts.len() && gap_start(ts, k, from) <= j < #[trigger] ts[k].start ==> is_space(
            #[trigger] s[j],
        )
    &&& forall|j: int| gap_start(ts, ts.len() as int, from) <= j < s.len() ==> is_space(s[j])
}

#[via_fn]
proof fn lex_from_decreases(s: Seq<char>, i: int) {
    if i < 0 || i >= s.len() {
    } else if is_space(s[i]) {
    } else {
        lemma_token_at_bounds(s, i);
    }
}

proof fn lemma_word_end(s: Seq<char>, i: int)
    requires
        0 <= i <= s.len(),
    ensures
        i <= word_end(s, i) <= s.len(),
        forall|j: int| i <= j < word_end(s, i) ==> is_word_char(#[trigger] s[j]),
        word_end(s, i) < s.len() ==> !is_word_char(s[word_end(s, i)]),
    decreases s.len() - i,
{
    if i < s.len() && is_word_char(s[i]) {
        lemma_word_end(s, i + 1);
    }
}

proof fn lemma_run_end(s: Seq<char>, i: int, c: char)
    requires
        0 <= i <= s.len(),
    ensures
        i <= run_end(s, i, c) <= s.len(),
    decreases s.len() - i,
{
    if i < s.len() && s[i] == c {
        lemma_run_end(s, i + 1, c);
    }
}

proof fn lemma_quote_end(s: Seq<char>, i: int)
    requires
        0 <= i <= s.len(),
    ensures
        i <= quote_end(s, i) <= s.len(),
    decreases s.len() - i,
{
    if i < s.len() && s[i] != '\'' {
        lemma_quote_end(s, i + 1);
    }
}

proof fn lemma_dquote_end(s: Seq<char>, i: int)
    requires
        0 <= i <= s.len(),
    ensures
        i <= dquote_end(s, i) <= s.len(),
    decreases s.len() - i,
{
    if i < s.len() && s[i] != '"' {
        if s[i] == '\\' {
            if i + 1 < s.len() {
                lemma_dquote_end(s, i + 2);
            }
        } else {
            lemma_dquote_end(s, i + 1);
        }
    }
}

/// A token starts where it is asked for and ends inside the line, after it.
proof fn lemma_token_at_bounds(s: Seq<char>, i: int)
    requires
        0 <= i < s.len(),
        !is_space(s[i]),
    ensures
        token_at(s, i) is Ok ==> {
            let t = token_at(s, i)->Ok_0;
            t.start == i && i < t.end <= s.len()
        },
{
    let c = s[i];
    if c == '"' {
        lemma_dquote_end(s, i + 1);
    } else if c == '\'' {
        lemma_quote_end(s, i + 1);
    } else if c == '\\' || c == '|' {
    } else if is_redirect_start(s, i) {
        let p = if c == '>' {
            i
        } else {
            i + 1
        };
        lemma_run_end(s, p, '>');
        lemma_run_end(s, p + 1, '>');
    } else {
        lemma_word_end(s, i + 1);
    }
}


proof fn lemma_lex_from_spans(s: Seq<char>, i: int)
    requires
        0 <= i <= s.len(),
        lex_from(s, i) is Ok,
    ensures
        spans_cover(s, lex_from(s, i)->Ok_0, i),
    decreases s.len() - i,
{
    let ts = lex_from(s, i)->Ok_0;
    if i == s.len() {
    } else if is_space(s[i]) {
        lemma_lex_from_spans(s, i + 1);
        assert forall|k: int, j: int|
            0 <= k < ts.len() && gap_start(ts, k, i) <= j < #[trigger] ts[k].start implies is_space(
                #[trigger] s[j],
            ) by {
            if j > i {
                assert(gap_start(ts, k, i + 1) <= j);
            }
        }
        assert forall|j: int| gap_start(ts, ts.len() as int, i) <= j < s.len() implies is_space(
            s[j],
        ) by {
            if j > i {
                assert(gap_start(ts, ts.len() as int, i + 1) <= j);
            }
        }
    } else {
        lemma_token_at_bounds(s, i);
        let t = token_at(s, i)->Ok_0;
        let rest = lex_from(s, t.end)->Ok_0;
        lemma_lex_from_spans(s, t.end);
        assert(ts == seq![t] + rest);
        assert forall|k: int| 0 < k <= ts.len() implies gap_start(ts, k, i) == gap_start(
            rest,
            k - 1,
            t.end,
        ) by {}
        assert forall|k: int| 0 < k < ts.len() implies #[trigger] ts[k] == rest[k - 1] by {}
        assert forall|k: int|
            0 <= k < ts.len() implies gap_start(ts, k, i) <= #[trigger] ts[k].start < ts[k].end
            <= s.len() by {
            if k > 0 {
                assert(rest[k - 1] == ts[k]);
            }
        }
        assert forall|k: int, j: int|
            0 <= k < ts.len() && gap_start(ts, k, i) <= j < #[trigger] ts[k].start implies is_space(
                #[trigger] s[j],
            ) by {
            if k > 0 {
                assert(rest[k - 1] == ts[k]);
            }
        }
        assert(gap_start(ts, ts.len() as int, i) == gap_start(
            rest,
            rest.len() as int,
            t.end,
        ));
    }
}

/// Lexing drops only the whitespace between tokens: the tokens' spans follow
/// one another in order, and every character of the line outside them is
/// whitespace. Writing the spans back one after another thus gives the line
/// without that whitespace.
pub proof fn lemma_lex_spans_cover_line(s: Seq<char>)
    requires
        lex(s) is Ok,
    ensures
        spans_cover(s, lex(s)->Ok_0, 0),
{
    lemma_lex_from_spans(s, 0);
}

fn is_space_char(c: char) -> (r: bool)
    ensures
        r == is_space(c),
{
    c == ' ' || c == '\t' || c == '\n' || c == '\r' || c == '\x0C'
}

fn is_redirect_start_at(s: &Vec<char>, i: usize) -> (r: bool)
    ensures
        r == is_redirect_start(s@, i as int),
{
    i < s.len() && (s[i] == '>' || ((s[i] == '1' || s[i] == '2') && i + 1 < s.len() && s[i + 1]
        == '>'))
}

fn is_adjacent_after(s: &Vec<char>, i: usize) -> (r: bool)
    ensures
        r == is_adjacent_at(s@, i as int),
{
    i < s.len() && !is_space_char(s[i]) && s[i] != '|' && !is_redirect_start_at(s, i)
}

fn is_word_char_exec(c: char) -> (r: bool)
    ensures
        r == is_word_char(c),
{
    !is_space_char(c) && c != '\'' && c != '"' && c != '\\' && c != '|' && c != '>'
}

fn find_word_end(s: &Vec<char>, i: usize) -> (r: usize)
    requires
        i <= s@.len(),
    ensures
        r as int == word_end(s@, i as int),
{
    let mut j = i;
    while j < s.len() && is_word_char_exec(s[j])
        invariant
            i <= j <= s@.len(),
            word_end(s@, j as int) == word_end(s@, i as int),
        decreases s@.len() - j,
    {
        j = j + 1;
    }
    j
}

fn find_run_end(s: &Vec<char>, i: usize, c: char) -> (r: usize)
    requires
        i <= s@.len(),
    ensures
        r as int == run_end(s@, i as int, c),
{
    let mut j = i;
    while j < s.len() && s[j] == c
        invariant
            i <= j <= s@.len(),
            run_end(s@, j as int, c) == run_end(s@, i as int, c),
        decreases s@.len() - j,
    {
        j = j + 1;
    }
    j
}

fn find_quote_end(s: &Vec<char>, i: usize) -> (r: usize)
    requires
        i <= s@.len(),
    ensures
        r as int == quote_end(s@, i as int),
{
    let mut j = i;
    while j < s.len() && s[j] != '\''
        invariant
            i <= j <= s@.len(),
            quote_end(s@, j as int) == quote_end(s@, i as int),
        decreases s@.len() - j,
    {
        j = j + 1;
    }
    j
}

fn find_dquote_end(s: &Vec<char>, i: usize) -> (r: usize)
    requires
        i <= s@.len(),
    ensures
        r as int == dquote_end(s@, i as int),
{
    let mut j = i;
    while j < s.len()
        invariant
            i <= j <= s@.len(),
            dquote_end(s@, j as int) == dquote_end(s@, i as int),
        decreases s@.len() - j,
    {
        if s[j] == '"' {
            return j;
        } else if s[j] == '\\' {
            if j + 1 < s.len() {
                j = j + 2;
            } else {
                return s.len();
            }
        } else {
            j = j + 1;
        }
    }
    s.len()
}

/// Reads the token that starts at `i`.
fn token_at_exec(s: &Vec<char>, i: usize) -> (r: Result<Token, ShellError>)
    requires
        i < s@.len(),
        !is_space(s@[i as int]),
    ensures
        token_result_view(r) == token_at(s@, i as int),
{
    let n = s.len();
    let c = s[i];
    if c == '"' {
        let e = find_dquote_end(s, i + 1);
        proof {
            lemma_dquote_end(s@, i + 1);
        }
        if e >= s.len() {
            Err(ShellError::MissingQuote)
        } else {
            Ok(
                Token {
                    origin: string_of(s, i + 1, e),
                    token_type: TokenType::DoubleQuote,
                    is_adjacent: is_adjacent_after(s, e + 1),
                    start: i,
                    end: e + 1,
                },
            )
        }
    } else if c == '\'' {
        let e = find_quote_end(s, i + 1);
        proof {
            lemma_quote_end(s@, i + 1);
        }
        if e >= s.len() {
            Err(ShellError::MissingQuote)
        } else {
            Ok(
                Token {
                    origin: string_of(s, i + 1, e),
                    token_type: TokenType::Word,
                    is_adjacent: is_adjacent_after(s, e + 1),
                    start: i,
                    end: e + 1,
                },
            )
        }
    } else if c == '\\' {
        if i + 1 < s.len() {
            Ok(
                Token {
                    origin: string_of(s, i + 1, i + 2),
                    token_type: TokenType::Escaped,
                    is_adjacent: is_adjacent_after(s, i + 2),
                    start: i,
                    end: i + 2,
                },
            )
        } else {
            Ok(
                Token {
                    origin: string_of(s, i, i + 1),
                    token_type: TokenType::Word,
                    is_adjacent: false,
                    start: i,
                    end: i + 1,
                },
            )
        }
    } else if c == '|' {
        Ok(
            Token {
                origin: string_of(s, i, i + 1),
                token_type: TokenType::Pipe,
                is_adjacent: false,
                start: i,
                end: i + 1,
            },
        )
    } else if is_redirect_start_at(s, i) {
        let p = if c == '>' {
            i
        } else {
            i + 1
        };
        let e = find_run_end(s, p, '>');
        proof {
            lemma_run_end(s@, p as int, '>');
        }
        if e - p > 2 {
            Err(ShellError::Parsing)
        } else {
            Ok(
                Token {
                    origin: string_of(s, i, e),
                    token_type: TokenType::Redirects,
                    is_adjacent: false,
                    start: i,
                    end: e,
                },
            )
        }
    } else {
        let e = find_word_end(s, i);
        proof {
            lemma_word_end(s@, i as int);
        }
        Ok(
            Token {
                origin: string_of(s, i, e),
                token_type: TokenType::Word,
                is_adjacent: is_adjacent_after(s, e),
                start: i,
                end: e,
            },
        )
    }
}

/// Whether the line holds nothing but whitespace, and so no token.
pub fn is_blank(line: &str) -> (r: bool)
    ensures
        r == (forall|i: int| 0 <= i < line@.len() ==> is_space(#[trigger] line@[i])),
{
    let n = line.unicode_len();
    let mut i: usize = 0;
    while i < n
        invariant
            n == line@.len(),
            i <= n,
            forall|k: int| 0 <= k < i ==> is_space(#[trigger] line@[k]),
        decreases n - i,
    {
        if !is_space_char(line.get_char(i)) {
            return false;
        }
        i = i + 1;
    }
    true
}

/// A cursor over a line that hands out its tokens one by one.
pub struct Lexer {
    chars: Vec<char>,
    pos: usize,
}

impl Lexer {
    /// The line being read.
    pub closed spec fn text(&self) -> Seq<char> {
        self.chars@
    }

    /// Where reading resumes.
    pub closed spec fn position(&self) -> int {
        self.pos as int
    }

    /// What is left to hand out: the tokens from the current position on.
    pub open spec fn rest(&self) -> Result<Seq<TokenView>, ShellError> {
        lex_from(self.text(), self.position())
    }

    pub fn new(input: &str) -> (r: Lexer)
        ensures
            r.text() == input@,
            r.position() == 0,
            r.rest() == lex(input@),
    {
        Lexer { chars: chars_of(input), pos: 0 }
    }

    /// The next token, or the error that stops the line, or `None` at its end.
    pub fn next(&mut self) -> (r: Option<Result<Token, ShellError>>)
        requires
            0 <= old(self).position() <= old(self).text().len(),
        ensures
            final(self).text() == old(self).text(),
            0 <= final(self).position() <= final(self).text().len(),
            ({
                let j = skip_spaces(old(self).text(), old(self).position());
                match r {
                    None => j == old(self).text().len() && old(self).rest() == Ok::<
                        Seq<TokenView>,
                        ShellError,
                    >(Seq::empty()),
                    Some(Err(e)) => j < old(self).text().len() && token_at(old(self).text(), j)
                        == Err::<TokenView, ShellError>(e) && old(self).rest() == Err::<
                        Seq<TokenView>,
                        ShellError,
                    >(e),
                    Some(Ok(t)) => j < old(self).text().len() && token_at(old(self).text(), j)
                        == Ok::<TokenView, ShellError>(t@) && final(self).position() == t@.end
                        && old(self).position() < final(self).position() && old(self).rest()
                        == cons_token(t@, final(self).rest()),
                }
            }),
    {
        while self.pos < self.chars.len() && is_space_char(self.chars[self.pos])
            invariant
                self.text() == old(self).text(),
                old(self).position() <= self.position() <= self.text().len(),
                self.rest() == old(self).rest(),
                skip_spaces(self.text(), self.position()) == skip_spaces(
                    old(self).text(),
                    old(self).position(),
                ),
            decreases self.text().len() - self.position(),
        {
            self.pos = self.pos + 1;
        }
        if self.pos >= self.chars.len() {
            return None;
        }
        let r = token_at_exec(&self.chars, self.pos);
        match r {
            Err(e) => Some(Err(e)),
            Ok(t) => {
                proof {
                    lemma_token_at_bounds(self.chars@, self.pos as int);
                }
                self.pos = t.end;
                Some(Ok(t))
            },
        }
    }
}

/// Splits a line into its tokens.
pub fn run_lexer(input: &str) -> (r: Result<Vec<Token>, ShellError>)
    ensures
        match r {
            Ok(v) => lex(input@) == Ok::<Seq<TokenView>, ShellError>(tokens_view(v@)),
            Err(e) => lex(input@) == Err::<Seq<TokenView>, ShellError>(e),
        },
{
    let mut lexer = Lexer::new(input);
    let mut tokens: Vec<Token> = Vec::new();
    loop
        invariant
            lexer.text() == input@,
            0 <= lexer.position() <= lexer.text().len(),
            lex(input@) == prepend_tokens(tokens_view(tokens@), lexer.rest()),
        decreases lexer.text().len() - lexer.position(),
    {
        let ghost before = tokens_view(tokens@);
        match lexer.next() {
            None => {
                assert(before + Seq::<TokenView>::empty() =~= before);
                return Ok(tokens);
            },
            Some(Err(e)) => {
                return Err(e);
            },
            Some(Ok(t)) => {
                let ghost tv = t@;
                tokens.push(t);
                proof {
                    assert(tokens_view(tokens@) =~= before.push(tv));
                    match lexer.rest() {
                        Ok(rest) => {
                            assert(before + (seq![tv] + rest) =~= before.push(tv) + rest);
                        },
                        Err(_) => {},
                    }
                }
            },
        }
    }
}

} // verus!
