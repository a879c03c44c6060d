use vstd::prelude::*;

use crate::commands::{command_of, CommandView, Commands};
use crate::error::ShellError;
use crate::lexer::{tokens_view, Token, TokenType, TokenView};
use crate::redirection::{eval_redirect, redirect_of, redirections_view, Redirection, RedirectionView};
use crate::text::{append_str, chars_of, push_char, strings_view};

verus! {

/// One stage of a pipeline: the command, its arguments and its redirections.
#[derive(Debug)]
pub struct ParsedInput {
    pub cmd: Commands,
    pub args: Vec<String>,
    pub redirects: Vec<Redirection>,
}

/// The mathematical value of a [`ParsedInput`].
pub struct StageView {
    pub cmd: CommandView,
    pub args: Seq<Seq<char>>,
    pub redirects: Seq<RedirectionView>,
}

impl View for ParsedInput {
    type V = StageView;

    open spec fn view(&self) -> StageView {
        StageView {
            cmd: self.cmd@,
            args: strings_view(self.args@),
            redirects: redirections_view(self.redirects@),
        }
    }
}

pub open spec fn stages_view(v: Seq<ParsedInput>) -> Seq<StageView> {
    v.map_values(|p: ParsedInput| p@)
}

/// A character that a backslash escapes inside double quotes, and that
/// then stands for itself.
pub open spec fn is_dq_escapable(c: char) -> bool {
    c == '\\' || c == '"' || c == '$' || c == '`'
}

/// The text of a double-quoted span once its escapes are processed: `\` drops
/// before `\`, `"`, `$` or a backquote, a backslash and the newline after it
/// both go, and `\` stays before anything else.
pub open spec fn unescape(s: Seq<char>) -> Seq<char>
    decreases s.len(),
{
    if s.len() == 0 {
        Seq::empty()
    } else if s[0] != '\\' {
        seq![s[0]] + unescape(s.subrange(1, s.len() as int))
    } else if s.len() == 1 {
        seq!['\\']
    } else if s[1] == '\n' {
        unescape(s.subrange(2, s.len() as int))
    } else if is_dq_escapable(s[1]) {
        seq![s[1]] + unescape(s.subrange(2, s.len() as int))
    } else {
        seq!['\\', s[1]] + unescape(s.subrange(2, s.len() as int))
    }
}

/// What a token adds to the argument being built.
pub open spec fn piece_of(t: TokenView) -> Seq<char> {
    if t.token_type == TokenType::DoubleQuote {
        unescape(t.origin)
    } else {
        t.origin
    }
}

/// The state of the walk over one stage: finished arguments, the argument
/// being built, and the redirections met so far.
pub struct StageAcc {
    pub args: Seq<Seq<char>>,
    pub cur: Seq<char>,
    pub redirects: Seq<RedirectionView>,
}

pub open spec fn empty_acc() -> StageAcc {
    StageAcc { args: Seq::empty(), cur: Seq::empty(), redirects: Seq::empty() }
}

/// Walks the tokens `ts[k..to]` of a stage after its command name. A
/// redirection takes the token after it as its path; any other token adds its
/// text to the current argument, which ends at the first token that is not
/// adjacent to the next.
pub open spec fn walk_stage(ts: Seq<TokenView>, k: int, to: int, acc: StageAcc) -> Result<
    StageAcc,
    ShellError,
>
    decreases to - k,
{
    if k >= to {
        Ok(acc)
    } else if ts[k].token_type == TokenType::Redirects {
        if ts[k].origin.len() == 0 {
            Err(ShellError::Parsing)
        } else if k + 1 >= to || ts[k + 1].token_type == TokenType::Redirects {
            Err(ShellError::MissingArg)
        } else {
            walk_stage(
                ts,
                k + 2,
                to,
                StageAcc {
                    redirects: acc.redirects.push(
                        RedirectionView {
                            redirect: redirect_of(ts[k].origin),
                            path: ts[k + 1].origin,
                        },
                    ),
                    ..acc
                },
            )
        }
    } else {
        let cur = acc.cur + piece_of(ts[k]);
        if ts[k].is_adjacent {
            walk_stage(ts, k + 1, to, StageAcc { cur, ..acc })
        } else {
            walk_stage(
                ts,
                k + 1,
                to,
                StageAcc { args: acc.args.push(cur), cur: Seq::empty(), redirects: acc.redirects },
            )
        }
    }
}

/// The stage made of the tokens `ts[from..to]`: the first one names the
/// command; an empty stage, or one that starts with a redirection, does not
/// follow the grammar.
pub open spec fn parse_stage_range(ts: Seq<TokenView>, from: int, to: int) -> Result<
    StageView,
    ShellError,
> {
    if from >= to || ts[from].token_type == TokenType::Redirects {
        Err(ShellError::Parsing)
    } else {
        match walk_stage(ts, from + 1, to, empty_acc()) {
            Err(e) => Err(e),
            Ok(acc) => Ok(
                StageView {
                    cmd: command_of(ts[from].origin),
                    args: if acc.cur.len() > 0 {
                        acc.args.push(acc.cur)
                    } else {
                        acc.args
                    },
                    redirects: acc.redirects,
                },
            ),
        }
    }
}

/// The first pipe at or after `i`, or the number of tokens if there is none.
pub open spec fn next_pipe(ts: Seq<TokenView>, i: int) -> int
    decreases ts.len() - i,
{
    if i < 0 || i >= ts.len() {
        ts.len() as int
    } else if ts[i].token_type == TokenType::Pipe {
        i
    } else {
        next_pipe(ts, i + 1)
    }
}

pub open spec fn cons_stage(st: StageView, r: Result<Seq<StageView>, ShellError>) -> Result<
    Seq<StageView>,
    ShellError,
> {
    match r {
        Ok(rest) => Ok(seq![st] + rest),
        Err(e) => Err(e),
    }
}

pub open spec fn prepend_stages(done: Seq<StageView>, r: Result<Seq<StageView>, ShellError>) -> Result<
    Seq<StageView>,
    ShellError,
> {
    match r {
        Ok(rest) => Ok(done + rest),
        Err(e) => Err(e),
    }
}

/// The stages of `ts` from position `i` on, split at pipes, or the error of
/// the first stage that has one.
pub open spec fn stages_from(ts: Seq<TokenView>, i: int) -> Result<Seq<StageView>, ShellError>
    decreases ts.len() - i,
    via stages_from_decreases
{
    if i < 0 || i > ts.len() {
        Ok(Seq::empty())
    } else {
        let e = next_pipe(ts, i);
        match parse_stage_range(ts, i, e) {
            Err(x) => Err(x),
            Ok(st) => if e >= ts.len() {
                Ok(seq![st])
            } else {
                cons_stage(st, stages_from(ts, e + 1))
            },
        }
    }
}

/// The pipeline that a line's tokens describe; no tokens, no stages.
pub open spec fn parse_tokens(ts: Seq<TokenView>) -> Result<Seq<StageView>, ShellError> {
    if ts.len() == 0 {
        Ok(Seq::empty())
    } else {
        stages_from(ts, 0)
    }
}

pub open spec fn pipeline_result_view(r: Result<Vec<ParsedInput>, ShellError>) -> Result<
    Seq<StageView>,
    ShellError,
> {
    match r {
        Ok(v) => Ok(stages_view(v@)),
        Err(e) => Err(e),
    }
}

proof fn lemma_next_pipe(ts: Seq<TokenView>, i: int)
    requires
        0 <= i <= ts.len(),
    ensures
        i <= next_pipe(ts, i) <= ts.len(),
        forall|k: int| i <= k < next_pipe(ts, i) ==> (#[trigger] ts[k]).token_type != TokenType::Pipe,
    decreases ts.len() - i,
{
    if i < ts.len() && ts[i].token_type != TokenType::Pipe {
        lemma_next_pipe(ts, i + 1);
    }
}

#[via_fn]
proof fn stages_from_decreases(ts: Seq<TokenView>, i: int) {
    if 0 <= i <= ts.len() {
        lemma_next_pipe(ts, i);
    }
}

/// Processes the escapes of a double-quoted span.
pub fn process_escaped(input: &str) -> (r: String)
    ensures
        r@ == unescape(input@),
{
    let s = chars_of(input);
    let n = s.len();
    let mut r = String::new();
    let mut i: usize = 0;
    assert(s@.subrange(0, n as int) =~= s@);
    assert(r@ + unescape(s@) =~= unescape(s@));
    while i < n
        invariant
            n == s@.len(),
            s@ == input@,
            i <= n,
            unescape(s@) == r@ + unescape(s@.subrange(i as int, n as int)),
        decreases n - i,
    {
        let ghost rest = s@.subrange(i as int, n as int);
        let c = s[i];
        if c != '\\' {
            assert(rest.subrange(1, rest.len() as int) =~= s@.subrange(i + 1, n as int));
            push_char(&mut r, c);
            i = i + 1;
        } else if i + 1 == n {
            push_char(&mut r, c);
            i = i + 1;
            assert(s@.subrange(i as int, n as int) =~= Seq::<char>::empty());
        } else {
            let next = s[i + 1];
            assert(rest.subrange(2, rest.len() as int) =~= s@.subrange(i + 2, n as int));
            // a backslash before a newline takes both away
            if next == '\\' || next == '"' || next == '$' || next == '`' {
                push_char(&mut r, next);
            } else if next != '\n' {
                push_char(&mut r, c);
                push_char(&mut r, next);
            }
            i = i + 2;
        }
        assert(unescape(s@) =~= r@ + unescape(s@.subrange(i as int, n as int)));
    }
    assert(s@.subrange(n as int, n as int) =~= Seq::<char>::empty());
    assert(unescape(Seq::<char>::empty()) == Seq::<char>::empty());
    assert(r@ + Seq::<char>::empty() =~= r@);
    r
}


pub open spec fn acc_of(args: Seq<String>, cur: String, redirects: Seq<Redirection>) -> StageAcc {
    StageAcc { args: strings_view(args), cur: cur@, redirects: redirections_view(redirects) }
}

fn find_pipe(tokens: &Vec<Token>, i: usize) -> (r: usize)
    requires
        i <= tokens@.len(),
    ensures
        r as int == next_pipe(tokens_view(tokens@), i as int),
{
    let ghost tv = tokens_view(tokens@);
    let mut j = i;
    while j < tokens.len() && tokens[j].token_type != TokenType::Pipe
        invariant
            i <= j <= tokens@.len(),
            tv == tokens_view(tokens@),
            next_pipe(tv, j as int) == next_pipe(tv, i as int),
        decreases tokens@.len() - j,
    {
        j = j + 1;
    }
    j
}

/// Builds the stage made of `tokens[from..to]`, which holds no pipe.
fn parse_stage(tokens: &Vec<Token>, from: usize, to: usize) -> (r: Result<ParsedInput, ShellError>)
    requires
        from <= to <= tokens@.len(),
    ensures
        match r {
            Ok(p) => parse_stage_range(tokens_view(tokens@), from as int, to as int) == Ok::<
                StageView,
                ShellError,
            >(p@),
            Err(e) => parse_stage_range(tokens_view(tokens@), from as int, to as int) == Err::<
                StageView,
                ShellError,
            >(e),
        },
{
    let ghost tv = tokens_view(tokens@);
    if from >= to || tokens[from].token_type == TokenType::Redirects {
        return Err(ShellError::Parsing);
    }
    assert(tv[from as int] == tokens@[from as int]@);
    let cmd = Commands::from_cmd(tokens[from].origin.as_str());
    let mut args: Vec<String> = Vec::new();
    let mut cur = String::new();
    let mut redirects: Vec<Redirection> = Vec::new();
    let mut k = from + 1;
    assert(strings_view(args@) =~= Seq::<Seq<char>>::empty());
    assert(redirections_view(redirects@) =~= Seq::<RedirectionView>::empty());
    assert(acc_of(args@, cur, redirects@) == empty_acc());
    while k < to
        invariant
            from < k <= to,
            to <= tokens@.len(),
            tv[from as int].token_type != TokenType::Redirects,
            cmd@ == command_of(tv[from as int].origin),
            tv == tokens_view(tokens@),
            walk_stage(tv, from + 1, to as int, empty_acc()) == walk_stage(
                tv,
                k as int,
                to as int,
                acc_of(args@, cur, redirects@),
            ),
        decreases to - k,
    {
        let t = &tokens[k];
        assert(tv[k as int] == t@);
        if k + 1 < to {
            assert(tv[k + 1] == tokens@[k + 1]@);
        }
        if t.token_type == TokenType::Redirects {
            if t.origin.unicode_len() == 0 {
                return Err(ShellError::Parsing);
            }
            if k + 1 >= to || tokens[k + 1].token_type == TokenType::Redirects {
                return Err(ShellError::MissingArg);
            }
            let ghost old_reds = redirects@;
            let redirect = eval_redirect(t.origin.as_str());
            redirects.push(Redirection::new(redirect, tokens[k + 1].origin.as_str()));
            assert(redirections_view(redirects@) =~= redirections_view(old_reds).push(
                RedirectionView { redirect: redirect_of(tv[k as int].origin), path: tv[k + 1].origin },
            ));
            k = k + 2;
        } else {
            let ghost old_cur = cur@;
            if t.token_type == TokenType::DoubleQuote {
                let piece = process_escaped(t.origin.as_str());
                append_str(&mut cur, piece.as_str());
            } else {
                append_str(&mut cur, t.origin.as_str());
            }
            assert(cur@ == old_cur + piece_of(tv[k as int]));
            if !t.is_adjacent {
                let ghost old_args = args@;
                args.push(cur);
                cur = String::new();
                assert(strings_view(args@) =~= strings_view(old_args).push(
                    old_cur + piece_of(tv[k as int]),
                ));
            }
            k = k + 1;
        }
    }
    let ghost acc = acc_of(args@, cur, redirects@);
    if cur.unicode_len() > 0 {
        let ghost old_args = args@;
        args.push(cur);
        assert(strings_view(args@) =~= strings_view(old_args).push(acc.cur));
    }
    Ok(ParsedInput { cmd, args, redirects })
}

/// Turns a line's tokens into a pipeline: the stages between pipes, in
/// order. No tokens give no stages; an empty stage, a stage that starts with a
/// redirection, or an operator without its path is an error.
pub fn parse(tokens: &Vec<Token>) -> (r: Result<Vec<ParsedInput>, ShellError>)
    ensures
        pipeline_result_view(r) == parse_tokens(tokens_view(tokens@)),
{
    let ghost tv = tokens_view(tokens@);
    let mut stages: Vec<ParsedInput> = Vec::new();
    if tokens.len() == 0 {
        assert(stages_view(stages@) =~= Seq::<StageView>::empty());
        return Ok(stages);
    }
    let mut i: usize = 0;
    assert(stages_view(stages@) + Seq::<StageView>::empty() =~= Seq::<StageView>::empty());
    loop
        invariant
            i <= tokens@.len(),
            tokens@.len() > 0,
            tv == tokens_view(tokens@),
            parse_tokens(tv) == prepend_stages(stages_view(stages@), stages_from(tv, i as int)),
        decreases tokens@.len() - i,
    {
        let e = find_pipe(tokens, i);
        proof {
            lemma_next_pipe(tv, i as int);
        }
        let ghost done = stages_view(stages@);
        match parse_stage(tokens, i, e) {
            Err(x) => {
                return Err(x);
            },
            Ok(st) => {
                let ghost sv = st@;
                stages.push(st);
                assert(stages_view(stages@) =~= done.push(sv));
                if e >= tokens.len() {
                    assert(done + seq![sv] =~= done.push(sv));
                    return Ok(stages);
                }
                proof {
                    match stages_from(tv, e + 1) {
                        Ok(rest) => {
                            assert(done + (seq![sv] + rest) =~= done.push(sv) + rest);
                        },
                        Err(_) => {},
                    }
                }
                i = e + 1;
            },
        }
    }
}

} // verus!
