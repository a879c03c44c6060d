use vstd::prelude::*;

use crate::commands::External;
use crate::error::{message_of, ShellError};
use crate::redirection::{redirections_view, Redirect, Redirection, RedirectionView};
use crate::text::push_char;

verus! {

/// The index of the last redirection of `reds` that takes stdout (or stderr,
/// when `stdout` is false).
pub open spec fn last_redirect(reds: Seq<RedirectionView>, stdout: bool) -> Option<int>
    decreases reds.len(),
{
    if reds.len() == 0 {
        None
    } else if reds.last().redirect.is_stdout() == stdout {
        Some(reds.len() - 1)
    } else {
        last_redirect(reds.drop_last(), stdout)
    }
}

/// A line of output: the text and a newline.
pub open spec fn output_line(t: Seq<char>) -> Seq<char> {
    t + seq!['\n']
}

/// What goes to the `i`-th redirection's file: the text for the last stdout
/// redirection, the error for the last stderr one, nothing for the others.
pub open spec fn file_content(
    reds: Seq<RedirectionView>,
    i: int,
    result: Result<Option<String>, ShellError>,
) -> Seq<char> {
    if last_redirect(reds, true) == Some(i) && result is Ok && result->Ok_0 is Some {
        output_line(result->Ok_0->Some_0@)
    } else if last_redirect(reds, false) == Some(i) && result is Err {
        output_line(message_of(result->Err_0))
    } else {
        Seq::empty()
    }
}

/// The bytes a builtin hands to its stdout (the terminal, or the next stage):
/// its text, unless a redirection takes stdout.
pub open spec fn builtin_stdout(
    reds: Seq<RedirectionView>,
    result: Result<Option<String>, ShellError>,
) -> Option<Seq<char>> {
    if last_redirect(reds, true) is None && result is Ok && result->Ok_0 is Some {
        Some(output_line(result->Ok_0->Some_0@))
    } else {
        None
    }
}

/// The bytes a builtin writes to the terminal's stderr: its error, unless a
/// redirection takes stderr.
pub open spec fn builtin_stderr(
    reds: Seq<RedirectionView>,
    result: Result<Option<String>, ShellError>,
) -> Option<Seq<char>> {
    if last_redirect(reds, false) is None && result is Err {
        Some(output_line(message_of(result->Err_0)))
    } else {
        None
    }
}

/// A file that a redirection opens, and the text to write to it.
#[derive(Debug)]
pub struct FileWrite {
    pub path: String,
    pub append: bool,
    pub content: String,
}

/// A builtin's result once its redirections are applied: every redirection's
/// file in order, and what is left for stdout and stderr.
#[derive(Debug)]
pub struct BuiltinOutput {
    pub files: Vec<FileWrite>,
    pub stdout: Option<String>,
    pub stderr: Option<String>,
}

pub open spec fn opt_text(o: Option<String>) -> Option<Seq<char>> {
    match o {
        Some(s) => Some(s@),
        None => None,
    }
}

proof fn lemma_last_redirect_bounds(reds: Seq<RedirectionView>, stdout: bool)
    ensures
        last_redirect(reds, stdout) is Some ==> {
            let k = last_redirect(reds, stdout)->Some_0;
            0 <= k < reds.len() && reds[k].redirect.is_stdout() == stdout
        },
    decreases reds.len(),
{
    if reds.len() > 0 && reds.last().redirect.is_stdout() != stdout {
        lemma_last_redirect_bounds(reds.drop_last(), stdout);
        if last_redirect(reds, stdout) is Some {
            let k = last_redirect(reds, stdout)->Some_0;
            assert(reds.drop_last()[k] == reds[k]);
        }
    }
}

fn find_last_redirect(reds: &Vec<Redirection>, stdout: bool) -> (r: Option<usize>)
    ensures
        r is Some <==> last_redirect(redirections_view(reds@), stdout) is Some,
        r is Some ==> last_redirect(redirections_view(reds@), stdout) == Some(r->Some_0 as int),
{
    let ghost rv = redirections_view(reds@);
    let mut i = reds.len();
    assert(rv.subrange(0, i as int) =~= rv);
    while i > 0
        invariant
            i <= reds@.len(),
            rv == redirections_view(reds@),
            last_redirect(rv, stdout) == last_redirect(rv.subrange(0, i as int), stdout),
        decreases i,
    {
        let is_out = match reds[i - 1].redirect {
            Redirect::StdOut(_) => true,
            Redirect::StdErr(_) => false,
        };
        assert(rv.subrange(0, i as int).last() == reds@[i - 1]@);
        if is_out == stdout {
            return Some(i - 1);
        }
        assert(rv.subrange(0, i as int).drop_last() =~= rv.subrange(0, i - 1));
        i = i - 1;
    }
    None
}

fn line_of(t: &String) -> (r: String)
    ensures
        r@ == output_line(t@),
{
    let mut r = t.clone();
    push_char(&mut r, '\n');
    r
}

/// Applies a builtin's redirections to its result. Every redirection opens
/// its file; the last one on stdout gets the text, the last one on stderr the
/// error. What no redirection takes is left for the stage's stdout and the
/// terminal's stderr.
pub fn handle_builtin_redirection(
    redirects: &Vec<Redirection>,
    result: &Result<Option<String>, ShellError>,
) -> (r: BuiltinOutput)
    ensures
        r.files@.len() == redirects@.len(),
        forall|i: int|
            0 <= i < redirects@.len() ==> {
                &&& (#[trigger] r.files@[i]).path@ == redirects@[i].path@
                &&& r.files@[i].append == redirects@[i].redirect.appends()
                &&& r.files@[i].content@ == file_content(
                    redirections_view(redirects@),
                    i,
                    *result,
                )
            },
        opt_text(r.stdout) == builtin_stdout(redirections_view(redirects@), *result),
        opt_text(r.stderr) == builtin_stderr(redirections_view(redirects@), *result),
{
    let ghost rv = redirections_view(redirects@);
    let out = find_last_redirect(redirects, true);
    let err = find_last_redirect(redirects, false);
    proof {
        lemma_last_redirect_bounds(rv, true);
        lemma_last_redirect_bounds(rv, false);
    }
    let mut files: Vec<FileWrite> = Vec::new();
    let mut i: usize = 0;
    while i < redirects.len()
        invariant
            i <= redirects@.len(),
            rv == redirections_view(redirects@),
            out is Some <==> last_redirect(rv, true) is Some,
            out is Some ==> last_redirect(rv, true) == Some(out->Some_0 as int),
            err is Some <==> last_redirect(rv, false) is Some,
            err is Some ==> last_redirect(rv, false) == Some(err->Some_0 as int),
            files@.len() == i,
            forall|k: int|
                0 <= k < i ==> {
                    &&& (#[trigger] files@[k]).path@ == redirects@[k].path@
                    &&& files@[k].append == redirects@[k].redirect.appends()
                    &&& files@[k].content@ == file_content(rv, k, *result)
                },
        decreases redirects@.len() - i,
    {
        let r = &redirects[i];
        let append = match r.redirect {
            Redirect::StdOut(a) => a,
            Redirect::StdErr(a) => a,
        };
        let content = if out == Some(i) && matches!(result, Ok(Some(_))) {
            match result {
                Ok(Some(t)) => line_of(t),
                _ => String::new(),
            }
        } else if err == Some(i) && result.is_err() {
            match result {
                Err(e) => line_of(&e.message()),
                _ => String::new(),
            }
        } else {
            String::new()
        };
        assert(content@ == file_content(rv, i as int, *result));
        files.push(FileWrite { path: r.path.clone(), append, content });
        i = i + 1;
    }
    let stdout = if out.is_none() {
        match result {
            Ok(Some(t)) => Some(line_of(t)),
            _ => None,
        }
    } else {
        None
    };
    let stderr = if err.is_none() {
        match result {
            Err(e) => Some(line_of(&e.message())),
            _ => None,
        }
    } else {
        None
    };
    BuiltinOutput { files, stdout, stderr }
}

/// Where a stream of a stage goes.
#[derive(Debug, PartialEq, Eq, Clone, Copy, Structural)]
pub enum Sink {
    Terminal,
    NextStage,
    /// The file of the stage's redirection with this index.
    File(usize),
}

/// Where a stage's stdout and stderr go.
#[derive(Debug, PartialEq, Eq, Clone, Copy, Structural)]
pub struct StagePlan {
    pub stdout: Sink,
    pub stderr: Sink,
}

/// Where stdout goes: the file of the last stdout redirection, else the
/// terminal for the last stage and the next stage for the others.
pub open spec fn stdout_sink(reds: Seq<RedirectionView>, is_last: bool) -> Sink {
    match last_redirect(reds, true) {
        Some(i) => Sink::File(i as usize),
        None => if is_last {
            Sink::Terminal
        } else {
            Sink::NextStage
        },
    }
}

/// Where stderr goes: the file of the last stderr redirection, else the
/// terminal.
pub open spec fn stderr_sink(reds: Seq<RedirectionView>) -> Sink {
    match last_redirect(reds, false) {
        Some(i) => Sink::File(i as usize),
        None => Sink::Terminal,
    }
}

/// The streams of a stage with `redirects`, the last of its pipeline or not.
pub fn plan_stage(redirects: &Vec<Redirection>, is_last: bool) -> (r: StagePlan)
    ensures
        r.stdout == stdout_sink(redirections_view(redirects@), is_last),
        r.stderr == stderr_sink(redirections_view(redirects@)),
{
    let stdout = match find_last_redirect(redirects, true) {
        Some(i) => Sink::File(i),
        None => if is_last {
            Sink::Terminal
        } else {
            Sink::NextStage
        },
    };
    let stderr = match find_last_redirect(redirects, false) {
        Some(i) => Sink::File(i),
        None => Sink::Terminal,
    };
    StagePlan { stdout, stderr }
}

/// Once a stage sends stdout to a file, none of its text reaches the
/// terminal: a builtin keeps none of it for its stdout, and an external's
/// stdout goes to the file.
pub proof fn lemma_redirected_stdout_stays_off_terminal(
    reds: Seq<RedirectionView>,
    result: Result<Option<String>, ShellError>,
    is_last: bool,
)
    requires
        exists|i: int| 0 <= i < reds.len() && (#[trigger] reds[i]).redirect.is_stdout(),
    ensures
        builtin_stdout(reds, result) is None,
        stdout_sink(reds, is_last) is File,
{
    let i = choose|i: int| 0 <= i < reds.len() && (#[trigger] reds[i]).redirect.is_stdout();
    lemma_last_redirect_found(reds, i, true);
}

proof fn lemma_last_redirect_found(reds: Seq<RedirectionView>, i: int, stdout: bool)
    requires
        0 <= i < reds.len(),
        reds[i].redirect.is_stdout() == stdout,
    ensures
        last_redirect(reds, stdout) is Some,
    decreases reds.len(),
{
    if reds.last().redirect.is_stdout() != stdout {
        assert(reds.drop_last()[i] == reds[i]);
        lemma_last_redirect_found(reds.drop_last(), i, stdout);
    }
}

impl External {
    /// The error for a program that is not on `PATH`.
    pub fn not_found(&self) -> (r: ShellError)
        ensures
            r is Execution && r->Execution_0@ == self@ + ": command not found"@,
    {
        ShellError::Execution(String::from_str(self.name()).concat(": command not found"))
    }
}


/// What the next stage reads as stdin.
#[derive(Debug)]
pub enum StageInput {
    /// The terminal: the first stage.
    Terminal,
    /// The pipe from the stdout of the external before it.
    Pipe,
    /// Bytes that the stage before it left: a builtin's output, or nothing.
    Bytes(String),
}

/// The mathematical value of a [`StageInput`].
pub enum InputView {
    Terminal,
    Pipe,
    Bytes(Seq<char>),
}

pub open spec fn input_view(i: StageInput) -> InputView {
    match i {
        StageInput::Terminal => InputView::Terminal,
        StageInput::Pipe => InputView::Pipe,
        StageInput::Bytes(b) => InputView::Bytes(b@),
    }
}

/// The progress of a pipeline's run: which stage comes next, and how each
/// finished one ran.
#[derive(Debug)]
pub struct PipelineRun {
    stages: usize,
    next: usize,
    spawned: usize,
    builtins_run: usize,
    failed: usize,
    reaped: usize,
    input: StageInput,
}

/// The counts of a [`PipelineRun`].
pub struct PipelineRunView {
    pub stages: nat,
    pub next: nat,
    pub spawned: nat,
    pub builtins_run: nat,
    pub failed: nat,
    pub reaped: nat,
    pub input: InputView,
}

impl View for PipelineRun {
    type V = PipelineRunView;

    closed spec fn view(&self) -> PipelineRunView {
        PipelineRunView {
            stages: self.stages as nat,
            next: self.next as nat,
            spawned: self.spawned as nat,
            builtins_run: self.builtins_run as nat,
            failed: self.failed as nat,
            reaped: self.reaped as nat,
            input: input_view(self.input),
        }
    }
}

/// Every finished stage ran once: in-process, as a child, or failing to
/// start; only children are waited for, each once.
pub open spec fn run_wf(v: PipelineRunView) -> bool {
    &&& v.next <= v.stages
    &&& v.spawned + v.builtins_run + v.failed == v.next
    &&& v.reaped <= v.spawned
}

impl PipelineRun {
    pub fn new(stages: usize) -> (r: PipelineRun)
        ensures
            r@ == (PipelineRunView {
                stages: stages as nat,
                next: 0,
                spawned: 0,
                builtins_run: 0,
                failed: 0,
                reaped: 0,
                input: InputView::Terminal,
            }),
            run_wf(r@),
    {
        PipelineRun {
            stages,
            next: 0,
            spawned: 0,
            builtins_run: 0,
            failed: 0,
            reaped: 0,
            input: StageInput::Terminal,
        }
    }

    /// The index of the stage to run next, while one is left.
    pub fn current(&self) -> (r: Option<usize>)
        ensures
            self@.next < self@.stages ==> r == Some(self@.next as usize),
            self@.next >= self@.stages ==> r is None,
    {
        if self.next < self.stages {
            Some(self.next)
        } else {
            None
        }
    }

    /// Whether the stage to run next is the last one.
    pub fn is_last(&self) -> (r: bool)
        ensures
            r == (self@.next + 1 == self@.stages),
    {
        self.next < self.stages && self.next + 1 == self.stages
    }

    /// What the stage to run next reads.
    pub fn input(&self) -> (r: &StageInput)
        ensures
            input_view(*r) == self@.input,
    {
        &self.input
    }

    /// The stage ran in-process and left `stdout` for its stdout.
    pub fn builtin_ran(&mut self, stdout: Option<String>)
        requires
            run_wf(old(self)@),
            old(self)@.next < old(self)@.stages,
        ensures
            run_wf(final(self)@),
            final(self)@ == (PipelineRunView {
                next: old(self)@.next + 1,
                builtins_run: old(self)@.builtins_run + 1,
                input: InputView::Bytes(
                    match stdout {
                        Some(b) => b@,
                        None => Seq::empty(),
                    },
                ),
                ..old(self)@
            }),
    {
        self.next = self.next + 1;
        self.builtins_run = self.builtins_run + 1;
        self.input = match stdout {
            Some(b) => StageInput::Bytes(b),
            None => StageInput::Bytes(String::new()),
        };
    }

    /// The stage was spawned as a child; `piped` says whether its stdout is
    /// the pipe the next stage reads.
    pub fn spawned(&mut self, piped: bool)
        requires
            run_wf(old(self)@),
            old(self)@.next < old(self)@.stages,
        ensures
            run_wf(final(self)@),
            final(self)@ == (PipelineRunView {
                next: old(self)@.next + 1,
                spawned: old(self)@.spawned + 1,
                input: if piped {
                    InputView::Pipe
                } else {
                    InputView::Bytes(Seq::empty())
                },
                ..old(self)@
            }),
    {
        self.next = self.next + 1;
        self.spawned = self.spawned + 1;
        self.input = if piped {
            StageInput::Pipe
        } else {
            StageInput::Bytes(String::new())
        };
    }

    /// The stage could not be started.
    pub fn failed_to_start(&mut self)
        requires
            run_wf(old(self)@),
            old(self)@.next < old(self)@.stages,
        ensures
            run_wf(final(self)@),
            final(self)@ == (PipelineRunView {
                next: old(self)@.next + 1,
                failed: old(self)@.failed + 1,
                input: InputView::Bytes(Seq::empty()),
                ..old(self)@
            }),
    {
        self.next = self.next + 1;
        self.failed = self.failed + 1;
        self.input = StageInput::Bytes(String::new());
    }

    /// How many children are still to be waited for.
    pub fn unreaped(&self) -> (r: usize)
        requires
            run_wf(self@),
        ensures
            r == self@.spawned - self@.reaped,
    {
        self.spawned - self.reaped
    }

    /// A child was waited for.
    pub fn reaped(&mut self)
        requires
            run_wf(old(self)@),
            old(self)@.reaped < old(self)@.spawned,
        ensures
            run_wf(final(self)@),
            final(self)@ == (PipelineRunView { reaped: old(self)@.reaped + 1, ..old(self)@ }),
    {
        self.reaped = self.reaped + 1;
    }

    /// Every stage has run and every child has been waited for.
    pub fn finished(&self) -> (r: bool)
        ensures
            r == (self@.next == self@.stages && self@.reaped == self@.spawned),
    {
        self.next == self.stages && self.reaped == self.spawned
    }
}

/// At the end of a run where every stage started, the children spawned and
/// the builtins run add up to the stages, and every child has been reaped.
pub proof fn lemma_every_stage_runs_once(v: PipelineRunView)
    requires
        run_wf(v),
        v.next == v.stages,
        v.reaped == v.spawned,
        v.failed == 0,
    ensures
        v.spawned + v.builtins_run == v.stages,
        v.reaped == v.spawned,
{
}

} // verus!
