use vstd::prelude::*;

use crate::completion::{common_prefix, common_prefix_ascii, starts_with};
use crate::context::{recalled, ShellCtx};
use crate::text::{append_str, chars_of, digits_of, join, join_spec, push_char, string_of, strings_view};

verus! {

/// A key as the editor sees it. `Char('\t')` is Tab, `Char('\n')` and
/// `Char('\r')` are Enter.
#[derive(Debug, PartialEq, Eq, Clone, Copy, Structural)]
pub enum EditKey {
    Char(char),
    Ctrl(char),
    Left,
    Right,
    Home,
    End,
    Backspace,
    Delete,
    Up,
    Down,
    Other,
}

/// What the terminal side must do after a key.
#[derive(Debug)]
pub enum EditAction {
    /// Redraw the line.
    Redraw,
    /// Ring the bell, then redraw the line.
    Bell,
    /// Print these candidates on a line of their own, then redraw the line.
    ShowCandidates(String),
    /// The line is committed.
    Submit(String),
    /// Ctrl-C: the line is dropped.
    Cancel,
    /// Ctrl-D on an empty line: no more input.
    EndOfInput,
    /// Nothing to show.
    Nothing,
}

/// The mathematical value of an [`EditAction`].
pub enum ActionView {
    Redraw,
    Bell,
    ShowCandidates(Seq<char>),
    Submit(Seq<char>),
    Cancel,
    EndOfInput,
    Nothing,
}

impl View for EditAction {
    type V = ActionView;

    open spec fn view(&self) -> ActionView {
        match self {
            EditAction::Redraw => ActionView::Redraw,
            EditAction::Bell => ActionView::Bell,
            EditAction::ShowCandidates(s) => ActionView::ShowCandidates(s@),
            EditAction::Submit(s) => ActionView::Submit(s@),
            EditAction::Cancel => ActionView::Cancel,
            EditAction::EndOfInput => ActionView::EndOfInput,
            EditAction::Nothing => ActionView::Nothing,
        }
    }
}

/// The line being edited.
#[derive(Debug)]
pub struct Shell {
    buffer: Vec<char>,
    cursor: usize,
    last_event: Option<EditKey>,
    hist_pos: usize,
}

/// The mathematical value of a [`Shell`]: the text, the cursor, the key
/// before, and how far back in history the text comes from (0: the line
/// being typed).
pub struct EditorView {
    pub buffer: Seq<char>,
    pub cursor: int,
    pub last: Option<EditKey>,
    pub hist_pos: int,
}

impl View for Shell {
    type V = EditorView;

    closed spec fn view(&self) -> EditorView {
        EditorView {
            buffer: self.buffer@,
            cursor: self.cursor as int,
            last: self.last_event,
            hist_pos: self.hist_pos as int,
        }
    }
}

pub open spec fn editor_wf(s: EditorView) -> bool {
    0 <= s.cursor <= s.buffer.len() && s.hist_pos >= 0
}

/// The state and action after Tab, given the completions of the line.
pub open spec fn tab_step(s: EditorView, cands: Seq<Seq<char>>) -> (EditorView, ActionView) {
    if s.last == Some(EditKey::Char('\t')) {
        (EditorView { last: None, ..s }, ActionView::ShowCandidates(join_spec(cands, "  "@)))
    } else if cands.len() == 1 {
        let b = cands[0].push(' ');
        (EditorView { buffer: b, cursor: b.len() as int, last: None, ..s }, ActionView::Redraw)
    } else {
        let last = if cands.len() >= 2 {
            Some(EditKey::Char('\t'))
        } else {
            None
        };
        let lcp = common_prefix(cands);
        if cands.len() >= 2 && lcp.len() > s.buffer.len() && starts_with(lcp, s.buffer) {
            (
                EditorView { buffer: lcp, cursor: lcp.len() as int, last, ..s },
                ActionView::Redraw,
            )
        } else {
            (EditorView { last, ..s }, ActionView::Bell)
        }
    }
}

/// The state and action after a key that does not reach into history.
pub open spec fn edit_step(s: EditorView, key: EditKey, cands: Seq<Seq<char>>) -> (
    EditorView,
    ActionView,
) {
    match key {
        EditKey::Char(c) => if c == '\n' || c == '\r' {
            (
                EditorView { buffer: Seq::empty(), cursor: 0, last: None, hist_pos: 0 },
                ActionView::Submit(s.buffer),
            )
        } else if c == '\t' {
            tab_step(s, cands)
        } else {
            (
                EditorView {
                    buffer: s.buffer.insert(s.cursor, c),
                    cursor: s.cursor + 1,
                    last: Some(key),
                    ..s
                },
                ActionView::Redraw,
            )
        },
        EditKey::Ctrl(c) => if c == 'c' {
            (
                EditorView { buffer: Seq::empty(), cursor: 0, last: None, hist_pos: 0 },
                ActionView::Cancel,
            )
        } else if c == 'd' && s.buffer.len() == 0 {
            (s, ActionView::EndOfInput)
        } else {
            (s, ActionView::Nothing)
        },
        EditKey::Left => (
            EditorView {
                cursor: if s.cursor > 0 {
                    s.cursor - 1
                } else {
                    0
                },
                last: Some(key),
                ..s
            },
            ActionView::Redraw,
        ),
        EditKey::Right => (
            EditorView {
                cursor: if s.cursor < s.buffer.len() {
                    s.cursor + 1
                } else {
                    s.buffer.len() as int
                },
                last: Some(key),
                ..s
            },
            ActionView::Redraw,
        ),
        EditKey::Home => (EditorView { cursor: 0, last: Some(key), ..s }, ActionView::Redraw),
        EditKey::End => (
            EditorView { cursor: s.buffer.len() as int, last: Some(key), ..s },
            ActionView::Redraw,
        ),
        EditKey::Backspace => if s.cursor > 0 {
            (
                EditorView {
                    buffer: s.buffer.remove(s.cursor - 1),
                    cursor: s.cursor - 1,
                    last: Some(key),
                    ..s
                },
                ActionView::Redraw,
            )
        } else {
            (EditorView { last: Some(key), ..s }, ActionView::Nothing)
        },
        EditKey::Delete => if s.cursor < s.buffer.len() {
            (
                EditorView { buffer: s.buffer.remove(s.cursor), last: Some(key), ..s },
                ActionView::Redraw,
            )
        } else {
            (EditorView { last: Some(key), ..s }, ActionView::Nothing)
        },
        _ => (s, ActionView::Nothing),
    }
}

/// The control sequence that clears the screen after the cursor.
pub open spec fn clear_after_seq() -> Seq<char> {
    seq!['\x1b', '[', 'J']
}

/// The control sequence that moves the cursor `n` columns right.
pub open spec fn right_seq(n: nat) -> Seq<char> {
    seq!['\x1b', '['] + digits_of(n) + seq!['C']
}

/// Relies on termion's `clear::AfterCursor`, whose text is CSI `J`.
#[verifier::external_body]
fn clear_after_cursor() -> (r: String)
    ensures
        r@ == clear_after_seq(),
{
    format!("{}", termion::clear::AfterCursor)
}

/// Relies on termion's `cursor::Right`, whose text is CSI, the count in
/// decimal, and `C`.
#[verifier::external_body]
fn cursor_right(n: u16) -> (r: String)
    ensures
        r@ == right_seq(n as nat),
{
    String::from(termion::cursor::Right(n))
}

/// The column the cursor stands in: after the prompt and the text before
/// the cursor, as far as the terminal can count.
pub open spec fn cursor_column(prompt: Seq<char>, cursor: int) -> nat {
    if prompt.len() + cursor > u16::MAX {
        u16::MAX as nat
    } else {
        (prompt.len() + cursor) as nat
    }
}

/// What redrawing writes: back to the line's start, the prompt and the text,
/// clear what is after, then back and right to the cursor's column.
pub open spec fn redraw_text(prompt: Seq<char>, s: EditorView) -> Seq<char> {
    seq!['\r'] + prompt + s.buffer + clear_after_seq() + seq!['\r'] + right_seq(
        cursor_column(prompt, s.cursor),
    )
}

impl Shell {
    pub fn new() -> (r: Shell)
        ensures
            r@ == (EditorView { buffer: Seq::empty(), cursor: 0, last: None, hist_pos: 0 }),
    {
        Shell { buffer: Vec::new(), cursor: 0, last_event: None, hist_pos: 0 }
    }

    /// The text being edited.
    pub fn current_buffer(&self) -> (r: String)
        ensures
            r@ == self@.buffer,
    {
        string_of(&self.buffer, 0, self.buffer.len())
    }

    /// The text that redraws the line after `prompt`.
    pub fn redraw(&self, prompt: &str) -> (r: String)
        requires
            editor_wf(self@),
        ensures
            r@ == redraw_text(prompt@, self@),
    {
        let width = prompt.unicode_len();
        let col: u16 = if width > 65535 || self.cursor > 65535 - width {
            65535
        } else {
            (width + self.cursor) as u16
        };
        let mut r = String::new();
        push_char(&mut r, '\r');
        append_str(&mut r, prompt);
        let text = self.current_buffer();
        append_str(&mut r, text.as_str());
        let clear = clear_after_cursor();
        append_str(&mut r, clear.as_str());
        push_char(&mut r, '\r');
        let right = cursor_right(col);
        append_str(&mut r, right.as_str());
        assert(r@ =~= redraw_text(prompt@, self@));
        r
    }

    fn set_buffer(&mut self, text: &str)
        ensures
            final(self)@ == (EditorView {
                buffer: text@,
                cursor: text@.len() as int,
                ..old(self)@
            }),
    {
        self.buffer = chars_of(text);
        self.cursor = self.buffer.len();
    }

    /// Takes one key. `cands` are the completions of the current text, which
    /// only Tab reads; Up and Down walk through the history in `ctx`.
    pub fn handle_key(&mut self, key: EditKey, cands: &Vec<String>, ctx: &mut ShellCtx) -> (r:
        EditAction)
        requires
            editor_wf(old(self)@),
            old(ctx).wf(),
        ensures
            editor_wf(final(self)@),
            final(ctx).wf(),
            key != EditKey::Up && key != EditKey::Down ==> {
                &&& (final(self)@, r@) == edit_step(old(self)@, key, strings_view(cands@))
                &&& final(ctx)@ == old(ctx)@
            },
            key == EditKey::Up ==> if old(self)@.hist_pos < old(ctx)@.entries.len() {
                let snap = match old(ctx)@.snapshot {
                    Some(s) => s,
                    None => old(self)@.buffer,
                };
                let b = recalled(old(ctx)@.entries, old(self)@.hist_pos + 1, snap);
                &&& final(self)@ == (EditorView {
                    buffer: b,
                    cursor: b.len() as int,
                    last: Some(key),
                    hist_pos: old(self)@.hist_pos + 1,
                })
                &&& final(ctx)@.entries == old(ctx)@.entries
                &&& final(ctx)@.snapshot == Some(snap)
                &&& r is Redraw
            } else {
                final(self)@ == old(self)@ && final(ctx)@ == old(ctx)@ && r is Nothing
            },
            key == EditKey::Down ==> if old(self)@.hist_pos > 1 {
                let snap = match old(ctx)@.snapshot {
                    Some(s) => s,
                    None => old(self)@.buffer,
                };
                let b = recalled(old(ctx)@.entries, old(self)@.hist_pos - 1, snap);
                &&& final(self)@ == (EditorView {
                    buffer: b,
                    cursor: b.len() as int,
                    last: Some(key),
                    hist_pos: old(self)@.hist_pos - 1,
                })
                &&& final(ctx)@.entries == old(ctx)@.entries
                &&& final(ctx)@.snapshot == Some(snap)
                &&& r is Redraw
            } else if old(self)@.hist_pos == 1 {
                let b = match old(ctx)@.snapshot {
                    Some(s) => s,
                    None => old(self)@.buffer,
                };
                &&& final(self)@ == (EditorView {
                    buffer: b,
                    cursor: b.len() as int,
                    last: Some(key),
                    hist_pos: 0,
                })
                &&& final(ctx)@ == old(ctx)@
                &&& r is Redraw
            } else {
                final(self)@ == old(self)@ && final(ctx)@ == old(ctx)@ && r is Nothing
            },
    {
        match key {
            EditKey::Char(c) => {
                if c == '\n' || c == '\r' {
                    let line = self.current_buffer();
                    self.buffer = Vec::new();
                    self.cursor = 0;
                    self.last_event = None;
                    self.hist_pos = 0;
                    EditAction::Submit(line)
                } else if c == '\t' {
                    self.tab(cands)
                } else {
                    self.buffer.insert(self.cursor, c);
                    let n = self.buffer.len();
                    assert(self.cursor < n);
                    self.cursor = self.cursor + 1;
                    self.last_event = Some(key);
                    EditAction::Redraw
                }
            },
            EditKey::Ctrl(c) => {
                if c == 'c' {
                    self.buffer = Vec::new();
                    self.cursor = 0;
                    self.last_event = None;
                    self.hist_pos = 0;
                    EditAction::Cancel
                } else if c == 'd' && self.buffer.len() == 0 {
                    EditAction::EndOfInput
                } else {
                    EditAction::Nothing
                }
            },
            EditKey::Left => {
                if self.cursor > 0 {
                    self.cursor = self.cursor - 1;
                }
                self.last_event = Some(key);
                EditAction::Redraw
            },
            EditKey::Right => {
                if self.cursor < self.buffer.len() {
                    self.cursor = self.cursor + 1;
                }
                self.last_event = Some(key);
                EditAction::Redraw
            },
            EditKey::Home => {
                self.cursor = 0;
                self.last_event = Some(key);
                EditAction::Redraw
            },
            EditKey::End => {
                self.cursor = self.buffer.len();
                self.last_event = Some(key);
                EditAction::Redraw
            },
            EditKey::Backspace => {
                self.last_event = Some(key);
                if self.cursor > 0 {
                    self.cursor = self.cursor - 1;
                    self.buffer.remove(self.cursor);
                    EditAction::Redraw
                } else {
                    EditAction::Nothing
                }
            },
            EditKey::Delete => {
                self.last_event = Some(key);
                if self.cursor < self.buffer.len() {
                    self.buffer.remove(self.cursor);
                    EditAction::Redraw
                } else {
                    EditAction::Nothing
                }
            },
            EditKey::Up => {
                if self.hist_pos < ctx.history_len() {
                    let current = self.current_buffer();
                    let line = ctx.get_history_entry(self.hist_pos + 1, current);
                    self.set_buffer(line.as_str());
                    self.hist_pos = self.hist_pos + 1;
                    self.last_event = Some(key);
                    EditAction::Redraw
                } else {
                    EditAction::Nothing
                }
            },
            EditKey::Down => {
                if self.hist_pos > 1 {
                    let current = self.current_buffer();
                    let line = ctx.get_history_entry(self.hist_pos - 1, current);
                    self.set_buffer(line.as_str());
                    self.hist_pos = self.hist_pos - 1;
                    self.last_event = Some(key);
                    EditAction::Redraw
                } else if self.hist_pos == 1 {
                    match ctx.saved_line() {
                        Some(s) => self.set_buffer(s.as_str()),
                        None => {
                            self.cursor = self.buffer.len();
                        },
                    }
                    self.hist_pos = 0;
                    self.last_event = Some(key);
                    EditAction::Redraw
                } else {
                    EditAction::Nothing
                }
            },
            EditKey::Other => EditAction::Nothing,
        }
    }

    fn tab(&mut self, cands: &Vec<String>) -> (r: EditAction)
        requires
            editor_wf(old(self)@),
        ensures
            editor_wf(final(self)@),
            (final(self)@, r@) == tab_step(old(self)@, strings_view(cands@)),
    {
        let ghost cv = strings_view(cands@);
        if self.last_event == Some(EditKey::Char('\t')) {
            self.last_event = None;
            return EditAction::ShowCandidates(join(cands, "  "));
        }
        if cands.len() == 1 {
            assert(cv[0] == cands@[0]@);
            let mut b = cands[0].clone();
            push_char(&mut b, ' ');
            self.set_buffer(b.as_str());
            self.last_event = None;
            return EditAction::Redraw;
        }
        let last = if cands.len() >= 2 {
            Some(EditKey::Char('\t'))
        } else {
            None
        };
        let lcp = common_prefix_ascii(cands);
        let lcp_chars = chars_of(lcp.as_str());
        if cands.len() >= 2 && lcp_chars.len() > self.buffer.len() && self.buffer_is_prefix_of(
            &lcp_chars,
        ) {
            self.set_buffer(lcp.as_str());
            self.last_event = last;
            EditAction::Redraw
        } else {
            self.last_event = last;
            EditAction::Bell
        }
    }

    fn buffer_is_prefix_of(&self, s: &Vec<char>) -> (r: bool)
        ensures
            r == starts_with(s@, self@.buffer),
    {
        let n = self.buffer.len();
        if n > s.len() {
            return false;
        }
        let mut i: usize = 0;
        while i < n
            invariant
                n == self.buffer@.len(),
                n <= s@.len(),
                i <= n,
                s@.subrange(0, i as int) == self.buffer@.subrange(0, i as int),
            decreases n - i,
        {
            if s[i] != self.buffer[i] {
                assert(s@.subrange(0, n as int)[i as int] == s@[i as int]);
                return false;
            }
            assert(s@.subrange(0, i + 1) =~= s@.subrange(0, i as int).push(s@[i as int]));
            assert(self.buffer@.subrange(0, i + 1) =~= self.buffer@.subrange(0, i as int).push(
                self.buffer@[i as int],
            ));
            i = i + 1;
        }
        assert(self.buffer@.subrange(0, n as int) =~= self.buffer@);
        true
    }
}

} // verus!
