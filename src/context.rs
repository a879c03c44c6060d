use vstd::prelude::*;

use crate::text::{append_str, chars_of, push_char, string_of, strings_view};

verus! {

/// The history file's text for `lines`: each line followed by a newline.
pub open spec fn text_of(lines: Seq<Seq<char>>) -> Seq<char>
    decreases lines.len(),
{
    if lines.len() == 0 {
        Seq::empty()
    } else {
        lines[0] + seq!['\n'] + text_of(lines.drop_first())
    }
}

/// The first newline at or after `i`, or the length of `s` if there is none.
pub open spec fn newline_from(s: Seq<char>, i: int) -> int
    decreases s.len() - i,
{
    if i < 0 || i >= s.len() {
        s.len() as int
    } else if s[i] == '\n' {
        i
    } else {
        newline_from(s, i + 1)
    }
}

/// The lines of a history file's text: the pieces between newlines, where a
/// last piece without a newline after it counts if it is not empty.
pub open spec fn lines_of(s: Seq<char>) -> Seq<Seq<char>>
    decreases s.len(),
    via lines_of_decreases
{
    if s.len() == 0 {
        Seq::empty()
    } else {
        let e = newline_from(s, 0);
        if e >= s.len() {
            seq![s]
        } else {
            seq![s.subrange(0, e)] + lines_of(s.subrange(e + 1, s.len() as int))
        }
    }
}

proof fn lemma_newline_from(s: Seq<char>, i: int)
    requires
        0 <= i <= s.len(),
    ensures
        i <= newline_from(s, i) <= s.len(),
        newline_from(s, i) < s.len() ==> s[newline_from(s, i)] == '\n',
        forall|j: int| i <= j < newline_from(s, i) ==> s[j] != '\n',
    decreases s.len() - i,
{
    if i < s.len() && s[i] != '\n' {
        lemma_newline_from(s, i + 1);
    }
}

#[via_fn]
proof fn lines_of_decreases(s: Seq<char>) {
    lemma_newline_from(s, 0);
}

/// The first newline of `s` from `i` on is where every earlier character is
/// not one.
proof fn lemma_newline_at(s: Seq<char>, i: int, k: int)
    requires
        0 <= i <= k <= s.len(),
        k < s.len() ==> s[k] == '\n',
        forall|j: int| i <= j < k ==> s[j] != '\n',
    ensures
        newline_from(s, i) == k,
    decreases k - i,
{
    if i < k {
        lemma_newline_at(s, i + 1, k);
    }
}

/// The first newline of a suffix is the first newline of the whole, moved.
proof fn lemma_newline_shift(s: Seq<char>, i: int)
    requires
        0 <= i <= s.len(),
    ensures
        newline_from(s.subrange(i, s.len() as int), 0) == newline_from(s, i) - i,
{
    let t = s.subrange(i, s.len() as int);
    lemma_newline_from(s, i);
    let k = newline_from(s, i);
    assert forall|j: int| 0 <= j < k - i implies t[j] != '\n' by {
        assert(t[j] == s[i + j]);
    }
    lemma_newline_at(t, 0, k - i);
}

pub open spec fn no_newline(l: Seq<char>) -> bool {
    forall|j: int| 0 <= j < l.len() ==> l[j] != '\n'
}

/// Reading back the text written for `lines` gives `lines`, when no line
/// holds a newline.
pub proof fn lemma_lines_of_text_of(lines: Seq<Seq<char>>)
    requires
        forall|k: int| 0 <= k < lines.len() ==> no_newline(#[trigger] lines[k]),
    ensures
        lines_of(text_of(lines)) == lines,
    decreases lines.len(),
{
    if lines.len() > 0 {
        let l = lines[0];
        let rest = lines.drop_first();
        assert forall|k: int| 0 <= k < rest.len() implies no_newline(#[trigger] rest[k]) by {
            assert(rest[k] == lines[k + 1]);
        }
        lemma_lines_of_text_of(rest);
        let t = text_of(lines);
        assert(t == l + seq!['\n'] + text_of(rest));
        assert forall|j: int| 0 <= j < l.len() implies t[j] != '\n' by {
            assert(t[j] == l[j]);
        }
        lemma_newline_at(t, 0, l.len() as int);
        assert(t.subrange(0, l.len() as int) =~= l);
        assert(t.subrange(l.len() + 1int, t.len() as int) =~= text_of(rest));
        assert(seq![l] + rest =~= lines);
    } else {
        assert(lines =~= Seq::<Seq<char>>::empty());
    }
}

/// Splits a history file's text into its lines.
pub fn split_lines(text: &str) -> (r: Vec<String>)
    ensures
        strings_view(r@) == lines_of(text@),
{
    let s = chars_of(text);
    let n = s.len();
    let mut r: Vec<String> = Vec::new();
    let mut i: usize = 0;
    assert(s@.subrange(0, n as int) =~= s@);
    assert(strings_view(r@) + lines_of(s@) =~= lines_of(s@));
    while i < n
        invariant
            n == s@.len(),
            s@ == text@,
            i <= n,
            lines_of(s@) == strings_view(r@) + lines_of(s@.subrange(i as int, n as int)),
        decreases n - i,
    {
        let ghost rest = s@.subrange(i as int, n as int);
        let mut e = i;
        while e < n && s[e] != '\n'
            invariant
                n == s@.len(),
                i <= e <= n,
                forall|j: int| i <= j < e ==> s@[j] != '\n',
            decreases n - e,
        {
            e = e + 1;
        }
        proof {
            lemma_newline_at(s@, i as int, e as int);
            lemma_newline_shift(s@, i as int);
        }
        let ghost done = strings_view(r@);
        let line = string_of(&s, i, e);
        r.push(line);
        assert(rest.subrange(0, e - i) =~= s@.subrange(i as int, e as int));
        assert(strings_view(r@) =~= done.push(rest.subrange(0, e - i)));
        if e >= n {
            assert(rest =~= rest.subrange(0, e - i));
            i = n;
            assert(s@.subrange(i as int, n as int) =~= Seq::<char>::empty());
            assert(strings_view(r@) =~= done + seq![rest]);
        } else {
            assert(rest.subrange(e - i + 1, rest.len() as int) =~= s@.subrange(e + 1, n as int));
            i = e + 1;
            assert(done + (seq![rest.subrange(0, e - i + 1)] + lines_of(
                s@.subrange(i as int, n as int),
            )) =~= done.push(rest.subrange(0, e - i + 1)) + lines_of(
                s@.subrange(i as int, n as int),
            ));
        }
    }
    assert(s@.subrange(n as int, n as int) =~= Seq::<char>::empty());
    assert(strings_view(r@) + Seq::<Seq<char>>::empty() =~= strings_view(r@));
    r
}

/// The history file's text for `lines[from..]`.
pub fn join_lines(lines: &Vec<String>, from: usize) -> (r: String)
    requires
        from <= lines@.len(),
    ensures
        r@ == text_of(strings_view(lines@).subrange(from as int, lines@.len() as int)),
{
    let ghost lv = strings_view(lines@);
    let mut r = String::new();
    let mut i = from;
    assert(lv.subrange(from as int, from as int) =~= Seq::<Seq<char>>::empty());
    while i < lines.len()
        invariant
            from <= i <= lines@.len(),
            lv == strings_view(lines@),
            r@ == text_of(lv.subrange(from as int, i as int)),
        decreases lines@.len() - i,
    {
        append_str(&mut r, lines[i].as_str());
        push_char(&mut r, '\n');
        proof {
            lemma_text_of_push(lv.subrange(from as int, i as int), lv[i as int]);
            assert(lv.subrange(from as int, i as int).push(lv[i as int]) =~= lv.subrange(
                from as int,
                i + 1,
            ));
        }
        i = i + 1;
    }
    r
}

proof fn lemma_text_of_push(lines: Seq<Seq<char>>, l: Seq<char>)
    ensures
        text_of(lines.push(l)) == text_of(lines) + l + seq!['\n'],
    decreases lines.len(),
{
    if lines.len() == 0 {
        assert(lines.push(l).drop_first() =~= Seq::<Seq<char>>::empty());
        assert(lines.push(l)[0] == l);
        assert(text_of(Seq::<Seq<char>>::empty()) == Seq::<char>::empty());
        assert(text_of(lines.push(l)) =~= l + seq!['\n']);
    } else {
        lemma_text_of_push(lines.drop_first(), l);
        assert(lines.push(l).drop_first() =~= lines.drop_first().push(l));
        assert(text_of(lines.push(l)) =~= text_of(lines) + l + seq!['\n']);
    }
}


pub open spec fn opt_view(o: Option<String>) -> Option<Seq<char>> {
    match o {
        Some(s) => Some(s@),
        None => None,
    }
}

/// The history store: the entries, how many of them are on disk, and where
/// they are read from and written to.
#[derive(Debug)]
struct HistCtx {
    entries: Vec<String>,
    breakpoint: usize,
    read_path: Option<String>,
    write_path: Option<String>,
    append: bool,
}

/// The state shared by the editor and the builtins: the history, and the
/// line the user was typing before scrolling through it.
#[derive(Debug)]
pub struct ShellCtx {
    history: HistCtx,
    current_buf: Option<String>,
}

/// The mathematical value of a [`ShellCtx`].
pub struct ShellCtxView {
    pub entries: Seq<Seq<char>>,
    pub breakpoint: int,
    pub read_path: Option<Seq<char>>,
    pub write_path: Option<Seq<char>>,
    pub append: bool,
    pub snapshot: Option<Seq<char>>,
}

impl View for ShellCtx {
    type V = ShellCtxView;

    closed spec fn view(&self) -> ShellCtxView {
        ShellCtxView {
            entries: strings_view(self.history.entries@),
            breakpoint: self.history.breakpoint as int,
            read_path: opt_view(self.history.read_path),
            write_path: opt_view(self.history.write_path),
            append: self.history.append,
            snapshot: opt_view(self.current_buf),
        }
    }
}

/// What is to be written to a history file: `text` goes to `path`, appended
/// or replacing it; once written, the first `persisted` entries are on disk.
#[derive(Debug)]
pub struct HistoryFlush {
    pub path: String,
    pub append: bool,
    pub text: String,
    pub persisted: usize,
}

/// The text that holds the entries not yet on disk.
pub open spec fn unsaved_text(h: ShellCtxView) -> Seq<char> {
    text_of(h.entries.subrange(h.breakpoint, h.entries.len() as int))
}

/// A flush of the unsaved entries of `h` to `path`.
pub open spec fn is_flush_of(f: HistoryFlush, h: ShellCtxView, path: Seq<char>, append: bool) -> bool {
    &&& f.path@ == path
    &&& f.append == append
    &&& f.text@ == unsaved_text(h)
    &&& f.persisted == h.entries.len()
}

/// The entries once the lines of `contents` are put before them.
pub open spec fn merged(h: ShellCtxView, contents: Seq<char>) -> Seq<Seq<char>> {
    lines_of(contents) + h.entries
}

/// The entry that `pos` steps back from the newest names (`0` and `1` both
/// name the newest), or the saved line once `pos` goes past the oldest.
pub open spec fn recalled(entries: Seq<Seq<char>>, pos: int, saved: Seq<char>) -> Seq<char> {
    let back = if pos == 0 {
        0
    } else {
        pos - 1
    };
    if back < entries.len() {
        entries[entries.len() - 1 - back]
    } else {
        saved
    }
}

impl ShellCtx {
    /// The breakpoint stays within the entries.
    pub open spec fn wf(&self) -> bool {
        0 <= self@.breakpoint <= self@.entries.len()
    }

    /// A fresh context. With a history file, `contents` is its text: its lines
    /// are the entries, all counted as on disk, and the file is where history
    /// is read from and appended to. Without one the history starts empty.
    pub fn build(histfile: Option<String>, contents: &str) -> (r: ShellCtx)
        ensures
            r.wf(),
            r@.snapshot is None,
            r@.append,
            r@.read_path == opt_view(histfile),
            r@.write_path == opt_view(histfile),
            histfile is Some ==> r@.entries == lines_of(contents@),
            histfile is None ==> r@.entries.len() == 0,
            r@.breakpoint == r@.entries.len(),
    {
        let entries = match &histfile {
            Some(_) => split_lines(contents),
            None => Vec::new(),
        };
        let breakpoint = entries.len();
        let read_path = match &histfile {
            Some(p) => Some(p.clone()),
            None => None,
        };
        ShellCtx {
            history: HistCtx { entries, breakpoint, read_path, write_path: histfile, append: true },
            current_buf: None,
        }
    }

    /// `history -r path`, where `contents` is the file's text: its lines go
    /// before the entries, and all of them count as on disk.
    pub fn set_read_history(&mut self, path: &str, contents: &str)
        requires
            old(self).wf(),
        ensures
            final(self).wf(),
            final(self)@.entries == merged(old(self)@, contents@),
            final(self)@.breakpoint == final(self)@.entries.len(),
            final(self)@.read_path == Some(path@),
            final(self)@.write_path == old(self)@.write_path,
            final(self)@.append == old(self)@.append,
            final(self)@.snapshot == old(self)@.snapshot,
    {
        let mut entries = split_lines(contents);
        let ghost file_lines = strings_view(entries@);
        let mut i: usize = 0;
        while i < self.history.entries.len()
            invariant
                i <= self.history.entries@.len(),
                self.history.entries@ == old(self).history.entries@,
                strings_view(entries@) == file_lines + strings_view(
                    self.history.entries@.subrange(0, i as int),
                ),
            decreases self.history.entries@.len() - i,
        {
            let ghost before = strings_view(entries@);
            entries.push(self.history.entries[i].clone());
            assert(strings_view(entries@) =~= before.push(self.history.entries@[i as int]@));
            assert(strings_view(self.history.entries@.subrange(0, i + 1)) =~= strings_view(
                self.history.entries@.subrange(0, i as int),
            ).push(self.history.entries@[i as int]@));
            assert(strings_view(entries@) =~= file_lines + strings_view(
                self.history.entries@.subrange(0, i + 1),
            ));
            i = i + 1;
        }
        assert(self.history.entries@.subrange(0, i as int) =~= self.history.entries@);
        self.history.breakpoint = entries.len();
        self.history.entries = entries;
        self.history.read_path = Some(String::from_str(path));
    }

    fn flush(&self) -> (r: Option<HistoryFlush>)
        requires
            self.wf(),
        ensures
            match self@.write_path {
                Some(p) => r is Some && is_flush_of(r->Some_0, self@, p, self@.append),
                None => r is None,
            },
    {
        match &self.history.write_path {
            Some(p) => Some(
                HistoryFlush {
                    path: p.clone(),
                    append: self.history.append,
                    text: join_lines(&self.history.entries, self.history.breakpoint),
                    persisted: self.history.entries.len(),
                },
            ),
            None => None,
        }
    }

    /// `history -w path`: from now on history is written to `path`,
    /// replacing it; the returned flush writes the unsaved entries there.
    pub fn set_write_history(&mut self, path: &str) -> (r: HistoryFlush)
        requires
            old(self).wf(),
        ensures
            final(self).wf(),
            final(self)@ == (ShellCtxView {
                append: false,
                write_path: Some(path@),
                ..old(self)@
            }),
            is_flush_of(r, old(self)@, path@, false),
    {
        self.history.append = false;
        self.history.write_path = Some(String::from_str(path));
        let r = self.flush();
        r.unwrap()
    }

    /// `history -a path`: from now on history is appended to `path`; the
    /// returned flush appends the unsaved entries there.
    pub fn set_append_history(&mut self, path: &str) -> (r: HistoryFlush)
        requires
            old(self).wf(),
        ensures
            final(self).wf(),
            final(self)@ == (ShellCtxView {
                append: true,
                write_path: Some(path@),
                ..old(self)@
            }),
            is_flush_of(r, old(self)@, path@, true),
    {
        self.history.append = true;
        self.history.write_path = Some(String::from_str(path));
        let r = self.flush();
        r.unwrap()
    }

    /// Records that the first `breakpoint` entries are on disk.
    pub fn set_breakpoint(&mut self, breakpoint: usize)
        requires
            breakpoint <= old(self)@.entries.len(),
        ensures
            final(self).wf(),
            final(self)@ == (ShellCtxView { breakpoint: breakpoint as int, ..old(self)@ }),
    {
        self.history.breakpoint = breakpoint;
    }

    /// Records an accepted line, and forgets the line saved while scrolling.
    pub fn handle_history(&mut self, line: &str)
        requires
            old(self).wf(),
        ensures
            final(self).wf(),
            final(self)@ == (ShellCtxView {
                entries: old(self)@.entries.push(line@),
                snapshot: None,
                ..old(self)@
            }),
    {
        self.current_buf = None;
        let ghost old_entries = strings_view(self.history.entries@);
        self.history.entries.push(String::from_str(line));
        assert(strings_view(self.history.entries@) =~= old_entries.push(line@));
    }

    /// What shutting down writes: the unsaved entries, to the history file in
    /// its current mode, if there is one.
    pub fn shut_down(&self) -> (r: Option<HistoryFlush>)
        requires
            self.wf(),
        ensures
            match self@.write_path {
                Some(p) => r is Some && is_flush_of(r->Some_0, self@, p, self@.append),
                None => r is None,
            },
    {
        self.flush()
    }

    /// The line saved when scrolling through history began.
    pub fn saved_line(&self) -> (r: Option<String>)
        ensures
            opt_view(r) == self@.snapshot,
    {
        match &self.current_buf {
            Some(s) => Some(s.clone()),
            None => None,
        }
    }

    /// How many entries the history holds.
    pub fn history_len(&self) -> (r: usize)
        ensures
            r == self@.entries.len(),
    {
        self.history.entries.len()
    }

    pub fn get_history(&self) -> (r: &Vec<String>)
        ensures
            strings_view(r@) == self@.entries,
    {
        &self.history.entries
    }

    /// The entry `pos` steps back from the newest. The first call saves
    /// `current`, the line being typed, and it is what comes back once `pos`
    /// goes past the oldest entry.
    pub fn get_history_entry(&mut self, pos: usize, current: String) -> (r: String)
        requires
            old(self).wf(),
        ensures
            final(self).wf(),
            final(self)@ == (ShellCtxView {
                snapshot: Some(
                    match old(self)@.snapshot {
                        Some(s) => s,
                        None => current@,
                    },
                ),
                ..old(self)@
            }),
            r@ == recalled(old(self)@.entries, pos as int, final(self)@.snapshot->Some_0),
    {
        if self.current_buf.is_none() {
            self.current_buf = Some(current);
        }
        let back = if pos == 0 {
            0
        } else {
            pos - 1
        };
        let n = self.history.entries.len();
        if back < n {
            self.history.entries[n - 1 - back].clone()
        } else {
            match &self.current_buf {
                Some(s) => s.clone(),
                None => String::new(),
            }
        }
    }
}

/// Writing the history with `history -w` and then starting a shell on that
/// file gives back the same entries, when none was on disk before and no
/// entry holds a newline.
pub proof fn lemma_history_round_trip(h: ShellCtxView)
    requires
        h.breakpoint == 0,
        forall|k: int| 0 <= k < h.entries.len() ==> no_newline(#[trigger] h.entries[k]),
    ensures
        lines_of(unsaved_text(h)) == h.entries,
{
    assert(h.entries.subrange(0, h.entries.len() as int) =~= h.entries);
    lemma_lines_of_text_of(h.entries);
}

/// After an accepted line is recorded, it is the newest entry, and stays so
/// when `history -r` then puts a file's lines before the entries.
pub proof fn lemma_accepted_line_is_newest(h: ShellCtxView, line: Seq<char>, contents: Seq<char>)
    ensures
        h.entries.push(line).last() == line,
        merged(ShellCtxView { entries: h.entries.push(line), ..h }, contents).last() == line,
{
}

} // verus!
