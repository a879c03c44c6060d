use vstd::prelude::*;

verus! {

/// Which stream a redirection takes, and whether it appends to the file.
#[derive(Debug, PartialEq, Eq, Clone, Copy, Structural)]
pub enum Redirect {
    StdOut(bool),
    StdErr(bool),
}

impl Redirect {
    pub open spec fn is_stdout(self) -> bool {
        self is StdOut
    }

    pub open spec fn appends(self) -> bool {
        match self {
            Redirect::StdOut(a) => a,
            Redirect::StdErr(a) => a,
        }
    }

    /// Whether the file is appended to rather than replaced.
    pub fn is_append(&self) -> (r: bool)
        ensures
            r == self.appends(),
    {
        match self {
            Redirect::StdOut(a) => *a,
            Redirect::StdErr(a) => *a,
        }
    }
}

/// A stream sent to a file.
#[derive(Debug, PartialEq, Eq)]
pub struct Redirection {
    pub redirect: Redirect,
    pub path: String,
}

/// The mathematical value of a [`Redirection`].
pub struct RedirectionView {
    pub redirect: Redirect,
    pub path: Seq<char>,
}

impl View for Redirection {
    type V = RedirectionView;

    open spec fn view(&self) -> RedirectionView {
        RedirectionView { redirect: self.redirect, path: self.path@ }
    }
}

pub open spec fn redirections_view(v: Seq<Redirection>) -> Seq<RedirectionView> {
    v.map_values(|r: Redirection| r@)
}

impl Redirection {
    pub fn new(redirection: Redirect, path: &str) -> (r: Redirection)
        ensures
            r@ == (RedirectionView { redirect: redirection, path: path@ }),
    {
        Redirection { redirect: redirection, path: String::from_str(path) }
    }
}

/// What an operator text means: a leading `2` takes stderr, anything else
/// stdout; `>>`, `1>>` and `2>>` append.
pub open spec fn redirect_of(op: Seq<char>) -> Redirect {
    let append = (op[0] == '>' && op.len() == 2) || op.len() == 3;
    if op[0] == '2' {
        Redirect::StdErr(append)
    } else {
        Redirect::StdOut(append)
    }
}

/// Reads a redirection operator (`>`, `>>`, `1>`, `1>>`, `2>`, `2>>`).
pub fn eval_redirect(redirect: &str) -> (r: Redirect)
    requires
        redirect@.len() >= 1,
    ensures
        r == redirect_of(redirect@),
{
    let first = redirect.get_char(0);
    let count = redirect.unicode_len() - 1;
    let append = (first == '>' && count == 1) || count == 2;
    if first == '2' {
        Redirect::StdErr(append)
    } else {
        Redirect::StdOut(append)
    }
}

} // verus!
